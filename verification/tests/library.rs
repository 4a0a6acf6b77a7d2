use bookx::book::BookxBook;
use bookx::book::BookxBookError;
use bookx::book::DocErrorKind;
use bookx::format::Format;
use bookx::library::failure_notification;
use bookx::library::remove_identifier;
use bookx::library::unsupported_notification;
use bookx::library::unsupported_notifications;
use bookx::library::BookxLibrary;
use bookx::library::BookxLibraryError;
use bookx::library::BookxLibraryStatus;
use bookx::library::LoadOutcome;
use bookx::library::Refresh;
use bookx::library::RefreshEnd;
use bookx::library::ScanOutcome;
use bookx::utils::ScanIoError;

fn book(identifier: &str, title: &str, path: &str) -> BookxBook {
    BookxBook {
        identifier: String::from(identifier),
        title: String::from(title),
        format: Format::EPUB,
        path: String::from(path),
        author: String::new(),
        publisher: String::new(),
        language: String::new(),
        cover_picture_path: String::new(),
        has_annotations: false,
        progress: 0,
    }
}

fn loaded(identifier: &str, title: &str, path: &str) -> LoadOutcome {
    LoadOutcome { path: String::from(path), result: Ok(book(identifier, title, path)) }
}

fn failed(path: &str, error: BookxBookError) -> LoadOutcome {
    LoadOutcome { path: String::from(path), result: Err(error) }
}

fn scan(unsupported: Vec<&str>, loads: Vec<LoadOutcome>) -> Result<ScanOutcome, ScanIoError> {
    Ok(ScanOutcome { unsupported: unsupported.into_iter().map(String::from).collect(), loads })
}

fn start(library: &mut BookxLibrary, folder: &str) -> u64 {
    match library.refresh_data(folder) {
        Refresh::Scan { folder: asked, ticket } => {
            assert_eq!(asked, folder);
            ticket
        }
        other => panic!("no scan was started: {:?}", other),
    }
}

#[test]
fn new_library_has_no_folder() {
    let library = BookxLibrary::new();
    assert_eq!(library.status(), BookxLibraryStatus::Null);
    assert!(library.books().is_empty());
    assert_eq!(library.folder(), "");
    assert_eq!(library.reason(), "");
    assert_eq!(BookxLibraryStatus::default(), BookxLibraryStatus::Null);
}

#[test]
fn folder_with_one_epub_gives_content() {
    let mut library = BookxLibrary::new();
    assert_eq!(library.status(), BookxLibraryStatus::Null);
    let ticket = start(&mut library, "file:///books");
    assert_eq!(library.status(), BookxLibraryStatus::Loading);
    assert_eq!(library.folder(), "file:///books");
    let report = library.finish_refresh(
        ticket,
        scan(vec!["/books/notes.txt"], vec![loaded("isbn-123", "Foo", "/books/foo.epub")]),
    );
    assert_eq!(library.status(), BookxLibraryStatus::Content);
    assert_eq!(library.books().len(), 1);
    assert_eq!(library.books()[0].identifier, "isbn-123");
    assert_eq!(library.books()[0].title, "Foo");
    assert_eq!(report.end, RefreshEnd::Content);
    assert_eq!(report.notifications, vec![String::from("/books/notes.txt is not supported by Bookx")]);
    assert_eq!(library.reason(), "");
}

#[test]
fn empty_folder_leaves_no_books() {
    let mut library = BookxLibrary::new();
    let ticket = start(&mut library, "/books");
    library.finish_refresh(ticket, scan(vec![], vec![loaded("a", "A", "/books/a.epub")]));
    assert_eq!(library.status(), BookxLibraryStatus::Content);
    let ticket = start(&mut library, "/books");
    assert_eq!(library.books().len(), 1);
    let report = library.finish_refresh(ticket, scan(vec![], vec![]));
    assert_eq!(library.status(), BookxLibraryStatus::Error);
    assert!(library.books().is_empty());
    assert_eq!(
        report.notifications,
        vec![String::from("Could not find any books in the current directory")]
    );
    assert_eq!(
        report.end,
        RefreshEnd::NoContent(BookxLibraryError {
            details: String::from("Could not find any books in the current directory"),
        })
    );
    assert_eq!(library.reason(), "Could not find any books in the current directory");
}

#[test]
fn each_failed_load_is_notified_and_skipped() {
    let mut library = BookxLibrary::new();
    let ticket = start(&mut library, "/books");
    let report = library.finish_refresh(
        ticket,
        scan(
            vec![],
            vec![
                failed("/books/a.epub", BookxBookError::DocError(DocErrorKind::ArchiveError)),
                loaded("b", "B", "/books/b.epub"),
                failed("/books/c.epub", BookxBookError::DocError(DocErrorKind::XmlError)),
                failed("/books/d.epub", BookxBookError::DocError(DocErrorKind::IOError)),
                failed("/books/e.epub", BookxBookError::DocError(DocErrorKind::InvalidEpub)),
                failed("/books/f.epub", BookxBookError::NoCover),
                failed("/books/g.epub", BookxBookError::FormatNotSupportError),
                loaded("h", "H", "/books/h.epub"),
            ],
        ),
    );
    assert_eq!(
        report.notifications,
        vec![
            String::from("Bookx failed to load /books/a.epub. ArchiveError occurred."),
            String::from("Bookx failed to load /books/c.epub. XmlError occurred."),
            String::from("Bookx failed to load /books/d.epub. IOError occurred."),
            String::from("Bookx failed to load /books/e.epub. InvalidEpub error occurred."),
            String::from("Bookx failed to load /books/f.epub. NoCover error occurred."),
            String::from("/books/g.epub is not supported by Bookx"),
        ]
    );
    assert_eq!(report.end, RefreshEnd::Content);
    assert_eq!(library.status(), BookxLibraryStatus::Content);
    let identifiers: Vec<&str> = library.books().iter().map(|b| b.identifier.as_str()).collect();
    assert_eq!(identifiers, vec!["b", "h"]);
}

#[test]
fn files_that_all_fail_leave_no_content() {
    let mut library = BookxLibrary::new();
    let ticket = start(&mut library, "/books");
    let report = library.finish_refresh(
        ticket,
        scan(vec!["/books/x.txt"], vec![failed("/books/a.epub", BookxBookError::NoCover)]),
    );
    assert_eq!(library.status(), BookxLibraryStatus::Error);
    assert!(library.books().is_empty());
    assert_eq!(
        report.notifications,
        vec![
            String::from("/books/x.txt is not supported by Bookx"),
            String::from("Bookx failed to load /books/a.epub. NoCover error occurred."),
            String::from("Library has no readable Books."),
        ]
    );
    assert_eq!(
        report.end,
        RefreshEnd::NoContent(BookxLibraryError::new("Library has no readable Books."))
    );
    assert_eq!(library.reason(), "Library has no readable Books.");
}

#[test]
fn unreadable_folder_fails_the_scan() {
    let mut library = BookxLibrary::new();
    let ticket = start(&mut library, "/books");
    let report = library.finish_refresh(ticket, Err(ScanIoError { folder: String::from("books/locked") }));
    assert_eq!(library.status(), BookxLibraryStatus::Error);
    assert!(library.books().is_empty());
    assert_eq!(report.notifications, vec![String::from("Could not read the folder books/locked")]);
    assert_eq!(library.reason(), "Could not read the folder books/locked");
    match report.end {
        RefreshEnd::NoContent(error) => {
            assert_eq!(error.to_string(), "Could not read the folder books/locked")
        }
        other => panic!("unexpected end: {:?}", other),
    }
}

#[test]
fn later_file_with_the_same_identifier_wins() {
    let mut library = BookxLibrary::new();
    let ticket = start(&mut library, "/books");
    library.finish_refresh(
        ticket,
        scan(
            vec![],
            vec![
                loaded("same", "First", "/books/a.epub"),
                loaded("other", "Other", "/books/b.epub"),
                loaded("same", "Second", "/books/c.epub"),
            ],
        ),
    );
    let titles: Vec<&str> = library.books().iter().map(|b| b.title.as_str()).collect();
    assert_eq!(titles, vec!["Other", "Second"]);
    assert_eq!(library.books()[1].path, "/books/c.epub");
}

#[test]
fn empty_folder_string_gives_null() {
    let mut library = BookxLibrary::new();
    let ticket = start(&mut library, "/books");
    library.finish_refresh(ticket, scan(vec![], vec![loaded("a", "A", "/books/a.epub")]));
    let refresh = library.refresh_data("");
    assert_eq!(
        refresh,
        Refresh::NoFolder {
            notification: String::from(
                "Books Directory string is empty. Set it to an existing path in Preferences."
            ),
        }
    );
    assert_eq!(library.status(), BookxLibraryStatus::Null);
    assert!(library.books().is_empty());
    assert_eq!(library.folder(), "");
}

#[test]
fn second_request_for_the_same_folder_is_busy() {
    let mut library = BookxLibrary::new();
    let ticket = start(&mut library, "/books");
    assert_eq!(library.refresh_data("/books"), Refresh::Busy);
    assert_eq!(library.status(), BookxLibraryStatus::Loading);
    let report = library.finish_refresh(ticket, scan(vec![], vec![loaded("a", "A", "/books/a.epub")]));
    assert_eq!(report.end, RefreshEnd::Content);
    assert_eq!(library.books().len(), 1);
    let again = start(&mut library, "/books");
    assert_ne!(again, ticket);
}

#[test]
fn folder_change_discards_the_scan_in_flight() {
    let mut library = BookxLibrary::new();
    let old = start(&mut library, "/books");
    let new = start(&mut library, "/other");
    assert_ne!(old, new);
    assert_eq!(library.folder(), "/other");
    let report = library.finish_refresh(old, scan(vec![], vec![loaded("a", "A", "/books/a.epub")]));
    assert_eq!(report.end, RefreshEnd::Discarded);
    assert!(report.notifications.is_empty());
    assert_eq!(library.status(), BookxLibraryStatus::Loading);
    assert!(library.books().is_empty());
    let report = library.finish_refresh(new, scan(vec![], vec![loaded("b", "B", "/other/b.epub")]));
    assert_eq!(report.end, RefreshEnd::Content);
    assert_eq!(library.books()[0].identifier, "b");
}

#[test]
fn clearing_the_folder_discards_the_scan_in_flight() {
    let mut library = BookxLibrary::new();
    let ticket = start(&mut library, "/books");
    library.refresh_data("");
    let report = library.finish_refresh(ticket, scan(vec![], vec![loaded("a", "A", "/books/a.epub")]));
    assert_eq!(report.end, RefreshEnd::Discarded);
    assert_eq!(library.status(), BookxLibraryStatus::Null);
    assert!(library.books().is_empty());
}

#[test]
fn outcome_without_a_scan_is_discarded() {
    let mut library = BookxLibrary::new();
    let report = library.finish_refresh(0, scan(vec![], vec![loaded("a", "A", "/books/a.epub")]));
    assert_eq!(report.end, RefreshEnd::Discarded);
    assert_eq!(library.status(), BookxLibraryStatus::Null);
    let ticket = start(&mut library, "/books");
    library.finish_refresh(ticket, scan(vec![], vec![loaded("a", "A", "/books/a.epub")]));
    let report = library.finish_refresh(ticket, scan(vec![], vec![]));
    assert_eq!(report.end, RefreshEnd::Discarded);
    assert_eq!(library.status(), BookxLibraryStatus::Content);
    assert_eq!(library.books().len(), 1);
}

#[test]
fn collection_stays_while_loading() {
    let mut library = BookxLibrary::new();
    let ticket = start(&mut library, "/books");
    library.finish_refresh(ticket, scan(vec![], vec![loaded("a", "A", "/books/a.epub")]));
    start(&mut library, "/books");
    assert_eq!(library.status(), BookxLibraryStatus::Loading);
    assert_eq!(library.books().len(), 1);
}

#[test]
fn tickets_count_up_and_wrap() {
    assert_eq!(BookxLibrary::ticket_after(0), 1);
    assert_eq!(BookxLibrary::ticket_after(41), 42);
    assert_eq!(BookxLibrary::ticket_after(u64::MAX), 0);
}

#[test]
fn notification_texts() {
    assert_eq!(unsupported_notification("/a.txt"), "/a.txt is not supported by Bookx");
    assert_eq!(
        failure_notification("/a.epub", BookxBookError::FormatNotSupportError),
        "/a.epub is not supported by Bookx"
    );
    assert_eq!(
        failure_notification("/a.epub", BookxBookError::DocError(DocErrorKind::InvalidEpub)),
        "Bookx failed to load /a.epub. InvalidEpub error occurred."
    );
    assert_eq!(
        unsupported_notifications(&vec![String::from("/a"), String::from("/b")]),
        vec![String::from("/a is not supported by Bookx"), String::from("/b is not supported by Bookx")]
    );
}

#[test]
fn removing_an_identifier_keeps_the_others_in_order() {
    let books = vec![book("a", "A", "/a"), book("b", "B", "/b"), book("a", "A2", "/a2"), book("c", "C", "/c")];
    let kept = remove_identifier(books, "a");
    let titles: Vec<&str> = kept.iter().map(|b| b.title.as_str()).collect();
    assert_eq!(titles, vec!["B", "C"]);
    assert!(remove_identifier(vec![], "a").is_empty());
}
