use bookx::book::cover_action;
use bookx::book::find_first;
use bookx::book::join_values;
use bookx::book::BookxBook;
use bookx::book::BookxBookError;
use bookx::book::CoverAction;
use bookx::book::DocErrorKind;
use bookx::book::EpubContents;
use bookx::book::LoadedBook;
use bookx::book::MetadataItem;
use bookx::book::PROGRESS_PLACEHOLDER;
use bookx::format::Format;
use epub::archive::ArchiveError;
use epub::doc::DocError;
use bookx::paths::UserDirs;

const EPUB: &str = "application/epub+zip";

fn dirs() -> UserDirs {
    UserDirs {
        cache: String::from("/home/reader/.cache"),
        config: String::from("/home/reader/.config"),
        data: String::from("/home/reader/.local/share"),
    }
}

fn item(property: &str, value: &str) -> MetadataItem {
    MetadataItem { property: String::from(property), value: String::from(value) }
}

fn contents(metadata: Vec<MetadataItem>, cover: Option<Vec<u8>>) -> Result<EpubContents, DocError> {
    Ok(EpubContents { metadata, cover })
}

fn foo() -> Vec<MetadataItem> {
    vec![
        item("identifier", "isbn-123"),
        item("title", "Foo"),
        item("creator", "Ann Author"),
        item("creator", "Bob Writer"),
        item("publisher", "Press"),
        item("language", "en"),
    ]
}

#[test]
fn load_valid_epub_with_cover() {
    let loaded = BookxBook::load(
        String::from("/books/foo.epub"),
        EPUB,
        contents(foo(), Some(vec![0x89, 0x50, 0x4e, 0x47])),
        &dirs(),
    );
    let LoadedBook { book, cover } = loaded.unwrap();
    assert_eq!(book.identifier, "isbn-123");
    assert_eq!(book.title, "Foo");
    assert_eq!(book.format, Format::EPUB);
    assert_eq!(book.path, "/books/foo.epub");
    assert_eq!(book.author, "Ann Author, Bob Writer");
    assert_eq!(book.publisher, "Press");
    assert_eq!(book.language, "EN");
    assert_eq!(book.cover_picture_path, "/home/reader/.cache/bookx/isbn-123.png");
    assert!(!book.has_annotations);
    assert!(!book.has_annotations());
    assert_eq!(book.progress, PROGRESS_PLACEHOLDER);
    assert_eq!(book.progress, 0);
    assert_eq!(cover, vec![0x89, 0x50, 0x4e, 0x47]);
    assert_eq!(cover_action(false), CoverAction::Write);
}

#[test]
fn identifier_falls_back_to_title() {
    let metadata = vec![item("title", "Only A Title")];
    let loaded = BookxBook::load(String::from("/b.epub"), EPUB, contents(metadata, Some(vec![1])), &dirs());
    let book = loaded.unwrap().book;
    assert_eq!(book.identifier, "Only A Title");
    assert_eq!(book.title, "Only A Title");
    assert_eq!(book.author, "");
    assert_eq!(book.publisher, "");
    assert_eq!(book.language, "");
    assert_eq!(book.cover_picture_path, "/home/reader/.cache/bookx/Only+A+Title.png");
}

#[test]
fn first_of_repeated_metadata_counts() {
    let metadata = vec![
        item("title", "First"),
        item("title", "Second"),
        item("identifier", "id-1"),
        item("identifier", "id-2"),
        item("language", "pt-br"),
        item("language", "de"),
    ];
    let book = BookxBook::load(String::from("/b.epub"), EPUB, contents(metadata, Some(vec![])), &dirs())
        .unwrap()
        .book;
    assert_eq!(book.title, "First");
    assert_eq!(book.identifier, "id-1");
    assert_eq!(book.language, "PT-BR");
}

#[test]
fn language_is_upper_cased_beyond_ascii() {
    let metadata = vec![item("title", "T"), item("language", "stra\u{df}e")];
    let book = BookxBook::load(String::from("/b.epub"), EPUB, contents(metadata, Some(vec![])), &dirs())
        .unwrap()
        .book;
    assert_eq!(book.language, "STRASSE");
}

#[test]
fn unsupported_content_type_is_refused_first() {
    let refused = BookxBook::load(String::from("/notes.txt"), "text/plain", contents(foo(), Some(vec![1])), &dirs());
    assert_eq!(refused, Err(BookxBookError::FormatNotSupportError));
    let refused = BookxBook::load(String::from("/notes.txt"), "text/plain", Err(DocError::InvalidEpub), &dirs());
    assert_eq!(refused, Err(BookxBookError::FormatNotSupportError));
}

#[test]
fn container_that_did_not_open() {
    let cases = [
        (DocError::ArchiveError(ArchiveError::PathUtf8), DocErrorKind::ArchiveError),
        (DocError::IOError(std::io::Error::other("unreadable")), DocErrorKind::IOError),
        (DocError::InvalidEpub, DocErrorKind::InvalidEpub),
    ];
    for (error, kind) in cases {
        let failed = BookxBook::load(String::from("/b.epub"), EPUB, Err(error), &dirs());
        assert_eq!(failed, Err(BookxBookError::DocError(kind)));
    }
}

#[test]
fn missing_title_is_an_invalid_epub() {
    let metadata = vec![item("identifier", "isbn-123"), item("creator", "A")];
    let failed = BookxBook::load(String::from("/b.epub"), EPUB, contents(metadata, Some(vec![1])), &dirs());
    assert_eq!(failed, Err(BookxBookError::DocError(DocErrorKind::InvalidEpub)));
    let failed = BookxBook::load(String::from("/b.epub"), EPUB, contents(vec![], None), &dirs());
    assert_eq!(failed, Err(BookxBookError::DocError(DocErrorKind::InvalidEpub)));
}

#[test]
fn missing_cover_fails_the_load() {
    let failed = BookxBook::load(String::from("/b.epub"), EPUB, contents(foo(), None), &dirs());
    assert_eq!(failed, Err(BookxBookError::NoCover));
}

#[test]
fn repeat_load_keeps_a_cached_cover() {
    assert_eq!(cover_action(true), CoverAction::Keep);
    assert_eq!(cover_action(false), CoverAction::Write);
}

#[test]
fn find_first_and_join() {
    let metadata = foo();
    assert_eq!(find_first(&metadata, "creator"), Some(String::from("Ann Author")));
    assert_eq!(find_first(&metadata, "rights"), None);
    assert_eq!(find_first(&vec![], "title"), None);
    assert_eq!(join_values(&metadata, "creator", ", "), "Ann Author, Bob Writer");
    assert_eq!(join_values(&metadata, "title", ", "), "Foo");
    assert_eq!(join_values(&metadata, "rights", ", "), "");
    assert_eq!(join_values(&metadata, "creator", ""), "Ann AuthorBob Writer");
}

#[test]
fn empty_values_are_joined_too() {
    let metadata = vec![item("creator", ""), item("creator", "B"), item("creator", "")];
    assert_eq!(join_values(&metadata, "creator", "; "), "; B; ");
}

#[test]
fn progress_is_a_percentage() {
    let mut book = BookxBook::load(String::from("/b.epub"), EPUB, contents(foo(), Some(vec![1])), &dirs())
        .unwrap()
        .book;
    book.set_progress(1, 3);
    assert_eq!(book.progress, 33);
    book.set_progress(2, 3);
    assert_eq!(book.progress, 66);
    book.set_progress(3, 3);
    assert_eq!(book.progress, 100);
    book.set_progress(42, 100);
    assert_eq!(book.progress, 42);
    book.set_progress(i32::MAX - 1, i32::MAX);
    assert_eq!(book.progress, 99);
    assert_eq!(book.title, "Foo");
}

#[test]
fn progress_stays_between_0_and_100() {
    let mut book = BookxBook::load(String::from("/b.epub"), EPUB, contents(foo(), Some(vec![1])), &dirs())
        .unwrap()
        .book;
    book.set_progress(7, 3);
    assert_eq!(book.progress, 100);
    book.set_progress(-1, 3);
    assert_eq!(book.progress, 0);
    book.set_progress(0, 3);
    assert_eq!(book.progress, 0);
    book.set_progress(5, 0);
    assert_eq!(book.progress, 0);
    book.set_progress(5, -2);
    assert_eq!(book.progress, 0);
    book.set_progress(i32::MIN, i32::MIN);
    assert_eq!(book.progress, 0);
}

#[test]
fn paths_of_a_book() {
    assert_eq!(
        BookxBook::get_data_path("isbn-123", &dirs()),
        "/home/reader/.local/share/bookx/isbn-123.json"
    );
    assert_eq!(
        BookxBook::get_cover_picture_path("isbn 123", &dirs()),
        "/home/reader/.cache/bookx/isbn+123.png"
    );
}
