//! The library: the collection of loaded books, its status, and the transitions
//! that a refresh of the configured folder drives.
//!
//! A refresh runs in two steps. [`BookxLibrary::refresh_data`] takes the configured
//! folder and says whether it is to be scanned; the caller scans it, loads each
//! file that was found, and hands all outcomes to [`BookxLibrary::finish_refresh`],
//! which swaps the collection in one step. Each scan carries a ticket, and what
//! comes back under a ticket that is no longer current is discarded.

use vstd::prelude::*;
use crate::book::BookxBook;
use crate::book::BookxBookError;
use crate::book::DocErrorKind;
use crate::text::same_text;
use crate::text::texts;
use crate::utils::ScanIoError;

verus! {

/// The state of a library.
#[derive(Debug, Clone, Copy, PartialEq, Eq, Structural)]
pub enum BookxLibraryStatus {
    /// A scan of the configured folder is in flight.
    Loading,
    /// At least one book was loaded.
    Content,
    /// The folder is configured, but the last scan gave no usable book.
    Error,
    /// No folder is configured.
    Null,
}

impl Default for BookxLibraryStatus {
    fn default() -> (status: BookxLibraryStatus)
        ensures
            status == BookxLibraryStatus::Null,
    {
        BookxLibraryStatus::Null
    }
}

/// Why a refresh ended without content.
#[derive(Debug, PartialEq, Eq)]
pub struct BookxLibraryError {
    pub details: String,
}

impl BookxLibraryError {
    /// An error with the given message.
    pub fn new(msg: &str) -> (e: BookxLibraryError)
        ensures
            e.details@ == msg@,
    {
        BookxLibraryError { details: msg.to_owned() }
    }

    /// The message, as `Display` would print it.
    pub fn to_string(&self) -> (s: String)
        ensures
            s@ == self.details@,
    {
        self.details.as_str().to_owned()
    }
}

/// The outcome of loading one file that a scan found.
#[derive(Debug, PartialEq, Eq)]
pub struct LoadOutcome {
    pub path: String,
    pub result: Result<BookxBook, BookxBookError>,
}

/// Everything a completed scan gave: the regular files that were passed over for
/// their content type, and the outcome of loading each file that was kept, in scan
/// order.
#[derive(Debug, PartialEq, Eq)]
pub struct ScanOutcome {
    pub unsupported: Vec<String>,
    pub loads: Vec<LoadOutcome>,
}

/// The answer to a request for a refresh.
#[derive(Debug, PartialEq, Eq)]
pub enum Refresh {
    /// No folder is configured; the notification says so.
    NoFolder { notification: String },
    /// A scan of this folder is in flight already: the request is refused.
    Busy,
    /// Scan `folder` and hand the outcome back under `ticket`.
    Scan { folder: String, ticket: u64 },
}

/// How a refresh ended.
#[derive(Debug, PartialEq, Eq)]
pub enum RefreshEnd {
    /// The outcome came under a ticket that is not current: nothing was changed.
    Discarded,
    /// The collection was replaced by the books that the scan loaded.
    Content,
    /// There is no usable book; the collection is empty, for the reason given.
    NoContent(BookxLibraryError),
}

/// What a finished refresh reports: the notifications to show, in order, and how it
/// ended.
#[derive(Debug, PartialEq, Eq)]
pub struct RefreshReport {
    pub notifications: Vec<String>,
    pub end: RefreshEnd,
}

/// The notification for a request without a folder.
pub open spec fn no_folder_notice() -> Seq<char> {
    "Books Directory string is empty. Set it to an existing path in Preferences."@
}

/// The reason given where the scan found no file to load.
pub open spec fn empty_folder_notice() -> Seq<char> {
    "Could not find any books in the current directory"@
}

/// The reason given where the scan found files and none of them loaded.
pub open spec fn no_readable_notice() -> Seq<char> {
    "Library has no readable Books."@
}

/// The reason given where a folder could not be enumerated.
pub open spec fn unreadable_notice(folder: Seq<char>) -> Seq<char> {
    "Could not read the folder "@ + folder
}

/// The notification for a file whose content type is not accepted.
pub open spec fn unsupported_notice(path: Seq<char>) -> Seq<char> {
    path + " is not supported by Bookx"@
}

/// What the notification for a failed load says after the path.
pub open spec fn failure_suffix(error: BookxBookError) -> Seq<char> {
    match error {
        BookxBookError::FormatNotSupportError => " is not supported by Bookx"@,
        BookxBookError::DocError(DocErrorKind::ArchiveError) => ". ArchiveError occurred."@,
        BookxBookError::DocError(DocErrorKind::XmlError) => ". XmlError occurred."@,
        BookxBookError::DocError(DocErrorKind::IOError) => ". IOError occurred."@,
        BookxBookError::DocError(DocErrorKind::InvalidEpub) => ". InvalidEpub error occurred."@,
        BookxBookError::NoCover => ". NoCover error occurred."@,
    }
}

/// The notification for a file that failed to load.
pub open spec fn failure_notice(path: Seq<char>, error: BookxBookError) -> Seq<char> {
    match error {
        BookxBookError::FormatNotSupportError => unsupported_notice(path),
        _ => "Bookx failed to load "@ + path + failure_suffix(error),
    }
}

/// One notification for each file that was passed over, in order.
pub open spec fn unsupported_notices(paths: Seq<String>) -> Seq<Seq<char>> {
    paths.map_values(|path: String| unsupported_notice(path@))
}

/// One notification for each load that failed, in scan order.
pub open spec fn load_notices(loads: Seq<LoadOutcome>) -> Seq<Seq<char>>
    decreases loads.len(),
{
    if loads.len() == 0 {
        Seq::empty()
    } else {
        let before = load_notices(loads.drop_last());
        match loads.last().result {
            Ok(_) => before,
            Err(error) => before.push(failure_notice(loads.last().path@, error)),
        }
    }
}

/// The books without those that carry the given identifier.
pub open spec fn without_identifier(books: Seq<BookxBook>, identifier: Seq<char>) -> Seq<
    BookxBook,
>
    decreases books.len(),
{
    if books.len() == 0 {
        Seq::empty()
    } else {
        let before = without_identifier(books.drop_last(), identifier);
        if books.last().identifier@ == identifier {
            before
        } else {
            before.push(books.last())
        }
    }
}

/// The books that a scan loaded, in scan order; where two files gave the same
/// identifier, only the later one stands.
pub open spec fn staged_books(loads: Seq<LoadOutcome>) -> Seq<BookxBook>
    decreases loads.len(),
{
    if loads.len() == 0 {
        Seq::empty()
    } else {
        let before = staged_books(loads.drop_last());
        match loads.last().result {
            Ok(book) => without_identifier(before, book.identifier@).push(book),
            Err(_) => before,
        }
    }
}

/// No two books carry the same identifier.
pub open spec fn unique_identifiers(books: Seq<BookxBook>) -> bool {
    forall|i: int, j: int|
        0 <= i < j < books.len() ==> books[i].identifier@ != books[j].identifier@
}

/// The ticket after `ticket`.
pub open spec fn next_ticket(ticket: u64) -> u64 {
    if ticket == u64::MAX {
        0
    } else {
        (ticket + 1) as u64
    }
}

/// The reason for which a scan that loaded no book leaves the library without
/// content.
pub open spec fn no_content_reason(outcome: Result<ScanOutcome, ScanIoError>) -> Seq<char> {
    match outcome {
        Err(error) => unreadable_notice(error.folder@),
        Ok(scan) => if scan.loads@.len() == 0 {
            empty_folder_notice()
        } else {
            no_readable_notice()
        },
    }
}

/// The books that the outcome of a scan puts into the library.
pub open spec fn books_of(outcome: Result<ScanOutcome, ScanIoError>) -> Seq<BookxBook> {
    match outcome {
        Err(_) => Seq::empty(),
        Ok(scan) => staged_books(scan.loads@),
    }
}

/// The notifications that the outcome of a scan gives rise to: one for each file
/// passed over, one for each failed load, and the reason if no book was loaded.
pub open spec fn notices_of(outcome: Result<ScanOutcome, ScanIoError>) -> Seq<Seq<char>> {
    let finding: Seq<Seq<char>> = match outcome {
        Err(_) => Seq::empty(),
        Ok(scan) => unsupported_notices(scan.unsupported@) + load_notices(scan.loads@),
    };
    if books_of(outcome).len() == 0 {
        finding.push(no_content_reason(outcome))
    } else {
        finding
    }
}

/// Every book that stays after removing an identifier was there before, in the same
/// order, and none of them carries the identifier.
pub proof fn lemma_without_identifier(books: Seq<BookxBook>, identifier: Seq<char>)
    ensures
        forall|i: int|
            0 <= i < without_identifier(books, identifier).len() ==> (#[trigger] without_identifier(
                books,
                identifier,
            )[i]).identifier@ != identifier,
        unique_identifiers(books) ==> unique_identifiers(without_identifier(books, identifier)),
        forall|i: int|
            0 <= i < without_identifier(books, identifier).len() ==> books.contains(
                #[trigger] without_identifier(books, identifier)[i],
            ),
        without_identifier(books, identifier).len() <= books.len(),
    decreases books.len(),
{
    if books.len() > 0 {
        let rest = books.drop_last();
        lemma_without_identifier(rest, identifier);
        let kept = without_identifier(rest, identifier);
        assert forall|i: int| 0 <= i < kept.len() implies books.contains(#[trigger] kept[i]) by {
            let k = choose|k: int| 0 <= k < rest.len() && rest[k] == kept[i];
            assert(books[k] == kept[i]);
        }
        if books.last().identifier@ != identifier {
            assert(books.contains(books.last())) by {
                assert(books[books.len() - 1] == books.last());
            }
            if unique_identifiers(books) {
                assert(unique_identifiers(rest));
                let out = kept.push(books.last());
                assert forall|i: int, j: int| 0 <= i < j < out.len() implies out[i].identifier@
                    != out[j].identifier@ by {
                    if j == out.len() - 1 {
                        let k = choose|k: int| 0 <= k < rest.len() && rest[k] == kept[i];
                        assert(books[k] == kept[i]);
                    }
                }
            }
        } else {
            if unique_identifiers(books) {
                assert(unique_identifiers(rest));
            }
        }
    }
}

/// The law of the collection: whatever a scan loaded, no two of the books it leaves
/// carry the same identifier.
pub proof fn lemma_staged_unique(loads: Seq<LoadOutcome>)
    ensures
        unique_identifiers(staged_books(loads)),
        staged_books(loads).len() <= loads.len(),
    decreases loads.len(),
{
    if loads.len() > 0 {
        lemma_staged_unique(loads.drop_last());
        let before = staged_books(loads.drop_last());
        match loads.last().result {
            Ok(book) => {
                lemma_without_identifier(before, book.identifier@);
            },
            Err(_) => {},
        }
    }
}

/// The law of the winner: a book that loaded stands in the collection unless a
/// later file of the scan gave the same identifier, and then that later book stands.
pub proof fn lemma_later_wins(loads: Seq<LoadOutcome>, i: int)
    requires
        0 <= i < loads.len(),
        loads[i].result is Ok,
    ensures
        exists|k: int|
            i <= k < loads.len() && loads[k].result is Ok && (loads[k].result->Ok_0).identifier@ == (
            loads[i].result->Ok_0).identifier@ && staged_books(loads).contains(
                #[trigger] loads[k].result->Ok_0,
            ) && forall|m: int|
                k < m < loads.len() && loads[m].result is Ok ==> (loads[m].result->Ok_0).identifier@
                    != (loads[i].result->Ok_0).identifier@,
    decreases loads.len(),
{
    let n = loads.len() - 1;
    let rest = loads.drop_last();
    let staged = staged_books(loads);
    let identifier = (loads[i].result->Ok_0).identifier@;
    match loads.last().result {
        Ok(book) => {
            if book.identifier@ == identifier {
                assert(staged[staged.len() - 1] == book);
                assert(staged.contains(loads[n].result->Ok_0));
            } else {
                assert(i < n);
                lemma_later_wins(rest, i);
                let k = choose|k: int|
                    i <= k < rest.len() && rest[k].result is Ok && (rest[k].result->Ok_0).identifier@
                        == identifier && staged_books(rest).contains(
                        #[trigger] rest[k].result->Ok_0,
                    ) && forall|m: int|
                        k < m < rest.len() && rest[m].result is Ok ==> (
                        rest[m].result->Ok_0).identifier@ != identifier;
                lemma_kept_stays(staged_books(rest), book.identifier@, rest[k].result->Ok_0);
                let kept = without_identifier(staged_books(rest), book.identifier@);
                let at = choose|at: int| 0 <= at < kept.len() && kept[at] == rest[k].result->Ok_0;
                assert(staged[at] == rest[k].result->Ok_0);
                assert(staged.contains(loads[k].result->Ok_0));
                assert forall|m: int| k < m < loads.len() && loads[m].result is Ok implies (
                loads[m].result->Ok_0).identifier@ != identifier by {
                    if m < n {
                        assert(rest[m] == loads[m]);
                    }
                }
            }
        },
        Err(_) => {
            assert(i < n);
            lemma_later_wins(rest, i);
            let k = choose|k: int|
                i <= k < rest.len() && rest[k].result is Ok && (rest[k].result->Ok_0).identifier@
                    == identifier && staged_books(rest).contains(#[trigger] rest[k].result->Ok_0)
                    && forall|m: int|
                    k < m < rest.len() && rest[m].result is Ok ==> (
                    rest[m].result->Ok_0).identifier@ != identifier;
            assert(staged.contains(loads[k].result->Ok_0));
            assert forall|m: int| k < m < loads.len() && loads[m].result is Ok implies (
            loads[m].result->Ok_0).identifier@ != identifier by {
                if m < n {
                    assert(rest[m] == loads[m]);
                }
            }
        },
    }
}

/// A book with another identifier stays where an identifier is removed.
pub proof fn lemma_kept_stays(books: Seq<BookxBook>, identifier: Seq<char>, book: BookxBook)
    requires
        books.contains(book),
        book.identifier@ != identifier,
    ensures
        without_identifier(books, identifier).contains(book),
    decreases books.len(),
{
    let rest = books.drop_last();
    let at = choose|at: int| 0 <= at < books.len() && books[at] == book;
    if at == books.len() - 1 {
        let out = without_identifier(books, identifier);
        assert(out[out.len() - 1] == book);
    } else {
        assert(rest[at] == book);
        lemma_kept_stays(rest, identifier, book);
        let kept = without_identifier(rest, identifier);
        let k = choose|k: int| 0 <= k < kept.len() && kept[k] == book;
        let out = without_identifier(books, identifier);
        assert(out[k] == book);
    }
}

/// Builds the notification for a file whose content type is not accepted.
pub fn unsupported_notification(path: &str) -> (notice: String)
    ensures
        notice@ == unsupported_notice(path@),
{
    path.to_owned().concat(" is not supported by Bookx")
}

/// Builds the notification for a file that failed to load.
pub fn failure_notification(path: &str, error: BookxBookError) -> (notice: String)
    ensures
        notice@ == failure_notice(path@, error),
{
    let suffix: &str = match error {
        BookxBookError::FormatNotSupportError => {
            return unsupported_notification(path);
        },
        BookxBookError::DocError(DocErrorKind::ArchiveError) => ". ArchiveError occurred.",
        BookxBookError::DocError(DocErrorKind::XmlError) => ". XmlError occurred.",
        BookxBookError::DocError(DocErrorKind::IOError) => ". IOError occurred.",
        BookxBookError::DocError(DocErrorKind::InvalidEpub) => ". InvalidEpub error occurred.",
        BookxBookError::NoCover => ". NoCover error occurred.",
    };
    String::from_str("Bookx failed to load ").concat(path).concat(suffix)
}

/// Removes the books that carry the given identifier.
pub fn remove_identifier(books: Vec<BookxBook>, identifier: &str) -> (kept: Vec<BookxBook>)
    ensures
        kept@ == without_identifier(books@, identifier@),
{
    let mut kept: Vec<BookxBook> = Vec::new();
    let ghost all = books@;
    for book in it: books.into_iter()
        invariant
            it.seq() == all,
            kept@ == without_identifier(all.take(it.index() as int), identifier@),
    {
        assert(all.take(it.index() + 1).drop_last() =~= all.take(it.index() as int));
        if !same_text(book.identifier.as_str(), identifier) {
            kept.push(book);
        }
    }
    assert(all.take(all.len() as int) =~= all);
    kept
}

/// Builds one notification for each file that was passed over.
pub fn unsupported_notifications(paths: &Vec<String>) -> (notices: Vec<String>)
    ensures
        texts(notices@) == unsupported_notices(paths@),
{
    let mut notices: Vec<String> = Vec::new();
    let mut i: usize = 0;
    while i < paths.len()
        invariant
            i <= paths.len(),
            texts(notices@) == unsupported_notices(paths@.take(i as int)),
        decreases paths.len() - i,
    {
        let notice = unsupported_notification(paths[i].as_str());
        let ghost before = texts(notices@);
        notices.push(notice);
        assert(texts(notices@) =~= before.push(notice@));
        assert(unsupported_notices(paths@.take(i + 1)) =~= unsupported_notices(
            paths@.take(i as int),
        ).push(unsupported_notice(paths@[i as int]@)));
        i += 1;
    }
    assert(paths@.take(paths.len() as int) =~= paths@);
    notices
}

/// The library of books found below the configured folder.
#[derive(Debug)]
pub struct BookxLibrary {
    books: Vec<BookxBook>,
    status: BookxLibraryStatus,
    folder: String,
    reason: String,
    ticket: u64,
}

impl BookxLibrary {
    /// The books of the collection, in scan order.
    pub closed spec fn spec_books(&self) -> Seq<BookxBook> {
        self.books@
    }

    /// The status.
    pub closed spec fn spec_status(&self) -> BookxLibraryStatus {
        self.status
    }

    /// The configured folder, empty where none is configured.
    pub closed spec fn spec_folder(&self) -> Seq<char> {
        self.folder@
    }

    /// Why the library is without content, where its status is `Error`.
    pub closed spec fn spec_reason(&self) -> Seq<char> {
        self.reason@
    }

    /// The ticket of the latest scan.
    pub closed spec fn spec_ticket(&self) -> u64 {
        self.ticket
    }

    /// What holds of every library: it has content exactly where its status says so
    /// unless a scan is in flight, no two of its books share an identifier, and it has
    /// a folder exactly where its status is not `Null`.
    pub open spec fn wf(&self) -> bool {
        &&& self.spec_status() == BookxLibraryStatus::Content ==> self.spec_books().len() > 0
        &&& self.spec_status() == BookxLibraryStatus::Error ==> self.spec_books().len() == 0
        &&& self.spec_status() == BookxLibraryStatus::Null ==> self.spec_books().len() == 0
        &&& unique_identifiers(self.spec_books())
        &&& (self.spec_status() == BookxLibraryStatus::Null) == (self.spec_folder().len() == 0)
    }

    /// Whether a scan of the given folder is in flight.
    pub open spec fn is_scanning(&self, folder: Seq<char>) -> bool {
        self.spec_status() == BookxLibraryStatus::Loading && self.spec_folder() == folder
    }

    /// Whether an outcome handed in under `ticket` belongs to the scan in flight.
    pub open spec fn accepts(&self, ticket: u64) -> bool {
        self.spec_status() == BookxLibraryStatus::Loading && ticket == self.spec_ticket()
    }

    /// A library without a folder.
    pub fn new() -> (library: BookxLibrary)
        ensures
            library.wf(),
            library.spec_status() == BookxLibraryStatus::Null,
            library.spec_books().len() == 0,
            library.spec_folder().len() == 0,
            library.spec_reason().len() == 0,
            library.spec_ticket() == 0,
    {
        BookxLibrary {
            books: Vec::new(),
            status: BookxLibraryStatus::Null,
            folder: String::new(),
            reason: String::new(),
            ticket: 0,
        }
    }

    /// The status.
    pub fn status(&self) -> (status: BookxLibraryStatus)
        ensures
            status == self.spec_status(),
    {
        self.status
    }

    /// The books of the collection, in scan order.
    pub fn books(&self) -> (books: &Vec<BookxBook>)
        ensures
            books@ == self.spec_books(),
    {
        &self.books
    }

    /// The configured folder, empty where none is configured.
    pub fn folder(&self) -> (folder: &String)
        ensures
            folder@ == self.spec_folder(),
    {
        &self.folder
    }

    /// Why the library is without content.
    pub fn reason(&self) -> (reason: &String)
        ensures
            reason@ == self.spec_reason(),
    {
        &self.reason
    }

    /// Takes the configured folder and starts a refresh.
    ///
    /// Without a folder the library becomes `Null` and empty, and a scan in flight is
    /// cut off. A request for the folder that is being scanned is refused as busy and
    /// changes nothing. Any other request starts a scan under a new ticket, which cuts
    /// off a scan of another folder that is in flight; the collection stays as it is
    /// until the scan is finished.
    pub fn refresh_data(&mut self, books_dir: &str) -> (refresh: Refresh)
        requires
            old(self).wf(),
        ensures
            final(self).wf(),
            books_dir@.len() == 0 ==> {
                &&& refresh matches Refresh::NoFolder { notification }
                &&& notification@ == no_folder_notice()
                &&& final(self).spec_status() == BookxLibraryStatus::Null
                &&& final(self).spec_books().len() == 0
                &&& final(self).spec_folder().len() == 0
                &&& final(self).spec_reason().len() == 0
                &&& final(self).spec_ticket() == next_ticket(old(self).spec_ticket())
            },
            books_dir@.len() > 0 && old(self).is_scanning(books_dir@) ==> {
                &&& refresh == Refresh::Busy
                &&& final(self).spec_status() == old(self).spec_status()
                &&& final(self).spec_books() == old(self).spec_books()
                &&& final(self).spec_folder() == old(self).spec_folder()
                &&& final(self).spec_reason() == old(self).spec_reason()
                &&& final(self).spec_ticket() == old(self).spec_ticket()
            },
            books_dir@.len() > 0 && !old(self).is_scanning(books_dir@) ==> {
                &&& refresh matches Refresh::Scan { folder, ticket }
                &&& folder@ == books_dir@
                &&& ticket == next_ticket(old(self).spec_ticket())
                &&& final(self).spec_status() == BookxLibraryStatus::Loading
                &&& final(self).spec_books() == old(self).spec_books()
                &&& final(self).spec_folder() == books_dir@
                &&& final(self).spec_reason().len() == 0
                &&& final(self).spec_ticket() == ticket
            },
    {
        if books_dir.is_empty() {
            self.books = Vec::new();
            self.status = BookxLibraryStatus::Null;
            self.folder = String::new();
            self.reason = String::new();
            self.ticket = BookxLibrary::ticket_after(self.ticket);
            return Refresh::NoFolder {
                notification: String::from_str(
                    "Books Directory string is empty. Set it to an existing path in Preferences.",
                ),
            };
        }
        let loading = match self.status {
            BookxLibraryStatus::Loading => true,
            _ => false,
        };
        if loading && same_text(self.folder.as_str(), books_dir) {
            return Refresh::Busy;
        }
        self.status = BookxLibraryStatus::Loading;
        self.folder = books_dir.to_owned();
        self.reason = String::new();
        self.ticket = BookxLibrary::ticket_after(self.ticket);
        Refresh::Scan { folder: books_dir.to_owned(), ticket: self.ticket }
    }

    /// The ticket after `ticket`.
    pub fn ticket_after(ticket: u64) -> (next: u64)
        ensures
            next == next_ticket(ticket),
    {
        if ticket == u64::MAX {
            0
        } else {
            ticket + 1
        }
    }

    /// Takes the outcome of the scan that was started under `ticket` and ends the
    /// refresh.
    ///
    /// An outcome under a ticket that is not current is discarded and changes
    /// nothing. Otherwise the collection is replaced in one step by the books that
    /// loaded (see [`staged_books`]): with at least one book the status becomes
    /// `Content`, with none it becomes `Error`, the collection is empty and the reason
    /// is kept. The report lists one notification for each file passed over, one for
    /// each failed load, and the reason where there is no content.
    pub fn finish_refresh(&mut self, ticket: u64, outcome: Result<ScanOutcome, ScanIoError>) -> (report:
        RefreshReport)
        requires
            old(self).wf(),
        ensures
            final(self).wf(),
            final(self).spec_folder() == old(self).spec_folder(),
            final(self).spec_ticket() == old(self).spec_ticket(),
            !old(self).accepts(ticket) ==> {
                &&& report.end == RefreshEnd::Discarded
                &&& report.notifications@.len() == 0
                &&& final(self).spec_status() == old(self).spec_status()
                &&& final(self).spec_books() == old(self).spec_books()
                &&& final(self).spec_reason() == old(self).spec_reason()
            },
            old(self).accepts(ticket) ==> {
                &&& final(self).spec_books() == books_of(outcome)
                &&& texts(report.notifications@) == notices_of(outcome)
            },
            old(self).accepts(ticket) && books_of(outcome).len() > 0 ==> {
                &&& report.end == RefreshEnd::Content
                &&& final(self).spec_status() == BookxLibraryStatus::Content
                &&& final(self).spec_reason().len() == 0
            },
            old(self).accepts(ticket) && books_of(outcome).len() == 0 ==> {
                &&& report.end matches RefreshEnd::NoContent(error)
                &&& error.details@ == no_content_reason(outcome)
                &&& final(self).spec_status() == BookxLibraryStatus::Error
                &&& final(self).spec_reason() == no_content_reason(outcome)
            },
    {
        let loading = match self.status {
            BookxLibraryStatus::Loading => true,
            _ => false,
        };
        if !loading || ticket != self.ticket {
            return RefreshReport { notifications: Vec::new(), end: RefreshEnd::Discarded };
        }
        let ghost given = outcome;
        let mut notifications: Vec<String> = Vec::new();
        let mut staged: Vec<BookxBook> = Vec::new();
        let reason: String;
        match outcome {
            Err(error) => {
                reason = String::from_str("Could not read the folder ").concat(
                    error.folder.as_str(),
                );
                assert(texts(notifications@) =~= Seq::<Seq<char>>::empty());
            },
            Ok(scan) => {
                let ScanOutcome { unsupported, loads } = scan;
                notifications = unsupported_notifications(&unsupported);
                let any = loads.len() > 0;
                let ghost all = loads@;
                let ghost first = texts(notifications@);
                for load in it: loads.into_iter()
                    invariant
                        it.seq() == all,
                        staged@ == staged_books(all.take(it.index() as int)),
                        texts(notifications@) == first + load_notices(all.take(it.index() as int)),
                {
                    assert(all.take(it.index() + 1).drop_last() =~= all.take(it.index() as int));
                    let LoadOutcome { path, result } = load;
                    match result {
                        Ok(book) => {
                            staged = remove_identifier(staged, book.identifier.as_str());
                            staged.push(book);
                        },
                        Err(error) => {
                            let notice = failure_notification(path.as_str(), error);
                            let ghost before = texts(notifications@);
                            notifications.push(notice);
                            assert(texts(notifications@) =~= before.push(notice@));
                            assert(texts(notifications@) =~= first + load_notices(
                                all.take(it.index() + 1),
                            ));
                        },
                    }
                }
                assert(all.take(all.len() as int) =~= all);
                reason = if any {
                    String::from_str("Library has no readable Books.")
                } else {
                    String::from_str("Could not find any books in the current directory")
                };
                proof {
                    lemma_staged_unique(all);
                }
            },
        }
        if staged.len() > 0 {
            self.books = staged;
            self.status = BookxLibraryStatus::Content;
            self.reason = String::new();
            RefreshReport { notifications, end: RefreshEnd::Content }
        } else {
            self.books = staged;
            self.status = BookxLibraryStatus::Error;
            self.reason = reason.clone();
            let ghost before = texts(notifications@);
            notifications.push(reason.clone());
            assert(texts(notifications@) =~= before.push(reason@));
            RefreshReport {
                notifications,
                end: RefreshEnd::NoContent(BookxLibraryError { details: reason }),
            }
        }
    }
}

} // verus!
