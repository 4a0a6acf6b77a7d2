//! The record of one book and the loader that builds it from what an EPUB container
//! holds.

use vstd::prelude::*;
use epub::doc::DocError;
use crate::format::Format;
use crate::paths::UserDirs;
use crate::paths::get_path;
use crate::paths::stored_path;
use crate::text::same_text;

verus! {

/// Why an EPUB container could not be opened.
#[derive(Debug, Clone, Copy, PartialEq, Eq, Structural)]
pub enum DocErrorKind {
    /// The zip archive is broken.
    ArchiveError,
    /// The package document is not well-formed XML.
    XmlError,
    /// The file could not be read.
    IOError,
    /// The archive is readable but does not hold what an EPUB must hold.
    InvalidEpub,
}

/// `epub::doc::DocError`, the error with which the `epub` crate fails to open a
/// container. Nothing inside it is visible to the proofs.
#[verifier::external_type_specification]
#[verifier::external_body]
pub struct ExDocError(DocError);

/// The kind of an error of the `epub` crate: the variant of `DocError` that it is.
pub uninterp spec fn doc_error_kind(error: DocError) -> DocErrorKind;

/// Tells the variants of `epub::doc::DocError` apart: `ArchiveError`, `XmlError`,
/// `IOError` and `InvalidEpub` each give the kind of the same name.
#[verifier::external_body]
pub(crate) fn kind_of(error: &DocError) -> (kind: DocErrorKind)
    ensures
        kind == doc_error_kind(*error),
{
    match error {
        DocError::ArchiveError(_) => DocErrorKind::ArchiveError,
        DocError::XmlError(_) => DocErrorKind::XmlError,
        DocError::IOError(_) => DocErrorKind::IOError,
        DocError::InvalidEpub => DocErrorKind::InvalidEpub,
    }
}

/// Why a file did not become a book.
#[derive(Debug, Clone, Copy, PartialEq, Eq, Structural)]
pub enum BookxBookError {
    /// The content type of the file is not an accepted ebook format.
    FormatNotSupportError,
    /// The container could not be opened, or lacks a title.
    DocError(DocErrorKind),
    /// The container embeds no cover image.
    NoCover,
}

impl BookxBookError {
    /// The error of a container that the `epub` crate could not open.
    pub fn from_doc_error(error: &DocError) -> (e: BookxBookError)
        ensures
            e == BookxBookError::DocError(doc_error_kind(*error)),
    {
        BookxBookError::DocError(kind_of(error))
    }
}

/// One entry of the metadata of an EPUB package: a property and its value.
#[derive(Debug, PartialEq, Eq)]
pub struct MetadataItem {
    pub property: String,
    pub value: String,
}

/// What was read out of an opened EPUB container: its metadata in document order,
/// and the bytes of the embedded cover image if there is one.
#[derive(Debug, PartialEq, Eq)]
pub struct EpubContents {
    pub metadata: Vec<MetadataItem>,
    pub cover: Option<Vec<u8>>,
}

/// The record of a book in the library.
#[derive(Debug, PartialEq, Eq)]
pub struct BookxBook {
    pub identifier: String,
    pub title: String,
    pub format: Format,
    pub path: String,
    pub author: String,
    pub publisher: String,
    pub language: String,
    pub cover_picture_path: String,
    pub has_annotations: bool,
    pub progress: i32,
}

/// A freshly loaded book together with the cover image that its container embeds.
#[derive(Debug, PartialEq, Eq)]
pub struct LoadedBook {
    pub book: BookxBook,
    pub cover: Vec<u8>,
}

/// What to do with the cover of a loaded book.
#[derive(Debug, Clone, Copy, PartialEq, Eq, Structural)]
pub enum CoverAction {
    /// A cover is cached already: leave the file alone.
    Keep,
    /// Create the parent directories and write the cover to its cache path.
    Write,
}

/// The progress of a book that was never opened.
pub const PROGRESS_PLACEHOLDER: i32 = 0;

/// The value of the first item with the given property.
pub open spec fn first_value(items: Seq<MetadataItem>, property: Seq<char>) -> Option<Seq<char>>
    decreases items.len(),
{
    if items.len() == 0 {
        None
    } else if items[0].property@ == property {
        Some(items[0].value@)
    } else {
        first_value(items.drop_first(), property)
    }
}

/// The values of all items with the given property, in document order.
pub open spec fn values_of(items: Seq<MetadataItem>, property: Seq<char>) -> Seq<Seq<char>>
    decreases items.len(),
{
    if items.len() == 0 {
        Seq::empty()
    } else if items.last().property@ == property {
        values_of(items.drop_last(), property).push(items.last().value@)
    } else {
        values_of(items.drop_last(), property)
    }
}

/// The parts with `separator` between each two of them.
pub open spec fn joined(parts: Seq<Seq<char>>, separator: Seq<char>) -> Seq<char>
    decreases parts.len(),
{
    if parts.len() == 0 {
        Seq::empty()
    } else if parts.len() == 1 {
        parts[0]
    } else {
        joined(parts.drop_last(), separator) + separator + parts.last()
    }
}

/// The upper-case form of a text, as `str::to_uppercase` computes it.
pub uninterp spec fn uppercase_of(text: Seq<char>) -> Seq<char>;

/// Calls `str::to_uppercase`, which maps each character to its upper-case form by
/// the Unicode tables that std carries. Nothing is claimed beyond the result being
/// that function of the text.
#[verifier::external_body]
pub(crate) fn to_uppercase(text: &str) -> (upper: String)
    ensures
        upper@ == uppercase_of(text@),
{
    text.to_uppercase()
}

/// The identifier of a book: the first `identifier` of its metadata, or else its
/// title.
pub open spec fn identifier_of(items: Seq<MetadataItem>, title: Seq<char>) -> Seq<char> {
    match first_value(items, "identifier"@) {
        Some(identifier) => identifier,
        None => title,
    }
}

/// The text of an optional value, empty where there is none.
pub open spec fn or_empty(value: Option<Seq<char>>) -> Seq<char> {
    match value {
        Some(text) => text,
        None => Seq::empty(),
    }
}

/// The language of a book in upper case, empty where the metadata name none.
pub open spec fn language_of(items: Seq<MetadataItem>) -> Seq<char> {
    match first_value(items, "language"@) {
        Some(language) => uppercase_of(language),
        None => Seq::empty(),
    }
}

/// Where the cover of the book with the given identifier is cached.
pub open spec fn cover_path_of(dirs: UserDirs, identifier: Seq<char>) -> Seq<char> {
    stored_path(dirs, "cache"@, identifier, "png"@)
}

/// Where the properties of the book with the given identifier are stored.
pub open spec fn data_path_of(dirs: UserDirs, identifier: Seq<char>) -> Seq<char> {
    stored_path(dirs, "data"@, identifier, "json"@)
}

/// Where what was computed for the book with the given identifier is cached.
pub open spec fn cache_path_of(dirs: UserDirs, identifier: Seq<char>) -> Seq<char> {
    stored_path(dirs, "cache"@, identifier, "json"@)
}

/// The error, if any, with which loading ends: an unsupported content type comes
/// first, then a container that did not open, then a missing title, then a missing
/// cover.
pub open spec fn load_error(
    mime_type: Seq<char>,
    opened: Result<EpubContents, DocError>,
) -> Option<BookxBookError> {
    if Format::of_mime(mime_type) is None {
        Some(BookxBookError::FormatNotSupportError)
    } else {
        match opened {
            Err(error) => Some(BookxBookError::DocError(doc_error_kind(error))),
            Ok(contents) => if first_value(contents.metadata@, "title"@) is None {
                Some(BookxBookError::DocError(DocErrorKind::InvalidEpub))
            } else if contents.cover is None {
                Some(BookxBookError::NoCover)
            } else {
                None
            },
        }
    }
}

/// Whether `book` is the record of the file at `path` with the given content type
/// and metadata.
pub open spec fn is_record_of(
    book: BookxBook,
    path: Seq<char>,
    mime_type: Seq<char>,
    items: Seq<MetadataItem>,
    dirs: UserDirs,
) -> bool {
    let title = or_empty(first_value(items, "title"@));
    &&& book.title@ == title
    &&& book.identifier@ == identifier_of(items, title)
    &&& Some(book.format) == Format::of_mime(mime_type)
    &&& book.path@ == path
    &&& book.author@ == joined(values_of(items, "creator"@), ", "@)
    &&& book.publisher@ == or_empty(first_value(items, "publisher"@))
    &&& book.language@ == language_of(items)
    &&& book.cover_picture_path@ == cover_path_of(dirs, book.identifier@)
    &&& !book.has_annotations
    &&& book.progress == PROGRESS_PLACEHOLDER
}

/// The percentage that `current` is of `total`, between 0 and 100; 0 where there is
/// no total.
pub open spec fn percentage(current: int, total: int) -> int {
    if total <= 0 || current <= 0 {
        0
    } else if current >= total {
        100
    } else {
        (current * 100) / total
    }
}

/// The percentage that `current` is of `total` (see [`percentage`]), computed
/// without leaving the range of the integers at hand.
pub fn percent_of(current: i128, total: i128) -> (percent: i128)
    ensures
        percent == percentage(current as int, total as int),
        0 <= percent <= 100,
{
    if total <= 0 || current <= 0 {
        return 0;
    }
    if current >= total {
        return 100;
    }
    let mut rest: i128 = 0;
    let mut percent: i128 = 0;
    let mut k: u8 = 0;
    assert(0 * current == percent * total + rest) by (nonlinear_arith)
        requires
            percent == 0,
            rest == 0,
    ;
    while k < 100
        invariant
            0 < current < total,
            0 <= rest < total,
            0 <= percent <= k <= 100,
            k * current == percent * total + rest,
        decreases 100 - k,
    {
        let ghost before = percent * total + rest;
        if rest >= total - current {
            rest = rest - (total - current);
            assert((percent + 1) * total + rest == before + current) by (nonlinear_arith)
                requires
                    rest + total - current + percent * total == before,
            ;
            percent = percent + 1;
        } else {
            rest = rest + current;
        }
        assert((k + 1) * current == k * current + current) by (nonlinear_arith);
        k = k + 1;
    }
    proof {
        assert(100 * current == current * 100) by (nonlinear_arith);
        vstd::arithmetic::div_mod::lemma_fundamental_div_mod_converse(
            current * 100,
            total as int,
            percent as int,
            rest as int,
        );
    }
    percent
}

/// Looks up the first metadata item with the given property.
pub fn find_first(items: &Vec<MetadataItem>, property: &str) -> (found: Option<String>)
    ensures
        match found {
            Some(value) => first_value(items@, property@) == Some(value@),
            None => first_value(items@, property@) is None,
        },
{
    let mut i: usize = 0;
    assert(items@.skip(0) =~= items@);
    while i < items.len()
        invariant
            i <= items.len(),
            first_value(items@, property@) == first_value(items@.skip(i as int), property@),
        decreases items.len() - i,
    {
        if same_text(items[i].property.as_str(), property) {
            return Some(items[i].value.clone());
        }
        assert(items@.skip(i as int).drop_first() =~= items@.skip(i + 1));
        i += 1;
    }
    None
}

/// Joins the values of all metadata items with the given property.
pub fn join_values(items: &Vec<MetadataItem>, property: &str, separator: &str) -> (text: String)
    ensures
        text@ == joined(values_of(items@, property@), separator@),
{
    let mut text = String::new();
    let mut any = false;
    let mut i: usize = 0;
    while i < items.len()
        invariant
            i <= items.len(),
            any == (values_of(items@.take(i as int), property@).len() > 0),
            text@ == joined(values_of(items@.take(i as int), property@), separator@),
        decreases items.len() - i,
    {
        assert(items@.take(i + 1).drop_last() =~= items@.take(i as int));
        if same_text(items[i].property.as_str(), property) {
            let ghost before = values_of(items@.take(i as int), property@);
            let ghost after = before.push(items@[i as int].value@);
            assert(after.drop_last() =~= before);
            assert(after.last() == items@[i as int].value@);
            if any {
                text.append(separator);
            }
            text.append(items[i].value.as_str());
            any = true;
            assert(text@ =~= joined(after, separator@));
        }
        i += 1;
    }
    assert(items@.take(items.len() as int) =~= items@);
    text
}

impl BookxBook {
    /// Builds the record of the file at `path` from its sniffed content type and from
    /// what opening it as an EPUB container gave. It fails exactly where
    /// [`load_error`] names an error, and otherwise hands back the record (see
    /// [`is_record_of`]) with the embedded cover.
    pub fn load(
        path: String,
        mime_type: &str,
        opened: Result<EpubContents, DocError>,
        dirs: &UserDirs,
    ) -> (r: Result<LoadedBook, BookxBookError>)
        ensures
            match r {
                Err(e) => load_error(mime_type@, opened) == Some(e),
                Ok(loaded) => load_error(mime_type@, opened) is None && is_record_of(
                    loaded.book,
                    path@,
                    mime_type@,
                    opened->Ok_0.metadata@,
                    *dirs,
                ) && Some(loaded.cover) == opened->Ok_0.cover,
            },
    {
        let format = match Format::from_str(mime_type) {
            Ok(format) => format,
            Err(_) => {
                return Err(BookxBookError::FormatNotSupportError);
            },
        };
        let contents = match opened {
            Ok(contents) => contents,
            Err(error) => {
                return Err(BookxBookError::from_doc_error(&error));
            },
        };
        let title = match find_first(&contents.metadata, "title") {
            Some(title) => title,
            None => {
                return Err(BookxBookError::DocError(DocErrorKind::InvalidEpub));
            },
        };
        let identifier = match find_first(&contents.metadata, "identifier") {
            Some(identifier) => identifier,
            None => title.clone(),
        };
        let author = join_values(&contents.metadata, "creator", ", ");
        let publisher = match find_first(&contents.metadata, "publisher") {
            Some(publisher) => publisher,
            None => String::new(),
        };
        let language = match find_first(&contents.metadata, "language") {
            Some(language) => to_uppercase(language.as_str()),
            None => String::new(),
        };
        let cover_picture_path = BookxBook::get_cover_picture_path(identifier.as_str(), dirs);
        let EpubContents { metadata: _, cover } = contents;
        let cover = match cover {
            Some(cover) => cover,
            None => {
                return Err(BookxBookError::NoCover);
            },
        };
        let book = BookxBook {
            identifier,
            title,
            format,
            path,
            author,
            publisher,
            language,
            cover_picture_path,
            has_annotations: false,
            progress: PROGRESS_PLACEHOLDER,
        };
        Ok(LoadedBook { book, cover })
    }

    /// Whether the book has annotations.
    pub fn has_annotations(&self) -> (b: bool)
        ensures
            b == self.has_annotations,
    {
        self.has_annotations
    }

    /// Records how far the book was read: `current` of `total`, as a percentage.
    pub fn set_progress(&mut self, current: i32, total: i32)
        ensures
            final(self).progress == percentage(current as int, total as int),
            0 <= final(self).progress <= 100,
            final(self).identifier == old(self).identifier,
            final(self).title == old(self).title,
            final(self).format == old(self).format,
            final(self).path == old(self).path,
            final(self).author == old(self).author,
            final(self).publisher == old(self).publisher,
            final(self).language == old(self).language,
            final(self).cover_picture_path == old(self).cover_picture_path,
            final(self).has_annotations == old(self).has_annotations,
    {
        self.progress = percent_of(current as i128, total as i128) as i32;
    }

    /// Where the properties of the book with the given identifier are stored.
    pub fn get_data_path(identifier: &str, dirs: &UserDirs) -> (path: String)
        ensures
            path@ == data_path_of(*dirs, identifier@),
    {
        get_path("data", identifier, None, dirs)
    }

    /// Where the cover of the book with the given identifier is cached.
    pub fn get_cover_picture_path(identifier: &str, dirs: &UserDirs) -> (path: String)
        ensures
            path@ == cover_path_of(*dirs, identifier@),
    {
        get_path("cache", identifier, Some("png"), dirs)
    }
}

/// Decides what to do with the cover of a loaded book: it is written only where no
/// cover is cached for the book yet.
pub fn cover_action(cached: bool) -> (action: CoverAction)
    ensures
        action == (if cached {
            CoverAction::Keep
        } else {
            CoverAction::Write
        }),
{
    if cached {
        CoverAction::Keep
    } else {
        CoverAction::Write
    }
}

} // verus!
