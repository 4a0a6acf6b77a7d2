//! The ebook formats that Bookx accepts, told apart by MIME type.

use vstd::prelude::*;
use crate::text::same_text;

verus! {

/// The MIME type of EPUB containers.
pub open spec fn epub_mime() -> Seq<char> {
    "application/epub+zip"@
}

/// What follows the offending MIME type in the message of a [`FormatNotSupportedError`].
pub open spec fn not_supported_suffix() -> Seq<char> {
    " is not supported format for book"@
}

/// A MIME type that names no format Bookx can open.
#[derive(Debug, PartialEq, Eq)]
pub struct FormatNotSupportedError {
    pub details: String,
}

impl FormatNotSupportedError {
    /// An error whose message is `msg`.
    pub fn new(msg: &str) -> (e: FormatNotSupportedError)
        ensures
            e.details@ == msg@,
    {
        FormatNotSupportedError { details: msg.to_owned() }
    }

    /// The message, as `Display` would print it.
    pub fn to_string(&self) -> (s: String)
        ensures
            s@ == self.details@,
    {
        self.details.as_str().to_owned()
    }
}

/// Formats that are accepted as ebooks.
#[allow(clippy::upper_case_acronyms)]
#[derive(Debug, Clone, Copy, PartialEq, Eq, Structural)]
pub enum Format {
    EPUB,
}

impl Default for Format {
    fn default() -> (f: Format)
        ensures
            f == Format::EPUB,
    {
        Format::EPUB
    }
}

impl Format {
    /// The MIME type of the format.
    pub open spec fn mime(self) -> Seq<char> {
        match self {
            Format::EPUB => epub_mime(),
        }
    }

    /// The format that `mime` names, if it names one.
    pub open spec fn of_mime(mime: Seq<char>) -> Option<Format> {
        if mime == epub_mime() {
            Some(Format::EPUB)
        } else {
            None
        }
    }

    /// Every accepted format, each once.
    pub fn iterator() -> (all: Vec<Format>)
        ensures
            all@ == seq![Format::EPUB],
    {
        vec![Format::EPUB]
    }

    /// The format named by a MIME type; any other MIME type is refused with a message
    /// that quotes it.
    pub fn from_str(mime: &str) -> (r: Result<Format, FormatNotSupportedError>)
        ensures
            match r {
                Ok(f) => Format::of_mime(mime@) == Some(f),
                Err(e) => Format::of_mime(mime@) is None && e.details@ == mime@
                    + not_supported_suffix(),
            },
    {
        if is_ebook_mime(mime) {
            Ok(Format::EPUB)
        } else {
            let details = mime.to_owned().concat(" is not supported format for book");
            Err(FormatNotSupportedError { details })
        }
    }

    /// The MIME type of the format.
    pub fn get_mime(self) -> (mime: String)
        ensures
            mime@ == self.mime(),
    {
        match self {
            Format::EPUB => String::from_str("application/epub+zip"),
        }
    }

    /// Formats whose books take annotations without a warning.
    pub fn can_annotate() -> (formats: Vec<Format>)
        ensures
            formats@ == seq![Format::EPUB],
    {
        vec![Format::EPUB]
    }
}

/// Whether a sniffed content type is one of the accepted ebook formats.
pub fn is_ebook_mime(content_type: &str) -> (b: bool)
    ensures
        b == (Format::of_mime(content_type@) is Some),
{
    same_text(content_type, "application/epub+zip")
}

/// Kinds of ebook that the folder scanner looks for.
#[derive(Debug, Clone, Copy, PartialEq, Eq, Structural)]
pub enum EBook {
    Epub,
}

/// The MIME type by which an ebook of the given kind is recognised.
pub fn get_ebook_mime(ebook: EBook) -> (mime: String)
    ensures
        mime@ == epub_mime(),
{
    match ebook {
        EBook::Epub => String::from_str("application/epub+zip"),
    }
}

} // verus!
