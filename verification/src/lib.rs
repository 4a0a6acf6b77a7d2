//! Bookx core: the folder scanner, the book loader, the per-book JSON store and the
//! library state machine of an EPUB library manager, free of any I/O.
//!
//! Every function takes and returns plain values; reading directories, files and
//! modification times is left to the caller, which feeds what it read into the
//! functions of this crate and carries out what they ask for.
//!
//! - [`utils`] and [`order`]: from an enumerated folder to the ordered list of the
//!   ebooks below it.
//! - [`book`]: the record of a book, built from what its EPUB container holds.
//! - [`library`]: the collection of books and its status, driven by refreshes.
//! - [`storage`] and [`json`]: the store of named JSON properties of one book.
//! - [`reading`]: a book in the reader, with its bookmarks and annotations.
//! - [`book_image`], [`paths`], [`format`], [`settings`], [`text`]: cover cache,
//!   file names, accepted formats, settings keys and string helpers.

pub mod book;
pub mod book_image;
pub mod format;
pub mod json;
pub mod library;
pub mod order;
pub mod paths;
pub mod reading;
pub mod settings;
pub mod storage;
pub mod text;
pub mod utils;
