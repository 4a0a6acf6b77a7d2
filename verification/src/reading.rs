//! A book as the reader holds it: its store of properties, its cache, its
//! bookmarks and its annotations.
//!
//! Whatever changes the store hands out the text of the document; the caller
//! writes it to the store's file and reports the write to the store.

use vstd::prelude::*;
use jsondata::Json;
use crate::book::cache_path_of;
use crate::book::cover_path_of;
use crate::book::data_path_of;
use crate::book::percent_of;
use crate::book::percentage;
use crate::format::Format;
use crate::json::integer;
use crate::json::json_is_error;
use crate::json::json_strings;
use crate::json::json_text;
use crate::json::render;
use crate::json::string_array;
use crate::paths::UserDirs;
use crate::paths::get_path;
use crate::storage::Storage;
use crate::storage::StorageError;
use crate::storage::after_clear;
use crate::storage::after_set;
use crate::storage::value_at;
use crate::text::decimal;
use crate::text::decimal_string;
use crate::text::same_text;
use crate::text::texts;

verus! {

/// The number of characters that make a page when the locations of a book are
/// computed; cached locations that were computed with another number are stale.
pub const CHARACTERS_PER_PAGE: i128 = 1024;

/// A place in a book that the reader marked, by its CFI.
#[derive(Debug, Clone, PartialEq, Eq)]
pub struct Bookmark {
    pub cfi: String,
}

impl Bookmark {
    /// The bookmark at the given place.
    pub fn new(cfi: String) -> (bookmark: Bookmark)
        ensures
            bookmark.cfi@ == cfi@,
    {
        Bookmark { cfi }
    }
}

/// A passage that the reader highlighted, by its CFI, with the text of the
/// passage, the colour of the highlight and the reader's note.
#[derive(Debug, Clone, PartialEq, Eq)]
pub struct BookAnnotation {
    pub cfi: String,
    pub text: String,
    pub color: String,
    pub note: String,
}

/// The mathematical content of a [`Book`].
pub struct BookView {
    pub identifier: Seq<char>,
    pub format: Format,
    pub uri: Seq<char>,
    pub cover_picture_path: Seq<char>,
    pub bookmarks: Seq<Seq<char>>,
    pub annotations: Seq<BookAnnotation>,
    pub storage: Storage,
    pub cache: Storage,
}

/// The places of a list of bookmarks.
pub open spec fn places(bookmarks: Seq<Bookmark>) -> Seq<Seq<char>> {
    bookmarks.map_values(|b: Bookmark| b.cfi@)
}

/// The places of a list of annotations.
pub open spec fn passages(annotations: Seq<BookAnnotation>) -> Seq<Seq<char>> {
    annotations.map_values(|a: BookAnnotation| a.cfi@)
}

/// No place occurs twice.
pub open spec fn no_repeat(places: Seq<Seq<char>>) -> bool {
    forall|i: int, j: int| 0 <= i < j < places.len() ==> places[i] != places[j]
}

/// The places without the given one.
pub open spec fn without(places: Seq<Seq<char>>, cfi: Seq<char>) -> Seq<Seq<char>>
    decreases places.len(),
{
    if places.len() == 0 {
        Seq::empty()
    } else if places.last() == cfi {
        without(places.drop_last(), cfi)
    } else {
        without(places.drop_last(), cfi).push(places.last())
    }
}

/// The annotations without those of the given passage.
pub open spec fn without_passage(annotations: Seq<BookAnnotation>, cfi: Seq<char>) -> Seq<
    BookAnnotation,
>
    decreases annotations.len(),
{
    if annotations.len() == 0 {
        Seq::empty()
    } else if annotations.last().cfi@ == cfi {
        without_passage(annotations.drop_last(), cfi)
    } else {
        without_passage(annotations.drop_last(), cfi).push(annotations.last())
    }
}

/// The index of the first annotation of the given passage.
pub open spec fn passage_index(annotations: Seq<BookAnnotation>, cfi: Seq<char>) -> Option<int>
    decreases annotations.len(),
{
    if annotations.len() == 0 {
        None
    } else {
        match passage_index(annotations.drop_last(), cfi) {
            Some(i) => Some(i),
            None => if annotations.last().cfi@ == cfi {
                Some(annotations.len() - 1)
            } else {
                None
            },
        }
    }
}

/// The percentage between 0 and 100, from `from` on, whose decimal form is `text`.
pub open spec fn percent_in(text: Seq<char>, from: int) -> Option<int>
    decreases 101 - from,
{
    if from < 0 || from > 100 {
        None
    } else if decimal(from) == text {
        Some(from)
    } else {
        percent_in(text, from + 1)
    }
}

/// How far a book was read, as it is shown: the stored percentage and a percent
/// sign, and `0%` where nothing between 0 and 100 is stored.
pub open spec fn progress_text(stored: Option<Seq<char>>) -> Seq<char> {
    match stored {
        Some(text) => match percent_in(text, 0) {
            Some(percent) => text + "%"@,
            None => "0%"@,
        },
        None => "0%"@,
    }
}

/// Removing a place leaves the others in order, none of them twice.
pub proof fn lemma_without(places: Seq<Seq<char>>, cfi: Seq<char>)
    ensures
        !without(places, cfi).contains(cfi),
        forall|i: int|
            0 <= i < without(places, cfi).len() ==> places.contains(
                #[trigger] without(places, cfi)[i],
            ),
        no_repeat(places) ==> no_repeat(without(places, cfi)),
        !places.contains(cfi) ==> without(places, cfi) == places,
    decreases places.len(),
{
    if places.len() > 0 {
        let rest = places.drop_last();
        lemma_without(rest, cfi);
        let kept = without(rest, cfi);
        assert forall|i: int| 0 <= i < kept.len() implies places.contains(#[trigger] kept[i]) by {
            let k = choose|k: int| 0 <= k < rest.len() && rest[k] == kept[i];
            assert(places[k] == kept[i]);
        }
        if places.last() != cfi {
            let out = kept.push(places.last());
            assert(places[places.len() - 1] == places.last());
            assert(!out.contains(cfi)) by {
                if out.contains(cfi) {
                    let k = choose|k: int| 0 <= k < out.len() && out[k] == cfi;
                    if k < kept.len() {
                        assert(kept[k] == cfi);
                        assert(kept.contains(cfi));
                    }
                }
            }
            if no_repeat(places) {
                assert(no_repeat(rest));
                assert forall|i: int, j: int| 0 <= i < j < out.len() implies out[i] != out[j] by {
                    if j == out.len() - 1 {
                        let k = choose|k: int| 0 <= k < rest.len() && rest[k] == kept[i];
                        assert(places[k] == kept[i]);
                    }
                }
            }
            if !places.contains(cfi) {
                assert(!rest.contains(cfi)) by {
                    if rest.contains(cfi) {
                        let k = choose|k: int| 0 <= k < rest.len() && rest[k] == cfi;
                        assert(places[k] == cfi);
                    }
                }
                assert(out =~= places);
            }
        } else {
            if no_repeat(places) {
                assert(no_repeat(rest));
            }
            assert(places[places.len() - 1] == cfi);
        }
    } else {
        assert(without(places, cfi) =~= places);
    }
}

/// Whether the list holds a bookmark at the given place.
pub fn holds_place(bookmarks: &Vec<Bookmark>, cfi: &str) -> (found: bool)
    ensures
        found == places(bookmarks@).contains(cfi@),
{
    let mut i: usize = 0;
    while i < bookmarks.len()
        invariant
            i <= bookmarks.len(),
            forall|k: int| 0 <= k < i ==> places(bookmarks@)[k] != cfi@,
        decreases bookmarks.len() - i,
    {
        if same_text(bookmarks[i].cfi.as_str(), cfi) {
            assert(places(bookmarks@)[i as int] == cfi@);
            return true;
        }
        i += 1;
    }
    false
}

/// The places of a list of bookmarks, as strings.
pub fn places_of(bookmarks: &Vec<Bookmark>) -> (cfis: Vec<String>)
    ensures
        texts(cfis@) == places(bookmarks@),
{
    let mut cfis: Vec<String> = Vec::new();
    let mut i: usize = 0;
    while i < bookmarks.len()
        invariant
            i <= bookmarks.len(),
            texts(cfis@) == places(bookmarks@.take(i as int)),
        decreases bookmarks.len() - i,
    {
        let cfi = bookmarks[i].cfi.clone();
        let ghost before = texts(cfis@);
        cfis.push(cfi);
        assert(texts(cfis@) =~= before.push(cfi@));
        assert(places(bookmarks@.take(i + 1)) =~= places(bookmarks@.take(i as int)).push(
            bookmarks@[i as int].cfi@,
        ));
        i += 1;
    }
    assert(bookmarks@.take(bookmarks.len() as int) =~= bookmarks@);
    cfis
}

/// The places of a list of annotations, as strings.
pub fn passages_of(annotations: &Vec<BookAnnotation>) -> (cfis: Vec<String>)
    ensures
        texts(cfis@) == passages(annotations@),
{
    let mut cfis: Vec<String> = Vec::new();
    let mut i: usize = 0;
    while i < annotations.len()
        invariant
            i <= annotations.len(),
            texts(cfis@) == passages(annotations@.take(i as int)),
        decreases annotations.len() - i,
    {
        let cfi = annotations[i].cfi.clone();
        let ghost before = texts(cfis@);
        cfis.push(cfi);
        assert(texts(cfis@) =~= before.push(cfi@));
        assert(passages(annotations@.take(i + 1)) =~= passages(annotations@.take(i as int)).push(
            annotations@[i as int].cfi@,
        ));
        i += 1;
    }
    assert(annotations@.take(annotations.len() as int) =~= annotations@);
    cfis
}

/// Removes the bookmarks at the given place.
pub fn remove_place(bookmarks: Vec<Bookmark>, cfi: &str) -> (kept: Vec<Bookmark>)
    ensures
        places(kept@) == without(places(bookmarks@), cfi@),
{
    let mut kept: Vec<Bookmark> = Vec::new();
    let ghost all = bookmarks@;
    assert(places(kept@) =~= without(places(all.take(0)), cfi@));
    for bookmark in it: bookmarks.into_iter()
        invariant
            it.seq() == all,
            places(kept@) == without(places(all.take(it.index() as int)), cfi@),
    {
        let ghost n = it.index() as int;
        assert(places(all.take(n + 1)).drop_last() =~= places(all.take(n)));
        assert(places(all.take(n + 1)).last() == bookmark.cfi@);
        if !same_text(bookmark.cfi.as_str(), cfi) {
            let ghost before = places(kept@);
            kept.push(bookmark);
            assert(places(kept@) =~= before.push(bookmark.cfi@));
        }
    }
    assert(all.take(all.len() as int) =~= all);
    kept
}

/// Removes the annotations of the given passage.
pub fn remove_passage(annotations: Vec<BookAnnotation>, cfi: &str) -> (kept: Vec<BookAnnotation>)
    ensures
        kept@ == without_passage(annotations@, cfi@),
{
    let mut kept: Vec<BookAnnotation> = Vec::new();
    let ghost all = annotations@;
    for annotation in it: annotations.into_iter()
        invariant
            it.seq() == all,
            kept@ == without_passage(all.take(it.index() as int), cfi@),
    {
        assert(all.take(it.index() + 1).drop_last() =~= all.take(it.index() as int));
        if !same_text(annotation.cfi.as_str(), cfi) {
            kept.push(annotation);
        }
    }
    assert(all.take(all.len() as int) =~= all);
    kept
}

/// Finds the first annotation of the given passage.
pub fn find_passage(annotations: &Vec<BookAnnotation>, cfi: &str) -> (found: Option<usize>)
    ensures
        match found {
            Some(i) => passage_index(annotations@, cfi@) == Some(i as int) && i < annotations.len()
                && annotations[i as int].cfi@ == cfi@,
            None => passage_index(annotations@, cfi@) is None,
        },
{
    let mut i: usize = 0;
    while i < annotations.len()
        invariant
            i <= annotations.len(),
            passage_index(annotations@.take(i as int), cfi@) is None,
        decreases annotations.len() - i,
    {
        assert(annotations@.take(i + 1).drop_last() =~= annotations@.take(i as int));
        if same_text(annotations[i].cfi.as_str(), cfi) {
            proof {
                lemma_passage_found(annotations@, i + 1, cfi@);
            }
            return Some(i);
        }
        i += 1;
    }
    assert(annotations@.take(annotations.len() as int) =~= annotations@);
    None
}

/// A passage that is found among the first annotations is found at the same place
/// among all of them.
pub proof fn lemma_passage_found(annotations: Seq<BookAnnotation>, n: int, cfi: Seq<char>)
    requires
        0 <= n <= annotations.len(),
        passage_index(annotations.take(n), cfi) is Some,
    ensures
        passage_index(annotations, cfi) == passage_index(annotations.take(n), cfi),
    decreases annotations.len() - n,
{
    if n < annotations.len() {
        assert(annotations.take(n + 1).drop_last() =~= annotations.take(n));
        lemma_passage_found(annotations, n + 1, cfi);
    } else {
        assert(annotations.take(n) =~= annotations);
    }
}

/// Reads a stored percentage: the number between 0 and 100 whose decimal form the
/// text is.
pub fn stored_percent(text: &str) -> (percent: Option<i128>)
    ensures
        match percent {
            Some(p) => percent_in(text@, 0) == Some(p as int),
            None => percent_in(text@, 0) is None,
        },
{
    let mut n: i128 = 0;
    while n <= 100
        invariant
            0 <= n <= 101,
            percent_in(text@, 0) == percent_in(text@, n as int),
        decreases 101 - n,
    {
        if same_text(decimal_string(n).as_str(), text) {
            return Some(n);
        }
        n = n + 1;
    }
    None
}

/// A book as the reader holds it.
#[derive(Debug)]
pub struct Book {
    identifier: String,
    format: Format,
    uri: String,
    storage: Storage,
    cache: Storage,
    cover_picture_path: String,
    annotations: Vec<BookAnnotation>,
    bookmarks: Vec<Bookmark>,
}

impl View for Book {
    type V = BookView;

    closed spec fn view(&self) -> BookView {
        BookView {
            identifier: self.identifier@,
            format: self.format,
            uri: self.uri@,
            cover_picture_path: self.cover_picture_path@,
            bookmarks: places(self.bookmarks@),
            annotations: self.annotations@,
            storage: self.storage,
            cache: self.cache,
        }
    }
}

impl Book {
    /// What holds of every book: its two stores are well-formed, no place is
    /// bookmarked twice and no passage is annotated twice.
    pub open spec fn wf(&self) -> bool {
        &&& self@.storage.wf()
        &&& self@.cache.wf()
        &&& no_repeat(self@.bookmarks)
        &&& no_repeat(passages(self@.annotations))
    }

    /// The book with the given identifier, format and location, with its store of
    /// properties and its cache as they were opened. It starts without bookmarks and
    /// annotations.
    pub fn new(
        identifier: String,
        format: Format,
        uri: String,
        storage: Storage,
        cache: Storage,
        dirs: &UserDirs,
    ) -> (book: Book)
        requires
            storage.wf(),
            cache.wf(),
        ensures
            book.wf(),
            book@ == (BookView {
                identifier: identifier@,
                format,
                uri: uri@,
                cover_picture_path: cover_path_of(*dirs, identifier@),
                bookmarks: Seq::empty(),
                annotations: Seq::empty(),
                storage,
                cache,
            }),
    {
        let cover_picture_path = Book::get_cover_path(identifier.as_str(), dirs);
        let book = Book {
            identifier,
            format,
            uri,
            storage,
            cache,
            cover_picture_path,
            annotations: Vec::new(),
            bookmarks: Vec::new(),
        };
        assert(book@.bookmarks =~= Seq::empty());
        assert(passages(book@.annotations) =~= Seq::empty());
        book
    }

    /// Forgets the bookmarks and annotations that the book holds in memory.
    pub fn load_data(&mut self)
        requires
            old(self).wf(),
        ensures
            final(self).wf(),
            final(self)@ == (BookView {
                bookmarks: Seq::empty(),
                annotations: Seq::empty(),
                ..old(self)@
            }),
    {
        self.annotations = Vec::new();
        self.bookmarks = Vec::new();
        assert(self@.bookmarks =~= Seq::empty());
        assert(passages(self@.annotations) =~= Seq::empty());
    }

    /// The identifier of the book.
    pub fn identifier(&self) -> (identifier: &String)
        ensures
            identifier@ == self@.identifier,
    {
        &self.identifier
    }

    /// The format of the book.
    pub fn format(&self) -> (format: Format)
        ensures
            format == self@.format,
    {
        self.format
    }

    /// Where the book is.
    pub fn uri(&self) -> (uri: &String)
        ensures
            uri@ == self@.uri,
    {
        &self.uri
    }

    /// Where the cover of the book is cached.
    pub fn cover_picture_path(&self) -> (path: &String)
        ensures
            path@ == self@.cover_picture_path,
    {
        &self.cover_picture_path
    }

    /// The store of the book's properties.
    pub fn storage(&self) -> (storage: &Storage)
        ensures
            *storage == self@.storage,
    {
        &self.storage
    }

    /// The cache of what was computed for the book.
    pub fn cache(&self) -> (cache: &Storage)
        ensures
            *cache == self@.cache,
    {
        &self.cache
    }

    /// The store of the book's properties, to report a write or to take over a
    /// change of its file.
    pub fn storage_mut(&mut self) -> (storage: &mut Storage)
        ensures
            *storage == old(self)@.storage,
            final(self)@ == (BookView { storage: *final(storage), ..old(self)@ }),
    {
        &mut self.storage
    }

    /// The cache of the book, to report a write or to take over a change of its file.
    pub fn cache_mut(&mut self) -> (cache: &mut Storage)
        ensures
            *cache == old(self)@.cache,
            final(self)@ == (BookView { cache: *final(cache), ..old(self)@ }),
    {
        &mut self.cache
    }

    /// The annotations of the book, in the order in which they were added.
    pub fn annotations_list(&self) -> (annotations: &Vec<BookAnnotation>)
        ensures
            annotations@ == self@.annotations,
    {
        &self.annotations
    }

    /// The bookmarks of the book, in the order in which they were added.
    pub fn bookmark_list(&self) -> (bookmarks: &Vec<Bookmark>)
        ensures
            places(bookmarks@) == self@.bookmarks,
    {
        &self.bookmarks
    }

    /// Whether the book has annotations.
    pub fn has_annotations(&self) -> (any: bool)
        ensures
            any == (self@.annotations.len() > 0),
    {
        self.annotations.len() > 0
    }

    /// The annotation of the given passage.
    pub fn get_annotations(&self, cfi: &str) -> (found: Option<&BookAnnotation>)
        ensures
            match found {
                Some(annotation) => passage_index(self@.annotations, cfi@) is Some
                    && *annotation == self@.annotations[passage_index(
                    self@.annotations,
                    cfi@,
                )->Some_0],
                None => passage_index(self@.annotations, cfi@) is None,
            },
    {
        match find_passage(&self.annotations, cfi) {
            Some(i) => Some(&self.annotations[i]),
            None => None,
        }
    }

    /// Whether the given place is bookmarked.
    pub fn has_bookmark(&self, cfi: &str) -> (found: bool)
        ensures
            found == self@.bookmarks.contains(cfi@),
    {
        holds_place(&self.bookmarks, cfi)
    }

    /// Adds an annotation. Where the passage is annotated already nothing changes,
    /// and the index of the annotation that stands is handed back for the caller to
    /// announce.
    pub fn add_annotation(&mut self, annotation: BookAnnotation) -> (standing: Option<usize>)
        requires
            old(self).wf(),
        ensures
            final(self).wf(),
            match standing {
                Some(i) => passage_index(old(self)@.annotations, annotation.cfi@) == Some(i as int)
                    && final(self)@ == old(self)@,
                None => {
                    &&& passage_index(old(self)@.annotations, annotation.cfi@) is None
                    &&& final(self)@ == (BookView {
                        annotations: old(self)@.annotations.push(annotation),
                        ..old(self)@
                    })
                },
            },
    {
        match find_passage(&self.annotations, annotation.cfi.as_str()) {
            Some(i) => Some(i),
            None => {
                proof {
                    lemma_passage_absent(self.annotations@, annotation.cfi@);
                }
                let ghost before = passages(self.annotations@);
                self.annotations.push(annotation);
                assert(passages(self.annotations@) =~= before.push(annotation.cfi@));
                None
            },
        }
    }

    /// Removes the annotation of the given passage, stores the passages that stay
    /// under `annotations` and hands out the text of the store.
    pub fn remove_annotation(&mut self, cfi: &str) -> (text: String)
        requires
            old(self).wf(),
        ensures
            final(self).wf(),
            final(self)@ == (BookView {
                annotations: without_passage(old(self)@.annotations, cfi@),
                storage: final(self)@.storage,
                ..old(self)@
            }),
            stored(
                old(self)@.storage,
                final(self)@.storage,
                "annotations"@,
                json_strings(passages(final(self)@.annotations)),
            ),
            text@ == final(self)@.storage.text(),
    {
        let mut annotations: Vec<BookAnnotation> = Vec::new();
        core::mem::swap(&mut self.annotations, &mut annotations);
        proof {
            lemma_without_passage(annotations@, cfi@);
            lemma_without(passages(annotations@), cfi@);
        }
        self.annotations = remove_passage(annotations, cfi);
        self.on_annotations_changed()
    }

    /// Stores the passages of the annotations under `annotations` and hands out the
    /// text of the store.
    pub fn on_annotations_changed(&mut self) -> (text: String)
        requires
            old(self).wf(),
        ensures
            final(self).wf(),
            final(self)@ == (BookView { storage: final(self)@.storage, ..old(self)@ }),
            stored(
                old(self)@.storage,
                final(self)@.storage,
                "annotations"@,
                json_strings(passages(old(self)@.annotations)),
            ),
            text@ == final(self)@.storage.text(),
    {
        let cfis = passages_of(&self.annotations);
        let value = string_array(&cfis);
        match self.storage.set("annotations", value) {
            Ok(text) => text,
            Err(_) => String::new(),
        }
    }

    /// Bookmarks a place; a place that is bookmarked already stays bookmarked once.
    /// Unless the bookmark is one that is being loaded (`init`), the places are stored
    /// under `bookmarks` and the text of the store is handed out.
    pub fn add_bookmark(&mut self, cfi: String, init: bool) -> (text: Option<String>)
        requires
            old(self).wf(),
        ensures
            final(self).wf(),
            final(self)@ == (BookView {
                bookmarks: if old(self)@.bookmarks.contains(cfi@) {
                    old(self)@.bookmarks
                } else {
                    old(self)@.bookmarks.push(cfi@)
                },
                storage: final(self)@.storage,
                ..old(self)@
            }),
            init ==> text is None && final(self)@.storage == old(self)@.storage,
            !init ==> text is Some && text->Some_0@ == final(self)@.storage.text() && stored(
                old(self)@.storage,
                final(self)@.storage,
                "bookmarks"@,
                json_strings(final(self)@.bookmarks),
            ),
    {
        if !holds_place(&self.bookmarks, cfi.as_str()) {
            let ghost before = places(self.bookmarks@);
            self.bookmarks.push(Bookmark::new(cfi));
            assert(places(self.bookmarks@) =~= before.push(cfi@));
        }
        if init {
            None
        } else {
            Some(self.on_bookmarks_changed())
        }
    }

    /// Removes the bookmark at the given place, stores the places that stay under
    /// `bookmarks` and hands out the text of the store.
    pub fn remove_bookmark(&mut self, cfi: &str) -> (text: String)
        requires
            old(self).wf(),
        ensures
            final(self).wf(),
            final(self)@ == (BookView {
                bookmarks: without(old(self)@.bookmarks, cfi@),
                storage: final(self)@.storage,
                ..old(self)@
            }),
            stored(
                old(self)@.storage,
                final(self)@.storage,
                "bookmarks"@,
                json_strings(final(self)@.bookmarks),
            ),
            text@ == final(self)@.storage.text(),
    {
        let mut bookmarks: Vec<Bookmark> = Vec::new();
        core::mem::swap(&mut self.bookmarks, &mut bookmarks);
        proof {
            lemma_without(places(bookmarks@), cfi@);
        }
        self.bookmarks = remove_place(bookmarks, cfi);
        self.on_bookmarks_changed()
    }

    /// Stores the bookmarked places under `bookmarks` and hands out the text of the
    /// store.
    pub fn on_bookmarks_changed(&mut self) -> (text: String)
        requires
            old(self).wf(),
        ensures
            final(self).wf(),
            final(self)@ == (BookView { storage: final(self)@.storage, ..old(self)@ }),
            stored(
                old(self)@.storage,
                final(self)@.storage,
                "bookmarks"@,
                json_strings(old(self)@.bookmarks),
            ),
            text@ == final(self)@.storage.text(),
    {
        let cfis = places_of(&self.bookmarks);
        let value = string_array(&cfis);
        match self.storage.set("bookmarks", value) {
            Ok(text) => text,
            Err(_) => String::new(),
        }
    }

    /// The place where the reader left the book, as JSON text; empty where none is
    /// stored.
    pub fn get_last_location(&self) -> (location: String)
        requires
            self.wf(),
        ensures
            location@ == match value_at(self@.storage.members(), "last_location"@) {
                Some(text) => text,
                None => Seq::empty(),
            },
    {
        match self.storage.get("last_location") {
            Some(location) => render(&location),
            None => String::new(),
        }
    }

    /// Stores the place where the reader left the book under `last_location` and
    /// hands out the text of the store. A value that is the error marker is refused
    /// and changes nothing.
    pub fn set_last_location(&mut self, location: Json) -> (r: Result<String, StorageError>)
        requires
            old(self).wf(),
        ensures
            final(self).wf(),
            set_in(old(self)@, final(self)@, "last_location"@, location, r),
    {
        self.storage.set("last_location", location)
    }

    /// Stores the metadata of the book under `metadata` and hands out the text of the
    /// store. A value that is the error marker is refused and changes nothing.
    pub fn set_metadata(&mut self, metadata: Json) -> (r: Result<String, StorageError>)
        requires
            old(self).wf(),
        ensures
            final(self).wf(),
            set_in(old(self)@, final(self)@, "metadata"@, metadata, r),
    {
        self.storage.set("metadata", metadata)
    }

    /// Stores how far the book was read, `current` of `total` as a whole percentage
    /// between 0 and 100, under `progress`, and hands out the text of the store.
    pub fn set_progress(&mut self, current: i128, total: i128) -> (text: String)
        requires
            old(self).wf(),
        ensures
            final(self).wf(),
            final(self)@ == (BookView { storage: final(self)@.storage, ..old(self)@ }),
            stored(
                old(self)@.storage,
                final(self)@.storage,
                "progress"@,
                decimal(percentage(current as int, total as int)),
            ),
            text@ == final(self)@.storage.text(),
    {
        let value = integer(percent_of(current, total));
        match self.storage.set("progress", value) {
            Ok(text) => text,
            Err(_) => String::new(),
        }
    }

    /// How far the book was read, as it is shown (see [`progress_text`]).
    pub fn get_progress(&self) -> (progress: String)
        requires
            self.wf(),
        ensures
            progress@ == progress_text(value_at(self@.storage.members(), "progress"@)),
    {
        match self.storage.get("progress") {
            Some(value) => {
                let text = render(&value);
                match stored_percent(text.as_str()) {
                    Some(_) => text.concat("%"),
                    None => String::from_str("0%"),
                }
            },
            None => String::from_str("0%"),
        }
    }

    /// The cached locations of the book, as long as they were computed with the
    /// number of characters per page that is in use.
    pub fn get_locations(&self) -> (locations: Option<Json>)
        requires
            self.wf(),
        ensures
            match locations {
                Some(found) => value_at(self@.cache.members(), "locations_chars"@) == Some(
                    decimal(CHARACTERS_PER_PAGE as int),
                ) && value_at(self@.cache.members(), "locations"@) == Some(json_text(found)),
                None => value_at(self@.cache.members(), "locations_chars"@) != Some(
                    decimal(CHARACTERS_PER_PAGE as int),
                ) || value_at(self@.cache.members(), "locations"@) is None,
            },
    {
        match self.cache.get("locations_chars") {
            Some(chars) => {
                let text = render(&chars);
                if same_text(text.as_str(), decimal_string(CHARACTERS_PER_PAGE).as_str()) {
                    self.cache.get("locations")
                } else {
                    None
                }
            },
            None => None,
        }
    }

    /// Caches the locations of the book under `locations`, with the number of
    /// characters per page under `locations_chars`, and hands out the text of the
    /// cache. A value that is the error marker is refused and changes nothing.
    pub fn set_locations(&mut self, locations: Json) -> (r: Result<String, StorageError>)
        requires
            old(self).wf(),
        ensures
            final(self).wf(),
            final(self)@ == (BookView { cache: final(self)@.cache, ..old(self)@ }),
            final(self)@.cache.spec_path() == old(self)@.cache.spec_path(),
            final(self)@.cache.spec_modified() == old(self)@.cache.spec_modified(),
            match r {
                Ok(text) => {
                    &&& !json_is_error(locations)
                    &&& final(self)@.cache.members() == after_set(
                        after_set(
                            old(self)@.cache.members(),
                            "locations_chars"@,
                            decimal(CHARACTERS_PER_PAGE as int),
                        ),
                        "locations"@,
                        json_text(locations),
                    )
                    &&& text@ == final(self)@.cache.text()
                },
                Err(e) => {
                    &&& json_is_error(locations)
                    &&& e == StorageError::InvalidValue
                    &&& final(self)@.cache.members() == old(self)@.cache.members()
                    &&& final(self)@.cache.text() == old(self)@.cache.text()
                },
            },
    {
        if crate::json::is_error(&locations) {
            return Err(StorageError::InvalidValue);
        }
        let chars = integer(CHARACTERS_PER_PAGE);
        match self.cache.set("locations_chars", chars) {
            Ok(_) => {},
            Err(_) => {},
        }
        self.cache.set("locations", locations)
    }

    /// Empties the cache of the book and hands out the files to delete: the file of
    /// the cache and the cached cover.
    pub fn clear_cache(&mut self) -> (files: Vec<String>)
        requires
            old(self).wf(),
        ensures
            final(self).wf(),
            final(self)@ == (BookView { cache: final(self)@.cache, ..old(self)@ }),
            final(self)@.cache.members() == after_clear(),
            final(self)@.cache.spec_path() == old(self)@.cache.spec_path(),
            final(self)@.cache.spec_modified() == 0,
            texts(files@) == seq![old(self)@.cache.spec_path(), old(self)@.cover_picture_path],
    {
        self.cache.clear();
        let files = vec![self.cache.path().clone(), self.cover_picture_path.clone()];
        assert(texts(files@) =~= seq![self@.cache.spec_path(), self@.cover_picture_path]);
        files
    }

    /// The text of the book's store of properties.
    pub fn get_data(&self) -> (text: String)
        ensures
            text@ == self@.storage.text(),
    {
        self.storage.to_text()
    }

    /// Where the properties of the book with the given identifier are stored.
    pub fn get_data_path(identifier: &str, dirs: &UserDirs) -> (path: String)
        ensures
            path@ == data_path_of(*dirs, identifier@),
    {
        get_path("data", identifier, None, dirs)
    }

    /// Where what was computed for the book with the given identifier is cached.
    pub fn get_cache_path(identifier: &str, dirs: &UserDirs) -> (path: String)
        ensures
            path@ == cache_path_of(*dirs, identifier@),
    {
        get_path("cache", identifier, None, dirs)
    }

    /// Where the cover of the book with the given identifier is cached.
    pub fn get_cover_path(identifier: &str, dirs: &UserDirs) -> (path: String)
        ensures
            path@ == cover_path_of(*dirs, identifier@),
    {
        get_path("cache", identifier, Some("png"), dirs)
    }
}

/// The store `after` is the store `before` with the property `key` set to the
/// value with the given text, and is otherwise the same.
pub open spec fn stored(before: Storage, after: Storage, key: Seq<char>, text: Seq<char>) -> bool {
    &&& after.members() == after_set(before.members(), key, text)
    &&& after.spec_path() == before.spec_path()
    &&& after.spec_modified() == before.spec_modified()
}

/// The book `after` is the book `before` after an attempt to set the property
/// `key` of its store to `value` that ended with `r`: done unless the value is the
/// error marker, and then with the text of the store.
pub open spec fn set_in(
    before: BookView,
    after: BookView,
    key: Seq<char>,
    value: Json,
    r: Result<String, StorageError>,
) -> bool {
    &&& after == (BookView { storage: after.storage, ..before })
    &&& after.storage.spec_path() == before.storage.spec_path()
    &&& after.storage.spec_modified() == before.storage.spec_modified()
    &&& match r {
        Ok(text) => {
            &&& !json_is_error(value)
            &&& after.storage.members() == after_set(
                before.storage.members(),
                key,
                json_text(value),
            )
            &&& text@ == after.storage.text()
        },
        Err(e) => {
            &&& json_is_error(value)
            &&& e == StorageError::InvalidValue
            &&& after.storage.members() == before.storage.members()
            &&& after.storage.text() == before.storage.text()
        },
    }
}

/// A passage that is not found is the passage of no annotation.
pub proof fn lemma_passage_absent(annotations: Seq<BookAnnotation>, cfi: Seq<char>)
    requires
        passage_index(annotations, cfi) is None,
    ensures
        !passages(annotations).contains(cfi),
    decreases annotations.len(),
{
    if annotations.len() > 0 {
        lemma_passage_absent(annotations.drop_last(), cfi);
        if passages(annotations).contains(cfi) {
            let k = choose|k: int| 0 <= k < annotations.len() && passages(annotations)[k] == cfi;
            if k < annotations.len() - 1 {
                assert(passages(annotations.drop_last())[k] == cfi);
                assert(passages(annotations.drop_last()).contains(cfi));
            }
        }
    }
}

/// Removing a passage leaves the other annotations in order, none of them twice.
pub proof fn lemma_without_passage(annotations: Seq<BookAnnotation>, cfi: Seq<char>)
    ensures
        passages(without_passage(annotations, cfi)) == without(passages(annotations), cfi),
    decreases annotations.len(),
{
    if annotations.len() > 0 {
        lemma_without_passage(annotations.drop_last(), cfi);
        assert(passages(annotations).drop_last() =~= passages(annotations.drop_last()));
        assert(passages(annotations).last() == annotations.last().cfi@);
        assert(passages(without_passage(annotations, cfi)) =~= without(passages(annotations), cfi));
    } else {
        assert(passages(without_passage(annotations, cfi)) =~= without(passages(annotations), cfi));
    }
}

} // verus!
