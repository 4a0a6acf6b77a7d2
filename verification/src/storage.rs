//! The store of one book: a JSON document of named properties that mirrors a file.
//!
//! The store does no I/O. The caller reads the file and its modification time and
//! hands them in, writes the text that [`Storage::set`] hands out and reports the
//! new modification time with [`Storage::written`], and deletes the file when
//! it calls [`Storage::clear`].

use vstd::prelude::*;
use jsondata::Json;
use crate::json::as_object;
use crate::json::empty_object;
use crate::json::is_error;
use crate::json::json_is_error;
use crate::json::json_keyed;
use crate::json::json_members;
use crate::json::json_text;
use crate::json::member;
use crate::json::put_member;
use crate::json::render;
use crate::paths::UserDirs;
use crate::paths::default_extension;
use crate::paths::stored_path;

verus! {

/// What a store tells its owner.
#[derive(Debug, Clone, Copy, PartialEq, Eq, Structural)]
pub enum StorageSignal {
    /// The store wrote its file.
    Modified,
    /// The file was changed from outside and the store took over what it holds.
    ExternallyModified,
}

/// The answer to a read that comes with the modification time of the file.
#[derive(Debug)]
pub enum Read {
    /// The file was changed since the store last read or wrote it: the store has to
    /// take it over before it answers.
    Stale,
    /// The store mirrors the file, and this is what it holds for the property.
    Value(Option<Json>),
}

/// Why a property was not set.
#[derive(Debug, Clone, Copy, PartialEq, Eq, Structural)]
pub enum StorageError {
    /// The value is the error marker of a failed JSON operation.
    InvalidValue,
}

/// The properties of a document that holds `members`, after `key` got the value
/// with text `text`.
pub open spec fn after_set(
    members: Map<Seq<char>, Seq<char>>,
    key: Seq<char>,
    text: Seq<char>,
) -> Map<Seq<char>, Seq<char>> {
    members.insert(key, text)
}

/// The properties of a cleared document.
pub open spec fn after_clear() -> Map<Seq<char>, Seq<char>> {
    Map::empty()
}

/// The text of the value that a document with `members` holds for `key`.
pub open spec fn value_at(members: Map<Seq<char>, Seq<char>>, key: Seq<char>) -> Option<
    Seq<char>,
> {
    if members.contains_key(key) {
        Some(members[key])
    } else {
        None
    }
}

/// The properties that a store holds after it took over what was read from its file:
/// those of the document, and none where the file is missing.
pub open spec fn loaded_members(loaded: Option<Json>) -> Map<Seq<char>, Seq<char>> {
    match loaded {
        Some(value) => json_members(value),
        None => Map::empty(),
    }
}

/// Whether a file with modification time `current` is newer than what a store took
/// over at `recorded`.
pub open spec fn is_newer(recorded: u64, current: u64) -> bool {
    current > recorded
}

/// The law of the round trip: a property that was set is read back with the value
/// it was set to, and setting it leaves every other property as it was.
pub proof fn lemma_set_then_get(
    members: Map<Seq<char>, Seq<char>>,
    key: Seq<char>,
    text: Seq<char>,
    other: Seq<char>,
)
    ensures
        value_at(after_set(members, key, text), key) == Some(text),
        other != key ==> value_at(after_set(members, key, text), other) == value_at(members, other),
{
}

/// The law of clearing: a cleared store holds no property, and clearing it again
/// leaves it cleared.
pub proof fn lemma_clear_idempotent(key: Seq<char>)
    ensures
        value_at(after_clear(), key) is None,
        after_clear() == after_clear(),
{
}

/// The law of the signal: once a store took over a file with modification time
/// `current`, that file is not newer than what the store holds, so the same change
/// is not signalled twice.
pub proof fn lemma_signalled_once(current: u64)
    ensures
        !is_newer(current, current),
{
}

/// The store of one book.
#[derive(Debug)]
pub struct Storage {
    path: String,
    data: Json,
    modified: u64,
}

impl Storage {
    /// The properties of the document: each key with the JSON text of its value.
    pub closed spec fn members(&self) -> Map<Seq<char>, Seq<char>> {
        json_members(self.data)
    }

    /// The JSON text of the document.
    pub closed spec fn text(&self) -> Seq<char> {
        json_text(self.data)
    }

    /// The path of the file that the store mirrors.
    pub closed spec fn spec_path(&self) -> Seq<char> {
        self.path@
    }

    /// The modification time of the file when the store last read or wrote it.
    pub closed spec fn spec_modified(&self) -> u64 {
        self.modified
    }

    /// What holds of every store: its document is an object with its keys in order.
    pub closed spec fn wf(&self) -> bool {
        json_keyed(self.data)
    }

    /// Opens the store of the file at `path` with what was read from it: the parsed
    /// document, or `None` where the file is missing, and its modification time. A
    /// document that is no object holds no properties, and the store opens empty.
    pub fn new(path: String, loaded: Option<Json>, modified: u64) -> (storage: Storage)
        ensures
            storage.wf(),
            storage.spec_path() == path@,
            storage.spec_modified() == modified,
            storage.members() == loaded_members(loaded),
    {
        let data = Storage::document(loaded);
        Storage { path, data, modified }
    }

    /// The document that a store holds for what was read from its file.
    fn document(loaded: Option<Json>) -> (data: Json)
        ensures
            json_keyed(data),
            json_members(data) == loaded_members(loaded),
    {
        let data = match loaded {
            Some(value) => match as_object(value) {
                Some(object) => object,
                None => empty_object(),
            },
            None => empty_object(),
        };
        assert(json_members(data) =~= loaded_members(loaded));
        data
    }

    /// The path of the file that the store mirrors.
    pub fn path(&self) -> (path: &String)
        ensures
            path@ == self.spec_path(),
    {
        &self.path
    }

    /// The modification time of the file when the store last read or wrote it.
    pub fn modified(&self) -> (modified: u64)
        ensures
            modified == self.spec_modified(),
    {
        self.modified
    }

    /// Whether the file, whose modification time is now `current`, was changed since
    /// the store last read or wrote it. Where it was, the caller reads it again and
    /// hands it to [`Storage::reload`] before the next `get`.
    pub fn is_stale(&self, current: u64) -> (stale: bool)
        ensures
            stale == is_newer(self.spec_modified(), current),
    {
        current > self.modified
    }

    /// Takes over what was read from the file after a change from outside, and
    /// signals the change.
    pub fn reload(&mut self, loaded: Option<Json>, modified: u64) -> (signal: StorageSignal)
        requires
            old(self).wf(),
        ensures
            final(self).wf(),
            signal == StorageSignal::ExternallyModified,
            final(self).members() == loaded_members(loaded),
            final(self).spec_modified() == modified,
            final(self).spec_path() == old(self).spec_path(),
    {
        self.data = Storage::document(loaded);
        self.modified = modified;
        StorageSignal::ExternallyModified
    }

    /// The value of a property, or `None` where the document has none with that key.
    pub fn get(&self, property: &str) -> (value: Option<Json>)
        requires
            self.wf(),
        ensures
            match value {
                Some(found) => value_at(self.members(), property@) == Some(json_text(found)),
                None => value_at(self.members(), property@) is None,
            },
    {
        member(&self.data, property)
    }

    /// Reads a property as the file holds it: compares the modification time of the
    /// file, which is `current` now, with the one on record, and answers only where
    /// the file is not newer.
    pub fn read(&self, property: &str, current: u64) -> (answer: Read)
        requires
            self.wf(),
        ensures
            match answer {
                Read::Stale => is_newer(self.spec_modified(), current),
                Read::Value(Some(found)) => !is_newer(self.spec_modified(), current) && value_at(
                    self.members(),
                    property@,
                ) == Some(json_text(found)),
                Read::Value(None) => !is_newer(self.spec_modified(), current) && value_at(
                    self.members(),
                    property@,
                ) is None,
            },
    {
        if self.is_stale(current) {
            Read::Stale
        } else {
            Read::Value(self.get(property))
        }
    }

    /// Sets a property, replacing the value it had, and hands out the text of the
    /// whole document for the caller to write. A value that is the error marker is
    /// refused and changes nothing.
    pub fn set(&mut self, property: &str, value: Json) -> (r: Result<String, StorageError>)
        requires
            old(self).wf(),
        ensures
            final(self).wf(),
            final(self).spec_path() == old(self).spec_path(),
            final(self).spec_modified() == old(self).spec_modified(),
            match r {
                Ok(text) => {
                    &&& !json_is_error(value)
                    &&& final(self).members() == after_set(
                        old(self).members(),
                        property@,
                        json_text(value),
                    )
                    &&& text@ == final(self).text()
                },
                Err(e) => {
                    &&& json_is_error(value)
                    &&& e == StorageError::InvalidValue
                    &&& final(self).members() == old(self).members()
                    &&& final(self).text() == old(self).text()
                },
            },
    {
        if is_error(&value) {
            return Err(StorageError::InvalidValue);
        }
        put_member(&mut self.data, property, value);
        Ok(render(&self.data))
    }

    /// Records that the file was written and has the modification time `modified`
    /// now, and signals the write.
    pub fn written(&mut self, modified: u64) -> (signal: StorageSignal)
        requires
            old(self).wf(),
        ensures
            final(self).wf(),
            signal == StorageSignal::Modified,
            final(self).spec_modified() == modified,
            final(self).members() == old(self).members(),
            final(self).text() == old(self).text(),
            final(self).spec_path() == old(self).spec_path(),
    {
        self.modified = modified;
        StorageSignal::Modified
    }

    /// Empties the store; the caller deletes the file. The store then holds no
    /// property and takes over whatever file appears later.
    pub fn clear(&mut self)
        requires
            old(self).wf(),
        ensures
            final(self).wf(),
            final(self).members() == after_clear(),
            final(self).spec_modified() == 0,
            final(self).spec_path() == old(self).spec_path(),
    {
        self.data = empty_object();
        self.modified = 0;
        assert(json_members(self.data) =~= after_clear());
    }

    /// The text of the whole document.
    pub fn to_text(&self) -> (text: String)
        ensures
            text@ == self.text(),
    {
        render(&self.data)
    }

    /// The path of the file that belongs to `key`: below the base directory of `kind`
    /// (`"cache"`, `"config"`, anything else for data), in the Bookx directory, named
    /// by the form-encoded key, a dot and the extension, `json` where none is given.
    pub fn get_path(kind: &str, key: &str, extension: Option<&str>, dirs: &UserDirs) -> (path:
        String)
        ensures
            path@ == stored_path(
                *dirs,
                kind@,
                key@,
                match extension {
                    Some(e) => e@,
                    None => default_extension(),
                },
            ),
    {
        crate::paths::get_path(kind, key, extension, dirs)
    }
}

} // verus!
