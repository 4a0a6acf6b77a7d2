//! The cover image of a book and where it is cached.

use vstd::prelude::*;
use vstd::string::StringSliceAdditionalSpecFns;
use vstd::utf8::encode_utf8;
use crate::book::MetadataItem;
use crate::book::find_first;
use crate::book::first_value;
use crate::book::identifier_of;
use crate::paths::join_path;
use crate::paths::joined_path;
use crate::text::texts;

verus! {

/// The SHA-1 digest of a byte string, as forty lower-case hexadecimal digits.
pub uninterp spec fn sha1_hex(bytes: Seq<u8>) -> Seq<char>;

/// Feeds the UTF-8 bytes of `text` to a fresh `crypto::sha1::Sha1` and takes the
/// digest with `result_str`. Nothing is claimed beyond the result being the digest
/// of those bytes.
#[verifier::external_body]
pub(crate) fn sha1_hex_of(text: &str) -> (digest: String)
    ensures
        digest@ == sha1_hex(text.spec_bytes()),
{
    let mut hasher = crypto::sha1::Sha1::new();
    crypto::digest::Digest::input_str(&mut hasher, text);
    crypto::digest::Digest::result_str(&mut hasher)
}

/// Where the cover of the book with the given identifier is cached: in a folder of
/// its own below the cache folder, named by the digest of the identifier.
pub open spec fn cache_of(cache_dir: Seq<char>, identifier: Seq<char>) -> Seq<char> {
    joined_path(joined_path(cache_dir, sha1_hex(encode_utf8(identifier))), ".png"@)
}

/// The cover image of a book: the book's file and the file that caches its cover.
#[derive(Debug, PartialEq, Eq)]
pub struct BookxBookImage {
    pub path: String,
    pub cache: String,
}

impl BookxBookImage {
    /// The cover image of the book at `path` with the given identifier, cached below
    /// `cache_dir`.
    pub fn new(path: String, identifier: &str, cache_dir: &str) -> (image: BookxBookImage)
        ensures
            image.path@ == path@,
            image.cache@ == cache_of(cache_dir@, identifier@),
    {
        let cache = BookxBookImage::get_cache_of(identifier, cache_dir);
        BookxBookImage { path, cache }
    }

    /// Where the cover of the book with the given identifier is cached.
    pub fn get_cache_of(identifier: &str, cache_dir: &str) -> (cache: String)
        ensures
            cache@ == cache_of(cache_dir@, identifier@),
    {
        let digest = sha1_hex_of(identifier);
        let folder = join_path(cache_dir, digest.as_str());
        join_path(folder.as_str(), ".png")
    }

    /// Whether the cover is cached: whether its cache file is among the files that
    /// the cache holds.
    pub fn is_cached(&self, cached: &Vec<String>) -> (found: bool)
        ensures
            found == texts(cached@).contains(self.cache@),
    {
        let mut i: usize = 0;
        while i < cached.len()
            invariant
                i <= cached.len(),
                forall|k: int| 0 <= k < i ==> texts(cached@)[k] != self.cache@,
            decreases cached.len() - i,
        {
            if cached[i] == self.cache {
                assert(texts(cached@)[i as int] == self.cache@);
                return true;
            }
            i += 1;
        }
        false
    }

    /// The identifier of a book with the given metadata: its first `identifier`, or
    /// else its title; `None` for a book without a title.
    pub fn get_identifier(metadata: &Vec<MetadataItem>) -> (identifier: Option<String>)
        ensures
            match identifier {
                Some(found) => first_value(metadata@, "title"@) is Some && found@ == identifier_of(
                    metadata@,
                    first_value(metadata@, "title"@)->Some_0,
                ),
                None => first_value(metadata@, "title"@) is None,
            },
    {
        let title = match find_first(metadata, "title") {
            Some(title) => title,
            None => {
                return None;
            },
        };
        match find_first(metadata, "identifier") {
            Some(identifier) => Some(identifier),
            None => Some(title),
        }
    }
}

} // verus!
