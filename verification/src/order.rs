//! The order in which a folder's files are listed: hidden names last, then by
//! collation key, as file managers list them.
//!
//! Collation keys are produced by the desktop's filename collation and come in as
//! bytes; keys compare byte by byte.

use vstd::prelude::*;
use vstd::utf8::encode_utf8;
use vstd::string::StringSliceAdditionalSpecFns;
use crate::format::Format;

verus! {

/// How one thing stands to another in an order.
#[derive(Debug, Clone, Copy, PartialEq, Eq, Structural)]
pub enum Rank {
    Before,
    Same,
    After,
}

/// Whether `a` comes before `b` byte by byte: at the first position where they
/// differ `a` has the smaller byte, or `a` ends there and `b` goes on.
pub open spec fn lex_less(a: Seq<u8>, b: Seq<u8>) -> bool
    decreases a.len(),
{
    if b.len() == 0 {
        false
    } else if a.len() == 0 {
        true
    } else if a[0] != b[0] {
        a[0] < b[0]
    } else {
        lex_less(a.drop_first(), b.drop_first())
    }
}

/// How `a` stands to `b` byte by byte.
pub open spec fn lex_rank(a: Seq<u8>, b: Seq<u8>) -> Rank {
    if lex_less(a, b) {
        Rank::Before
    } else if lex_less(b, a) {
        Rank::After
    } else {
        Rank::Same
    }
}

/// Names that are listed after all others: those that start with `.` or `#`.
pub open spec fn sorts_last(name: Seq<char>) -> bool {
    name.len() > 0 && (name[0] == '.' || name[0] == '#')
}

/// How the name `a` with collation key `key_a` stands to the name `b` with key
/// `key_b`: a name that sorts last comes after one that does not, and two names on
/// the same side of that rule stand as their keys do.
pub open spec fn name_rank(a: Seq<char>, key_a: Seq<u8>, b: Seq<char>, key_b: Seq<u8>) -> Rank {
    if !sorts_last(a) && sorts_last(b) {
        Rank::Before
    } else if sorts_last(a) && !sorts_last(b) {
        Rank::After
    } else {
        lex_rank(key_a, key_b)
    }
}

/// A file that a scan found, with what orders it: the folder it lies in, named
/// relative to the scanned folder, its own name, and the collation key of each;
/// and the content type that was sniffed for it with the format that it names.
#[derive(Debug, Clone, PartialEq, Eq)]
pub struct FileEntry {
    pub path: String,
    pub parent: String,
    pub parent_key: Vec<u8>,
    pub name: String,
    pub name_key: Vec<u8>,
    pub content_type: String,
    pub format: Format,
}

/// The mathematical content of a [`FileEntry`].
pub struct FileView {
    pub path: Seq<char>,
    pub parent: Seq<char>,
    pub parent_key: Seq<u8>,
    pub name: Seq<char>,
    pub name_key: Seq<u8>,
    pub content_type: Seq<char>,
    pub format: Format,
}

impl View for FileEntry {
    type V = FileView;

    open spec fn view(&self) -> FileView {
        FileView {
            path: self.path@,
            parent: self.parent@,
            parent_key: self.parent_key@,
            name: self.name@,
            name_key: self.name_key@,
            content_type: self.content_type@,
            format: self.format,
        }
    }
}

/// How file `a` stands to file `b`: as their folders stand, and within one folder as
/// their names stand.
pub open spec fn file_rank(a: FileView, b: FileView) -> Rank {
    match name_rank(a.parent, a.parent_key, b.parent, b.parent_key) {
        Rank::Same => name_rank(a.name, a.name_key, b.name, b.name_key),
        rank => rank,
    }
}

/// The order of a listing: as the files stand to each other and, between two files
/// that stand the same, by the bytes of their paths. This makes the listing
/// independent of the order in which the folder was enumerated.
pub open spec fn precedes(a: FileView, b: FileView) -> bool {
    file_rank(a, b) == Rank::Before || (file_rank(a, b) == Rank::Same && lex_less(
        encode_utf8(a.path),
        encode_utf8(b.path),
    ))
}

/// No sequence of bytes comes before itself.
pub proof fn lemma_lex_irreflexive(a: Seq<u8>)
    ensures
        !lex_less(a, a),
    decreases a.len(),
{
    if a.len() > 0 {
        lemma_lex_irreflexive(a.drop_first());
    }
}

/// Of two sequences of bytes at most one comes before the other.
pub proof fn lemma_lex_asymmetric(a: Seq<u8>, b: Seq<u8>)
    ensures
        !(lex_less(a, b) && lex_less(b, a)),
    decreases a.len(),
{
    if a.len() > 0 && b.len() > 0 && a[0] == b[0] {
        lemma_lex_asymmetric(a.drop_first(), b.drop_first());
    }
}

/// Of two different sequences of bytes one comes before the other.
pub proof fn lemma_lex_total(a: Seq<u8>, b: Seq<u8>)
    ensures
        lex_less(a, b) || lex_less(b, a) || a == b,
    decreases a.len(),
{
    if a.len() == 0 || b.len() == 0 {
        if a.len() == 0 && b.len() == 0 {
            assert(a =~= b);
        }
    } else if a[0] == b[0] {
        lemma_lex_total(a.drop_first(), b.drop_first());
        if a.drop_first() == b.drop_first() {
            assert(a =~= seq![a[0]] + a.drop_first());
            assert(b =~= seq![b[0]] + b.drop_first());
        }
    }
}

/// Coming before is transitive.
pub proof fn lemma_lex_transitive(a: Seq<u8>, b: Seq<u8>, c: Seq<u8>)
    requires
        lex_less(a, b),
        lex_less(b, c),
    ensures
        lex_less(a, c),
    decreases a.len(),
{
    if a.len() > 0 && a[0] == b[0] && b[0] == c[0] {
        lemma_lex_transitive(a.drop_first(), b.drop_first(), c.drop_first());
    }
}

/// Two texts with the same UTF-8 bytes are the same text.
pub proof fn lemma_utf8_injective(a: Seq<char>, b: Seq<char>)
    requires
        encode_utf8(a) == encode_utf8(b),
    ensures
        a == b,
{
    vstd::utf8::encode_utf8_decode_utf8(a);
    vstd::utf8::encode_utf8_decode_utf8(b);
}

/// The order of a listing is strict: no file comes before itself, and of two files
/// at most one comes before the other.
pub proof fn lemma_precedes_asymmetric(a: FileView, b: FileView)
    ensures
        !(precedes(a, b) && precedes(b, a)),
        !precedes(a, a),
{
    lemma_lex_asymmetric(a.parent_key, b.parent_key);
    lemma_lex_asymmetric(a.name_key, b.name_key);
    lemma_lex_asymmetric(encode_utf8(a.path), encode_utf8(b.path));
    lemma_lex_irreflexive(a.parent_key);
    lemma_lex_irreflexive(a.name_key);
    lemma_lex_irreflexive(encode_utf8(a.path));
}

/// The order of a listing is total on files with different paths.
pub proof fn lemma_precedes_total(a: FileView, b: FileView)
    requires
        a.path != b.path,
    ensures
        precedes(a, b) || precedes(b, a),
{
    lemma_lex_total(a.parent_key, b.parent_key);
    lemma_lex_total(a.name_key, b.name_key);
    lemma_lex_total(encode_utf8(a.path), encode_utf8(b.path));
    lemma_lex_asymmetric(a.parent_key, b.parent_key);
    lemma_lex_asymmetric(a.name_key, b.name_key);
    lemma_lex_irreflexive(a.parent_key);
    lemma_lex_irreflexive(a.name_key);
    if encode_utf8(a.path) == encode_utf8(b.path) {
        lemma_utf8_injective(a.path, b.path);
    }
}

/// The order of a listing is transitive.
pub proof fn lemma_precedes_transitive(a: FileView, b: FileView, c: FileView)
    requires
        precedes(a, b),
        precedes(b, c),
    ensures
        precedes(a, c),
{
    lemma_rank_transitive(a.parent, a.parent_key, b.parent, b.parent_key, c.parent, c.parent_key);
    lemma_rank_transitive(a.name, a.name_key, b.name, b.name_key, c.name, c.name_key);
    if lex_less(encode_utf8(a.path), encode_utf8(b.path)) && lex_less(
        encode_utf8(b.path),
        encode_utf8(c.path),
    ) {
        lemma_lex_transitive(encode_utf8(a.path), encode_utf8(b.path), encode_utf8(c.path));
    }
}

/// How names stand to each other composes: before and before-or-same give before,
/// and same and same give same.
pub proof fn lemma_rank_transitive(
    a: Seq<char>,
    key_a: Seq<u8>,
    b: Seq<char>,
    key_b: Seq<u8>,
    c: Seq<char>,
    key_c: Seq<u8>,
)
    ensures
        name_rank(a, key_a, b, key_b) == Rank::Before && name_rank(b, key_b, c, key_c)
            != Rank::After ==> name_rank(a, key_a, c, key_c) == Rank::Before,
        name_rank(a, key_a, b, key_b) != Rank::After && name_rank(b, key_b, c, key_c)
            == Rank::Before ==> name_rank(a, key_a, c, key_c) == Rank::Before,
        name_rank(a, key_a, b, key_b) == Rank::Same && name_rank(b, key_b, c, key_c)
            == Rank::Same ==> name_rank(a, key_a, c, key_c) == Rank::Same,
{
    lemma_lex_total(key_a, key_b);
    lemma_lex_total(key_b, key_c);
    lemma_lex_total(key_a, key_c);
    lemma_lex_asymmetric(key_a, key_b);
    lemma_lex_asymmetric(key_b, key_c);
    lemma_lex_asymmetric(key_a, key_c);
    lemma_lex_irreflexive(key_a);
    lemma_lex_irreflexive(key_b);
    if lex_less(key_a, key_b) && lex_less(key_b, key_c) {
        lemma_lex_transitive(key_a, key_b, key_c);
    }
}

/// Compares two byte strings byte by byte.
pub fn rank_bytes(a: &[u8], b: &[u8]) -> (rank: Rank)
    ensures
        rank == lex_rank(a@, b@),
        rank == Rank::Same <==> a@ == b@,
{
    let mut i: usize = 0;
    assert(a@.skip(0) =~= a@ && b@.skip(0) =~= b@);
    while i < a.len() && i < b.len()
        invariant
            i <= a.len(),
            i <= b.len(),
            a@.take(i as int) == b@.take(i as int),
            lex_less(a@, b@) == lex_less(a@.skip(i as int), b@.skip(i as int)),
            lex_less(b@, a@) == lex_less(b@.skip(i as int), a@.skip(i as int)),
        decreases a.len() - i,
    {
        if a[i] < b[i] {
            assert(a@.take(i + 1) != b@.take(i + 1)) by {
                assert(a@.take(i + 1)[i as int] != b@.take(i + 1)[i as int]);
            }
            assert(a@ != b@);
            return Rank::Before;
        }
        if a[i] > b[i] {
            assert(a@ != b@);
            return Rank::After;
        }
        assert(a@.skip(i as int).drop_first() =~= a@.skip(i + 1));
        assert(b@.skip(i as int).drop_first() =~= b@.skip(i + 1));
        assert(a@.take(i + 1) =~= a@.take(i as int).push(a@[i as int]));
        assert(b@.take(i + 1) =~= b@.take(i as int).push(b@[i as int]));
        i += 1;
    }
    proof {
        lemma_lex_irreflexive(a@);
    }
    if a.len() < b.len() {
        Rank::Before
    } else if a.len() > b.len() {
        Rank::After
    } else {
        assert(a@ =~= a@.take(i as int) && b@ =~= b@.take(i as int));
        Rank::Same
    }
}

/// Whether a name is listed after all names that are not hidden.
pub fn is_sorted_last(name: &str) -> (last: bool)
    ensures
        last == sorts_last(name@),
{
    if name.is_empty() {
        false
    } else {
        let first = name.get_char(0);
        first == '.' || first == '#'
    }
}

/// Ranks one name against another, each with its collation key.
pub fn rank_names(a: &str, key_a: &[u8], b: &str, key_b: &[u8]) -> (rank: Rank)
    ensures
        rank == name_rank(a@, key_a@, b@, key_b@),
{
    let last_a = is_sorted_last(a);
    let last_b = is_sorted_last(b);
    if !last_a && last_b {
        Rank::Before
    } else if last_a && !last_b {
        Rank::After
    } else {
        rank_bytes(key_a, key_b)
    }
}

/// Ranks one file against another: by their folders, then by their names.
pub fn rank_files(a: &FileEntry, b: &FileEntry) -> (rank: Rank)
    ensures
        rank == file_rank(a@, b@),
{
    match rank_names(
        a.parent.as_str(),
        a.parent_key.as_slice(),
        b.parent.as_str(),
        b.parent_key.as_slice(),
    ) {
        Rank::Same => rank_names(
            a.name.as_str(),
            a.name_key.as_slice(),
            b.name.as_str(),
            b.name_key.as_slice(),
        ),
        rank => rank,
    }
}

/// Whether `a` is listed before `b`.
pub fn comes_before(a: &FileEntry, b: &FileEntry) -> (before: bool)
    ensures
        before == precedes(a@, b@),
{
    match rank_files(a, b) {
        Rank::Before => true,
        Rank::After => false,
        Rank::Same => match rank_bytes(a.path.as_str().as_bytes(), b.path.as_str().as_bytes()) {
            Rank::Before => true,
            _ => false,
        },
    }
}

/// The content type of the file is the accepted format that the file is listed with.
pub open spec fn is_ebook(file: FileView) -> bool {
    Format::of_mime(file.content_type) == Some(file.format)
}

/// The mathematical content of a list of files.
pub open spec fn views(files: Seq<FileEntry>) -> Seq<FileView> {
    files.map_values(|f: FileEntry| f@)
}

/// Each file of the list comes before all that follow it.
pub open spec fn ordered(files: Seq<FileView>) -> bool {
    forall|i: int, j: int| 0 <= i < j < files.len() ==> precedes(files[i], files[j])
}

/// No two files of the list have the same path.
pub open spec fn distinct_paths(files: Seq<FileView>) -> bool {
    forall|i: int, j: int| 0 <= i < j < files.len() ==> files[i].path != files[j].path
}

/// The file at `k` is the first of the list with its path.
pub open spec fn is_first(files: Seq<FileView>, k: int) -> bool {
    &&& 0 <= k < files.len()
    &&& forall|m: int| 0 <= m < k ==> files[m].path != files[k].path
}

/// Some file of the list has the given path.
pub open spec fn has_path(files: Seq<FileView>, path: Seq<char>) -> bool {
    exists|i: int| 0 <= i < files.len() && files[i].path == path
}

/// `listing` lists `files`: it is in order, it holds no path twice, each of its
/// entries is the first file of `files` with its path, and every path of `files`
/// is listed.
pub open spec fn is_listing_of(listing: Seq<FileView>, files: Seq<FileView>) -> bool {
    &&& ordered(listing)
    &&& distinct_paths(listing)
    &&& forall|i: int|
        0 <= i < listing.len() ==> exists|k: int| is_first(files, k) && #[trigger] listing[i] == files[k]
    &&& forall|k: int| 0 <= k < files.len() ==> has_path(listing, #[trigger] files[k].path)
}

/// Two lists in order that hold the same files are the same list.
pub proof fn lemma_ordered_unique(a: Seq<FileView>, b: Seq<FileView>)
    requires
        ordered(a),
        ordered(b),
        forall|f: FileView| a.contains(f) <==> b.contains(f),
    ensures
        a == b,
    decreases a.len(),
{
    if a.len() == 0 {
        if b.len() > 0 {
            assert(b.contains(b[0]));
            assert(a.contains(b[0]));
        }
        assert(a =~= b);
    } else {
        assert(a.contains(a[0]));
        assert(b.contains(a[0]));
        let j = choose|j: int| 0 <= j < b.len() && b[j] == a[0];
        assert(b.contains(b[0]));
        assert(a.contains(b[0]));
        let i = choose|i: int| 0 <= i < a.len() && a[i] == b[0];
        lemma_precedes_asymmetric(a[0], b[0]);
        assert(a[0] == b[0]);
        let ta = a.drop_first();
        let tb = b.drop_first();
        assert forall|f: FileView| ta.contains(f) <==> tb.contains(f) by {
            lemma_precedes_asymmetric(f, f);
            if ta.contains(f) {
                let k = choose|k: int| 0 <= k < ta.len() && ta[k] == f;
                assert(a[k + 1] == f);
                assert(a.contains(f));
                let m = choose|m: int| 0 <= m < b.len() && b[m] == f;
                assert(precedes(a[0], a[k + 1]));
                assert(m != 0);
                assert(tb[m - 1] == f);
            }
            if tb.contains(f) {
                let k = choose|k: int| 0 <= k < tb.len() && tb[k] == f;
                assert(b[k + 1] == f);
                assert(b.contains(f));
                let m = choose|m: int| 0 <= m < a.len() && a[m] == f;
                assert(precedes(b[0], b[k + 1]));
                assert(m != 0);
                assert(ta[m - 1] == f);
            }
        }
        assert(ordered(ta)) by {
            assert forall|x: int, y: int| 0 <= x < y < ta.len() implies precedes(ta[x], ta[y]) by {
                assert(precedes(a[x + 1], a[y + 1]));
            }
        }
        assert(ordered(tb)) by {
            assert forall|x: int, y: int| 0 <= x < y < tb.len() implies precedes(tb[x], tb[y]) by {
                assert(precedes(b[x + 1], b[y + 1]));
            }
        }
        lemma_ordered_unique(ta, tb);
        assert(a =~= seq![a[0]] + ta);
        assert(b =~= seq![b[0]] + tb);
    }
}

/// A list of files has one listing only.
pub proof fn lemma_listing_unique(first: Seq<FileView>, second: Seq<FileView>, files: Seq<FileView>)
    requires
        is_listing_of(first, files),
        is_listing_of(second, files),
    ensures
        first == second,
{
    lemma_listed_files(first, second, files);
    lemma_listed_files(second, first, files);
    lemma_ordered_unique(first, second);
}

/// Every entry of one listing of a list of files stands in every other.
pub proof fn lemma_listed_files(first: Seq<FileView>, second: Seq<FileView>, files: Seq<FileView>)
    requires
        is_listing_of(first, files),
        is_listing_of(second, files),
    ensures
        forall|f: FileView| first.contains(f) ==> second.contains(f),
{
    assert forall|f: FileView| first.contains(f) implies second.contains(f) by {
        let i = choose|i: int| 0 <= i < first.len() && first[i] == f;
        let k = choose|k: int| is_first(files, k) && first[i] == files[k];
        assert(has_path(second, files[k].path));
        let j = choose|j: int| 0 <= j < second.len() && second[j].path == files[k].path;
        let m = choose|m: int| is_first(files, m) && second[j] == files[m];
        assert(m == k);
        assert(second[j] == f);
    }
}

/// The law of the listing: however a folder was enumerated, its listing is the
/// same. Two lists without a repeated path that hold the same files have the same
/// listing.
pub proof fn lemma_listing_independent_of_order(
    a: Seq<FileView>,
    b: Seq<FileView>,
    listing_a: Seq<FileView>,
    listing_b: Seq<FileView>,
)
    requires
        distinct_paths(a),
        distinct_paths(b),
        forall|f: FileView| a.contains(f) <==> b.contains(f),
        is_listing_of(listing_a, a),
        is_listing_of(listing_b, b),
    ensures
        listing_a == listing_b,
{
    lemma_listing_holds_all(a, listing_a);
    lemma_listing_holds_all(b, listing_b);
    lemma_ordered_unique(listing_a, listing_b);
}

/// The listing of a list without a repeated path holds exactly the files of the
/// list.
pub proof fn lemma_listing_holds_all(files: Seq<FileView>, listing: Seq<FileView>)
    requires
        distinct_paths(files),
        is_listing_of(listing, files),
    ensures
        forall|f: FileView| files.contains(f) <==> listing.contains(f),
{
    assert forall|f: FileView| files.contains(f) <==> listing.contains(f) by {
        if files.contains(f) {
            let k = choose|k: int| 0 <= k < files.len() && files[k] == f;
            assert(has_path(listing, files[k].path));
            let i = choose|i: int| 0 <= i < listing.len() && listing[i].path == files[k].path;
            let m = choose|m: int| is_first(files, m) && listing[i] == files[m];
            assert(m == k);
            assert(listing[i] == f);
        }
        if listing.contains(f) {
            let i = choose|i: int| 0 <= i < listing.len() && listing[i] == f;
            let k = choose|k: int| is_first(files, k) && listing[i] == files[k];
            assert(files[k] == f);
        }
    }
}

/// Whether the list holds a file with the given path.
pub fn contains_path(files: &Vec<FileEntry>, path: &String) -> (found: bool)
    ensures
        found == has_path(views(files@), path@),
{
    let mut i: usize = 0;
    while i < files.len()
        invariant
            i <= files.len(),
            forall|k: int| 0 <= k < i ==> views(files@)[k].path != path@,
        decreases files.len() - i,
    {
        if files[i].path == *path {
            assert(views(files@)[i as int].path == path@);
            return true;
        }
        i += 1;
    }
    false
}

/// Puts a file into a list that is in order, at the place that keeps it in order,
/// and says where. The place is found by bisection.
pub fn insert_ordered(listing: &mut Vec<FileEntry>, file: FileEntry) -> (at: usize)
    requires
        ordered(views(old(listing)@)),
        !has_path(views(old(listing)@), file@.path),
    ensures
        at <= old(listing)@.len(),
        final(listing)@ == old(listing)@.insert(at as int, file),
        views(final(listing)@) == views(old(listing)@).insert(at as int, file@),
        ordered(views(final(listing)@)),
{
    let ghost before = views(listing@);
    let mut at: usize = 0;
    let mut end: usize = listing.len();
    while at < end
        invariant
            at <= end <= listing.len(),
            listing@ == old(listing)@,
            before == views(listing@),
            ordered(before),
            !has_path(before, file@.path),
            forall|k: int| 0 <= k < at ==> precedes(#[trigger] before[k], file@),
            forall|k: int| end <= k < listing.len() ==> precedes(file@, #[trigger] before[k]),
        decreases end - at,
    {
        let middle = at + (end - at) / 2;
        if comes_before(&file, &listing[middle]) {
            proof {
                assert forall|k: int| middle <= k < listing.len() implies precedes(
                    file@,
                    #[trigger] before[k],
                ) by {
                    if middle < k {
                        lemma_precedes_transitive(file@, before[middle as int], before[k]);
                    }
                }
            }
            end = middle;
        } else {
            proof {
                assert(before[middle as int].path != file@.path);
                lemma_precedes_total(before[middle as int], file@);
                assert forall|k: int| 0 <= k <= middle implies precedes(
                    #[trigger] before[k],
                    file@,
                ) by {
                    if k < middle {
                        lemma_precedes_transitive(before[k], before[middle as int], file@);
                    }
                }
            }
            at = middle + 1;
        }
    }
    listing.insert(at, file);
    proof {
        let after = views(listing@);
        assert(after =~= before.insert(at as int, file@));
        assert forall|i: int, j: int| 0 <= i < j < after.len() implies precedes(
            after[i],
            after[j],
        ) by {
            if j < at {
                assert(after[i] == before[i] && after[j] == before[j]);
            } else if j == at {
                assert(after[i] == before[i]);
            } else if i < at {
                assert(after[i] == before[i] && after[j] == before[j - 1]);
            } else if i == at {
                assert(after[j] == before[j - 1]);
            } else {
                assert(after[i] == before[i - 1] && after[j] == before[j - 1]);
            }
        }
    }
    at
}

/// Lists files as a folder view would: in order (see [`precedes`]), each path once.
/// Of several files with one path the first stands for all.
pub fn order_files(files: Vec<FileEntry>) -> (listing: Vec<FileEntry>)
    ensures
        is_listing_of(views(listing@), views(files@)),
{
    let mut listing: Vec<FileEntry> = Vec::new();
    let ghost all = files@;
    for file in it: files.into_iter()
        invariant
            it.seq() == all,
            is_listing_of(views(listing@), views(all.take(it.index() as int))),
    {
        let ghost n = it.index() as int;
        let ghost seen = views(all.take(n));
        let ghost next = views(all.take(n + 1));
        let ghost listed = views(listing@);
        assert(next =~= seen.push(file@));
        if contains_path(&listing, &file.path) {
            proof {
                let i = choose|i: int| 0 <= i < listed.len() && listed[i].path == file@.path;
                assert forall|i: int| 0 <= i < listed.len() implies exists|k: int|
                    is_first(next, k) && #[trigger] listed[i] == next[k] by {
                    let k = choose|k: int| is_first(seen, k) && listed[i] == seen[k];
                    assert(is_first(next, k) && listed[i] == next[k]);
                }
                assert forall|k: int| 0 <= k < next.len() implies has_path(
                    listed,
                    #[trigger] next[k].path,
                ) by {
                    if k < n {
                        assert(has_path(listed, seen[k].path));
                    }
                }
            }
        } else {
            let at = insert_ordered(&mut listing, file);
            proof {
                let grown = views(listing@);
                assert forall|k: int| 0 <= k < seen.len() implies seen[k].path != file@.path by {
                    assert(has_path(listed, seen[k].path));
                }
                assert(is_first(next, n));
                assert forall|i: int| 0 <= i < grown.len() implies exists|k: int|
                    is_first(next, k) && #[trigger] grown[i] == next[k] by {
                    if i == at {
                        assert(is_first(next, n) && grown[i] == next[n]);
                    } else {
                        let o = if i < at {
                            i
                        } else {
                            i - 1
                        };
                        assert(grown[i] == listed[o]);
                        let k = choose|k: int| is_first(seen, k) && listed[o] == seen[k];
                        assert(is_first(next, k) && grown[i] == next[k]);
                    }
                }
                assert forall|k: int| 0 <= k < next.len() implies has_path(
                    grown,
                    #[trigger] next[k].path,
                ) by {
                    if k < n {
                        assert(has_path(listed, seen[k].path));
                        let i = choose|i: int| 0 <= i < listed.len() && listed[i].path == seen[k].path;
                        let g = if i < at {
                            i
                        } else {
                            i + 1
                        };
                        assert(grown[g] == listed[i]);
                    } else {
                        assert(grown[at as int] == file@);
                    }
                }
                assert forall|i: int, j: int| 0 <= i < j < grown.len() implies grown[i].path
                    != grown[j].path by {
                    let oi = if i < at {
                        i
                    } else {
                        i - 1
                    };
                    let oj = if j < at {
                        j
                    } else {
                        j - 1
                    };
                    if i == at {
                        assert(grown[j] == listed[oj]);
                    } else if j == at {
                        assert(grown[i] == listed[oi]);
                    } else {
                        assert(grown[i] == listed[oi] && grown[j] == listed[oj]);
                    }
                }
            }
        }
    }
    assert(all.take(all.len() as int) =~= all);
    listing
}

} // verus!
