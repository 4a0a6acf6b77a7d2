//! The folder scanner: from the enumerated tree of a folder to the ordered list of
//! the ebooks below it.
//!
//! The caller enumerates the folder, never following symbolic links, sniffs the
//! content type of each regular file and asks the desktop for the collation key of
//! each name; what it found comes in as a [`Folder`].

use vstd::prelude::*;
use core::cmp::Ordering;
use crate::format::Format;
use crate::order::FileEntry;
use crate::order::FileView;
use crate::order::Rank;
use crate::order::distinct_paths;
use crate::order::file_rank;
use crate::order::is_ebook;
use crate::order::is_first;
use crate::order::is_listing_of;
use crate::order::lemma_listing_independent_of_order;
use crate::order::name_rank;
use crate::order::order_files;
use crate::order::rank_files;
use crate::order::rank_names;
use crate::order::views;
use crate::text::texts;

verus! {

/// A regular file as the enumeration found it.
#[derive(Debug, PartialEq, Eq)]
pub struct FileInfo {
    pub path: String,
    pub name: String,
    pub name_key: Vec<u8>,
    pub content_type: Option<String>,
}

/// A folder as the enumeration found it. `name` is what the folder is ordered by:
/// its path relative to the scanned folder, or its own name where it has none (the
/// scanned folder itself), and `name_key` the collation key of that. `children` is
/// `None` where the folder could not be enumerated.
#[derive(Debug, PartialEq, Eq)]
pub struct Folder {
    pub name: String,
    pub name_key: Vec<u8>,
    pub children: Option<Vec<Node>>,
}

/// One entry of a folder.
#[derive(Debug, PartialEq, Eq)]
pub enum Node {
    /// A regular file.
    File(FileInfo),
    /// A folder.
    Folder(Folder),
    /// Anything else, symbolic links among it: passed over and never followed.
    Other,
}

/// A folder that could not be enumerated.
#[derive(Debug, PartialEq, Eq)]
pub struct ScanIoError {
    pub folder: String,
}

/// What a scan found: the ebooks in listing order, and the paths of the regular
/// files that were passed over for their content type, in the order in which the
/// walk met them.
#[derive(Debug, PartialEq, Eq)]
pub struct FolderFiles {
    pub books: Vec<FileEntry>,
    pub unsupported: Vec<String>,
}

/// What the walk of a folder meets.
pub enum Met {
    /// A regular file of an accepted format.
    Book(FileView),
    /// A regular file of any other content type, by its path.
    Unsupported(Seq<char>),
    /// A folder that could not be enumerated, by its name.
    Unreadable(Seq<char>),
}

/// The format of a file with the given content type, if it is an accepted one.
pub open spec fn format_of(content_type: Option<String>) -> Option<Format> {
    match content_type {
        Some(mime) => Format::of_mime(mime@),
        None => None,
    }
}

/// What the walk meets at a regular file in the folder named `parent`.
pub open spec fn meet_file(info: FileInfo, parent: Seq<char>, parent_key: Seq<u8>) -> Met {
    match format_of(info.content_type) {
        Some(format) => Met::Book(
            FileView {
                path: info.path@,
                parent,
                parent_key,
                name: info.name@,
                name_key: info.name_key@,
                content_type: info.content_type->Some_0@,
                format,
            },
        ),
        None => Met::Unsupported(info.path@),
    }
}

/// What the walk of a folder meets, in order: for a folder that could not be
/// enumerated, that folder; otherwise what it meets at each entry in turn.
pub open spec fn walk(folder: Folder, recursive: bool) -> Seq<Met>
    decreases folder, 1nat, 0nat,
{
    match folder.children {
        None => seq![Met::Unreadable(folder.name@)],
        Some(nodes) => walk_nodes(folder, nodes.len() as nat, recursive),
    }
}

/// What the walk meets at the first `n` entries of a folder.
pub open spec fn walk_nodes(folder: Folder, n: nat, recursive: bool) -> Seq<Met>
    decreases folder, 0nat, n,
{
    match folder.children {
        Some(nodes) if 0 < n <= nodes.len() => walk_nodes(folder, (n - 1) as nat, recursive)
            + meet(folder, (n - 1) as nat, recursive),
        _ => Seq::empty(),
    }
}

/// What the walk meets at entry `i` of a folder: a regular file itself, below a
/// folder what the walk of that folder meets if the scan is recursive, and nothing
/// at anything else.
pub open spec fn meet(folder: Folder, i: nat, recursive: bool) -> Seq<Met>
    decreases folder, 0nat, 0nat,
{
    match folder.children {
        Some(nodes) if i < nodes.len() => match nodes[i as int] {
            Node::File(info) => seq![meet_file(info, folder.name@, folder.name_key@)],
            Node::Folder(sub) => if recursive {
                walk(sub, recursive)
            } else {
                Seq::empty()
            },
            Node::Other => Seq::empty(),
        },
        _ => Seq::empty(),
    }
}

/// The ebooks among what a walk met, in order.
pub open spec fn books_met(met: Seq<Met>) -> Seq<FileView>
    decreases met.len(),
{
    if met.len() == 0 {
        Seq::empty()
    } else {
        let before = books_met(met.drop_last());
        match met.last() {
            Met::Book(file) => before.push(file),
            _ => before,
        }
    }
}

/// The paths of the files that a walk passed over, in order.
pub open spec fn unsupported_met(met: Seq<Met>) -> Seq<Seq<char>>
    decreases met.len(),
{
    if met.len() == 0 {
        Seq::empty()
    } else {
        let before = unsupported_met(met.drop_last());
        match met.last() {
            Met::Unsupported(path) => before.push(path),
            _ => before,
        }
    }
}

/// The first folder that a walk could not enumerate.
pub open spec fn first_unreadable(met: Seq<Met>) -> Option<Seq<char>>
    decreases met.len(),
{
    if met.len() == 0 {
        None
    } else {
        match first_unreadable(met.drop_last()) {
            Some(folder) => Some(folder),
            None => match met.last() {
                Met::Unreadable(folder) => Some(folder),
                _ => None,
            },
        }
    }
}

/// A walk that met `met` and no folder it could not enumerate took the lists of
/// books and of passed-over files from `books_before` and `unsupported_before` to
/// `books_after` and `unsupported_after`.
pub open spec fn gathered(
    met: Seq<Met>,
    books_before: Seq<FileView>,
    books_after: Seq<FileView>,
    unsupported_before: Seq<Seq<char>>,
    unsupported_after: Seq<Seq<char>>,
) -> bool {
    &&& first_unreadable(met) is None
    &&& books_after == books_before + books_met(met)
    &&& unsupported_after == unsupported_before + unsupported_met(met)
}

/// What was met on two stretches of a walk is what was met on the first and then
/// on the second.
pub proof fn lemma_met_concat(a: Seq<Met>, b: Seq<Met>)
    ensures
        books_met(a + b) == books_met(a) + books_met(b),
        unsupported_met(a + b) == unsupported_met(a) + unsupported_met(b),
        first_unreadable(a + b) == match first_unreadable(a) {
            Some(folder) => Some(folder),
            None => first_unreadable(b),
        },
    decreases b.len(),
{
    if b.len() == 0 {
        assert(a + b =~= a);
        assert(books_met(a) + books_met(b) =~= books_met(a));
        assert(unsupported_met(a) + unsupported_met(b) =~= unsupported_met(a));
    } else {
        lemma_met_concat(a, b.drop_last());
        assert((a + b).drop_last() =~= a + b.drop_last());
        assert((a + b).last() == b.last());
        assert(books_met(a + b) =~= books_met(a) + books_met(b));
        assert(unsupported_met(a + b) =~= unsupported_met(a) + unsupported_met(b));
    }
}

/// What was met where the walk met one thing only.
pub proof fn lemma_met_single(one: Met)
    ensures
        books_met(seq![one]) == match one {
            Met::Book(file) => seq![file],
            _ => Seq::<FileView>::empty(),
        },
        unsupported_met(seq![one]) == match one {
            Met::Unsupported(path) => seq![path],
            _ => Seq::<Seq<char>>::empty(),
        },
        first_unreadable(seq![one]) == match one {
            Met::Unreadable(folder) => Some(folder),
            _ => None::<Seq<char>>,
        },
{
    let met = seq![one];
    assert(met.drop_last() =~= Seq::<Met>::empty());
    assert(met.last() == one);
    assert(books_met(met.drop_last()) =~= Seq::<FileView>::empty());
    assert(unsupported_met(met.drop_last()) =~= Seq::<Seq<char>>::empty());
    assert(first_unreadable(met.drop_last()) is None);
    match one {
        Met::Book(file) => {
            assert(books_met(met) =~= seq![file]);
        },
        Met::Unsupported(path) => {
            assert(unsupported_met(met) =~= seq![path]);
        },
        Met::Unreadable(folder) => {},
    }
}

/// A folder that the walk could not enumerate at one entry is met by the walk of
/// every longer stretch of entries.
pub proof fn lemma_unreadable_stays(folder: Folder, i: nat, n: nat, recursive: bool)
    requires
        folder.children is Some,
        i < n <= folder.children->Some_0.len(),
        first_unreadable(walk_nodes(folder, i, recursive)) is None,
        first_unreadable(meet(folder, i, recursive)) is Some,
    ensures
        first_unreadable(walk_nodes(folder, n, recursive)) == first_unreadable(
            meet(folder, i, recursive),
        ),
    decreases n,
{
    if n == i + 1 {
        lemma_met_concat(walk_nodes(folder, i, recursive), meet(folder, i, recursive));
    } else {
        lemma_unreadable_stays(folder, i, (n - 1) as nat, recursive);
        lemma_met_concat(
            walk_nodes(folder, (n - 1) as nat, recursive),
            meet(folder, (n - 1) as nat, recursive),
        );
    }
}

/// Every book among what was met has a content type that names its format.
pub open spec fn all_ebooks(met: Seq<Met>) -> bool {
    forall|k: int|
        0 <= k < met.len() ==> (#[trigger] met[k] matches Met::Book(file) ==> is_ebook(file))
}

/// The law of the allow-list: every book that the walk of a folder meets has a
/// content type that names its format.
pub proof fn lemma_walk_meets_ebooks(folder: Folder, recursive: bool)
    ensures
        all_ebooks(walk(folder, recursive)),
    decreases folder, 1nat, 0nat,
{
    match folder.children {
        Some(nodes) => {
            lemma_walk_nodes_meets_ebooks(folder, nodes.len() as nat, recursive);
        },
        None => {},
    }
}

/// Every book that the walk meets at the first `n` entries of a folder has a
/// content type that names its format.
pub proof fn lemma_walk_nodes_meets_ebooks(folder: Folder, n: nat, recursive: bool)
    ensures
        all_ebooks(walk_nodes(folder, n, recursive)),
    decreases folder, 0nat, n,
{
    match folder.children {
        Some(nodes) => {
            if 0 < n <= nodes.len() {
                let m = (n - 1) as nat;
                lemma_walk_nodes_meets_ebooks(folder, m, recursive);
                lemma_meet_meets_ebooks(folder, m, recursive);
                let before = walk_nodes(folder, m, recursive);
                let here = meet(folder, m, recursive);
                assert forall|k: int| 0 <= k < (before + here).len() implies (#[trigger] (before
                    + here)[k] matches Met::Book(file) ==> is_ebook(file)) by {
                    if k < before.len() {
                        assert((before + here)[k] == before[k]);
                    } else {
                        assert((before + here)[k] == here[k - before.len()]);
                    }
                }
            }
        },
        None => {},
    }
}

/// Every book that the walk meets at one entry of a folder has a content type that
/// names its format.
pub proof fn lemma_meet_meets_ebooks(folder: Folder, i: nat, recursive: bool)
    ensures
        all_ebooks(meet(folder, i, recursive)),
    decreases folder, 0nat, 0nat,
{
    match folder.children {
        Some(nodes) => {
            if i < nodes.len() {
                match nodes[i as int] {
                    Node::Folder(sub) => {
                        if recursive {
                            lemma_walk_meets_ebooks(sub, recursive);
                        }
                    },
                    _ => {},
                }
            }
        },
        None => {},
    }
}

/// The books among what a walk met are ebooks if every book that it met is one.
pub proof fn lemma_books_met_are_ebooks(met: Seq<Met>)
    requires
        all_ebooks(met),
    ensures
        forall|i: int| 0 <= i < books_met(met).len() ==> is_ebook(#[trigger] books_met(met)[i]),
    decreases met.len(),
{
    if met.len() > 0 {
        let rest = met.drop_last();
        assert(all_ebooks(rest)) by {
            assert forall|k: int| 0 <= k < rest.len() implies (#[trigger] rest[k] matches Met::Book(
                file,
            ) ==> is_ebook(file)) by {
                assert(rest[k] == met[k]);
            }
        }
        lemma_books_met_are_ebooks(rest);
        assert(met[met.len() - 1] == met.last());
        match met.last() {
            Met::Book(file) => {
                assert(is_ebook(file));
                assert forall|i: int| 0 <= i < books_met(met).len() implies is_ebook(
                    #[trigger] books_met(met)[i],
                ) by {
                    if i < books_met(rest).len() {
                        assert(books_met(met)[i] == books_met(rest)[i]);
                    }
                }
            },
            _ => {},
        }
    }
}

/// The accepted format that a content type names.
pub fn accepted_format(content_type: &Option<String>) -> (format: Option<Format>)
    ensures
        format == format_of(*content_type),
{
    match content_type {
        Some(mime) => match Format::from_str(mime.as_str()) {
            Ok(format) => Some(format),
            Err(_) => None,
        },
        None => None,
    }
}

/// Walks an enumerated folder and gathers the ebooks and the passed-over files that
/// it meets; stops at the first folder that could not be enumerated.
pub fn load_files_from_folder_internal(
    folder: &Folder,
    recursive: bool,
    books: &mut Vec<FileEntry>,
    unsupported: &mut Vec<String>,
) -> (r: Result<(), ScanIoError>)
    ensures
        match r {
            Ok(_) => gathered(
                walk(*folder, recursive),
                views(old(books)@),
                views(final(books)@),
                texts(old(unsupported)@),
                texts(final(unsupported)@),
            ),
            Err(e) => first_unreadable(walk(*folder, recursive)) == Some(e.folder@),
        },
    decreases folder,
{
    let ghost books_before = views(books@);
    let ghost unsupported_before = texts(unsupported@);
    let nodes = match &folder.children {
        None => {
            proof {
                lemma_met_single(Met::Unreadable(folder.name@));
            }
            return Err(ScanIoError { folder: folder.name.clone() });
        },
        Some(nodes) => nodes,
    };
    let mut i: usize = 0;
    assert(books_before + books_met(Seq::empty()) =~= books_before);
    assert(unsupported_before + unsupported_met(Seq::empty()) =~= unsupported_before);
    while i < nodes.len()
        invariant
            i <= nodes.len(),
            folder.children == Some(*nodes),
            gathered(
                walk_nodes(*folder, i as nat, recursive),
                books_before,
                views(books@),
                unsupported_before,
                texts(unsupported@),
            ),
        decreases nodes.len() - i,
    {
        let ghost so_far = walk_nodes(*folder, i as nat, recursive);
        let ghost here = meet(*folder, i as nat, recursive);
        let ghost listed = views(books@);
        let ghost passed = texts(unsupported@);
        proof {
            lemma_met_concat(so_far, here);
        }
        match &nodes[i] {
            Node::File(info) => {
                proof {
                    lemma_met_single(here[0]);
                    assert(here =~= seq![here[0]]);
                }
                match accepted_format(&info.content_type) {
                    Some(format) => {
                        let entry = FileEntry {
                            path: info.path.clone(),
                            parent: folder.name.clone(),
                            parent_key: folder.name_key.clone(),
                            name: info.name.clone(),
                            name_key: info.name_key.clone(),
                            content_type: match &info.content_type {
                                Some(mime) => mime.clone(),
                                None => String::new(),
                            },
                            format,
                        };
                        assert(here[0] == Met::Book(entry@));
                        assert(books_met(here) =~= seq![entry@]);
                        assert(unsupported_met(here) =~= Seq::<Seq<char>>::empty());
                        books.push(entry);
                        assert(views(books@) =~= listed.push(entry@));
                        assert(views(books@) =~= books_before + books_met(so_far + here));
                        assert(texts(unsupported@) =~= unsupported_before + unsupported_met(
                            so_far + here,
                        ));
                    },
                    None => {
                        let path = info.path.clone();
                        assert(here[0] == Met::Unsupported(path@));
                        assert(unsupported_met(here) =~= seq![path@]);
                        assert(books_met(here) =~= Seq::<FileView>::empty());
                        unsupported.push(path);
                        assert(texts(unsupported@) =~= passed.push(path@));
                        assert(views(books@) =~= books_before + books_met(so_far + here));
                        assert(texts(unsupported@) =~= unsupported_before + unsupported_met(
                            so_far + here,
                        ));
                    },
                }
            },
            Node::Folder(sub) => {
                if recursive {
                    match load_files_from_folder_internal(sub, recursive, books, unsupported) {
                        Ok(_) => {
                            assert(views(books@) =~= books_before + books_met(so_far + here));
                            assert(texts(unsupported@) =~= unsupported_before + unsupported_met(
                                so_far + here,
                            ));
                        },
                        Err(e) => {
                            proof {
                                lemma_unreadable_stays(
                                    *folder,
                                    i as nat,
                                    nodes.len() as nat,
                                    recursive,
                                );
                            }
                            return Err(e);
                        },
                    }
                } else {
                    assert(so_far + here =~= so_far);
                }
            },
            Node::Other => {
                assert(so_far + here =~= so_far);
            },
        }
        i += 1;
    }
    Ok(())
}

/// Lists the ebooks below an enumerated folder.
///
/// The walk goes through the folder's entries and, if `recursive`, below its
/// folders; it keeps each regular file whose content type is an accepted format
/// and passes over the others. A folder on its way that could not be enumerated
/// fails the scan. The books come back in listing order, each path once (see
/// [`is_listing_of`]).
pub fn load_files_from_folder(folder: &Folder, recursive: bool) -> (r: Result<
    FolderFiles,
    ScanIoError,
>)
    ensures
        match r {
            Ok(found) => {
                &&& first_unreadable(walk(*folder, recursive)) is None
                &&& is_listing_of(views(found.books@), books_met(walk(*folder, recursive)))
                &&& forall|i: int|
                    0 <= i < found.books@.len() ==> is_ebook(#[trigger] views(found.books@)[i])
                &&& texts(found.unsupported@) == unsupported_met(walk(*folder, recursive))
            },
            Err(e) => first_unreadable(walk(*folder, recursive)) == Some(e.folder@),
        },
{
    let mut books: Vec<FileEntry> = Vec::new();
    let mut unsupported: Vec<String> = Vec::new();
    match load_files_from_folder_internal(folder, recursive, &mut books, &mut unsupported) {
        Ok(_) => {
            assert(views(books@) =~= books_met(walk(*folder, recursive)));
            assert(texts(unsupported@) =~= unsupported_met(walk(*folder, recursive)));
            let listing = order_files(books);
            proof {
                lemma_walk_meets_ebooks(*folder, recursive);
                lemma_books_met_are_ebooks(walk(*folder, recursive));
                assert forall|i: int| 0 <= i < listing@.len() implies is_ebook(
                    #[trigger] views(listing@)[i],
                ) by {
                    let k = choose|k: int|
                        is_first(views(books@), k) && views(listing@)[i] == views(books@)[k];
                    assert(is_ebook(books_met(walk(*folder, recursive))[k]));
                }
            }
            Ok(FolderFiles { books: listing, unsupported })
        },
        Err(e) => Err(e),
    }
}

/// The law of the scan: however two folders were enumerated, if the walks of both
/// meet the same books and none of them twice, both scans list them alike.
pub proof fn lemma_scan_independent_of_enumeration(
    one: Folder,
    other: Folder,
    recursive: bool,
    listing_one: Seq<FileView>,
    listing_other: Seq<FileView>,
)
    requires
        distinct_paths(books_met(walk(one, recursive))),
        distinct_paths(books_met(walk(other, recursive))),
        forall|file: FileView|
            books_met(walk(one, recursive)).contains(file) <==> books_met(
                walk(other, recursive),
            ).contains(file),
        is_listing_of(listing_one, books_met(walk(one, recursive))),
        is_listing_of(listing_other, books_met(walk(other, recursive))),
    ensures
        listing_one == listing_other,
{
    lemma_listing_independent_of_order(
        books_met(walk(one, recursive)),
        books_met(walk(other, recursive)),
        listing_one,
        listing_other,
    );
}

/// A rank as std's three-way order.
pub open spec fn ordering_of(rank: Rank) -> Ordering {
    match rank {
        Rank::Before => Ordering::Less,
        Rank::Same => Ordering::Equal,
        Rank::After => Ordering::Greater,
    }
}

/// Orders two names as a file manager does: a name that starts with `.` or `#` is
/// greater than one that does not, and two names on the same side of that rule are
/// ordered by their collation keys.
pub fn cmp_like_nautilus(filename_a: &str, key_a: &[u8], filename_b: &str, key_b: &[u8]) -> (order:
    Ordering)
    ensures
        order == ordering_of(name_rank(filename_a@, key_a@, filename_b@, key_b@)),
{
    match rank_names(filename_a, key_a, filename_b, key_b) {
        Rank::Before => Ordering::Less,
        Rank::Same => Ordering::Equal,
        Rank::After => Ordering::Greater,
    }
}

/// Orders two files: by the folders they lie in, and within one folder by their
/// names, each as [`cmp_like_nautilus`] orders names.
pub fn cmp_two_files(a: &FileEntry, b: &FileEntry) -> (order: Ordering)
    ensures
        order == ordering_of(file_rank(a@, b@)),
{
    match rank_files(a, b) {
        Rank::Before => Ordering::Less,
        Rank::Same => Ordering::Equal,
        Rank::After => Ordering::Greater,
    }
}

} // verus!
