use bookx::format::Format;
use bookx::order::comes_before;
use bookx::order::contains_path;
use bookx::order::insert_ordered;
use bookx::order::is_sorted_last;
use bookx::order::order_files;
use bookx::order::rank_bytes;
use bookx::order::rank_files;
use bookx::order::rank_names;
use bookx::order::FileEntry;
use bookx::order::Rank;
use bookx::utils::accepted_format;
use bookx::utils::cmp_like_nautilus;
use bookx::utils::cmp_two_files;
use bookx::utils::load_files_from_folder;
use bookx::utils::FileInfo;
use bookx::utils::Folder;
use bookx::utils::Node;
use bookx::utils::ScanIoError;
use std::cmp::Ordering;

const EPUB: &str = "application/epub+zip";

// a stand-in for the desktop's collation: case is ignored
fn key(name: &str) -> Vec<u8> {
    name.to_lowercase().into_bytes()
}

fn entry(parent: &str, name: &str) -> FileEntry {
    FileEntry {
        path: format!("/root/{}/{}", parent, name),
        parent: String::from(parent),
        parent_key: key(parent),
        name: String::from(name),
        name_key: key(name),
        content_type: String::from(EPUB),
        format: Format::EPUB,
    }
}

fn file(folder: &str, name: &str, content_type: Option<&str>) -> Node {
    Node::File(FileInfo {
        path: format!("{}/{}", folder, name),
        name: String::from(name),
        name_key: key(name),
        content_type: content_type.map(String::from),
    })
}

fn folder(name: &str, children: Option<Vec<Node>>) -> Folder {
    Folder { name: String::from(name), name_key: key(name), children }
}

fn paths(files: &[FileEntry]) -> Vec<&str> {
    files.iter().map(|f| f.path.as_str()).collect()
}

#[test]
fn bytes_compare_lexicographically() {
    assert_eq!(rank_bytes(b"abc", b"abd"), Rank::Before);
    assert_eq!(rank_bytes(b"abd", b"abc"), Rank::After);
    assert_eq!(rank_bytes(b"abc", b"abc"), Rank::Same);
    assert_eq!(rank_bytes(b"ab", b"abc"), Rank::Before);
    assert_eq!(rank_bytes(b"abc", b"ab"), Rank::After);
    assert_eq!(rank_bytes(b"", b""), Rank::Same);
    assert_eq!(rank_bytes(b"", b"a"), Rank::Before);
    assert_eq!(rank_bytes(&[0xff], &[0x00, 0x01]), Rank::After);
}

#[test]
fn hidden_names_sort_last() {
    assert!(is_sorted_last(".a.epub"));
    assert!(is_sorted_last("#draft"));
    assert!(!is_sorted_last("b.epub"));
    assert!(!is_sorted_last(""));
    assert!(!is_sorted_last("a.#"));
    assert_eq!(rank_names("b.epub", &key("b.epub"), ".a.epub", &key(".a.epub")), Rank::Before);
    assert_eq!(rank_names(".a.epub", &key(".a.epub"), "b.epub", &key("b.epub")), Rank::After);
    assert_eq!(rank_names("#z", &key("#z"), "a", &key("a")), Rank::After);
}

#[test]
fn names_on_the_same_side_go_by_key() {
    assert_eq!(rank_names("a", &key("a"), "B", &key("B")), Rank::Before);
    assert_eq!(rank_names(".b", &key(".b"), ".a", &key(".a")), Rank::After);
    assert_eq!(rank_names(".a", &key(".a"), "#a", &[b'.', b'a']), Rank::Same);
    assert_eq!(rank_names("x", &[1, 2], "y", &[1, 2]), Rank::Same);
}

#[test]
fn nautilus_like_comparison() {
    assert_eq!(cmp_like_nautilus("b.epub", &key("b.epub"), ".a.epub", &key(".a.epub")), Ordering::Less);
    assert_eq!(cmp_like_nautilus(".a.epub", &key(".a.epub"), "b.epub", &key("b.epub")), Ordering::Greater);
    assert_eq!(cmp_like_nautilus("a", &key("a"), "A", &key("A")), Ordering::Equal);
    assert_eq!(cmp_like_nautilus("a", &key("a"), "b", &key("b")), Ordering::Less);
    assert_eq!(cmp_like_nautilus("", &key(""), ".", &key(".")), Ordering::Less);
}

#[test]
fn files_compare_by_folder_then_name() {
    assert_eq!(cmp_two_files(&entry("a", "z.epub"), &entry("b", "a.epub")), Ordering::Less);
    assert_eq!(cmp_two_files(&entry("b", "a.epub"), &entry("a", "z.epub")), Ordering::Greater);
    assert_eq!(cmp_two_files(&entry("a", "a.epub"), &entry("a", "b.epub")), Ordering::Less);
    assert_eq!(cmp_two_files(&entry("a", "A.epub"), &entry("a", "a.epub")), Ordering::Equal);
    assert_eq!(cmp_two_files(&entry(".hidden", "a.epub"), &entry("z", "z.epub")), Ordering::Greater);
    assert_eq!(rank_files(&entry("a", "a.epub"), &entry("a", ".a.epub")), Rank::Before);
}

#[test]
fn ties_are_broken_by_path() {
    let upper = entry("a", "A.epub");
    let lower = entry("a", "a.epub");
    assert_eq!(rank_files(&upper, &lower), Rank::Same);
    assert!(comes_before(&upper, &lower));
    assert!(!comes_before(&lower, &upper));
    assert!(!comes_before(&upper, &upper));
}

#[test]
fn dotfile_sorts_last_whatever_the_enumeration_order() {
    let one = order_files(vec![entry("books", "b.epub"), entry("books", ".a.epub")]);
    let other = order_files(vec![entry("books", ".a.epub"), entry("books", "b.epub")]);
    assert_eq!(paths(&one), vec!["/root/books/b.epub", "/root/books/.a.epub"]);
    assert_eq!(one, other);
}

#[test]
fn listing_is_independent_of_the_order_of_its_input() {
    let names = ["delta.epub", "Alpha.epub", ".hidden.epub", "charlie.epub", "#temp.epub", "bravo.epub"];
    let forward: Vec<FileEntry> = names.iter().map(|n| entry("books", n)).collect();
    let mut backward = forward.clone();
    backward.reverse();
    let mut rotated = forward.clone();
    rotated.rotate_left(2);
    let expected = vec![
        "/root/books/Alpha.epub",
        "/root/books/bravo.epub",
        "/root/books/charlie.epub",
        "/root/books/delta.epub",
        "/root/books/#temp.epub",
        "/root/books/.hidden.epub",
    ];
    assert_eq!(paths(&order_files(forward.clone())), expected);
    assert_eq!(order_files(backward), order_files(forward.clone()));
    assert_eq!(order_files(rotated), order_files(forward));
}

#[test]
fn listing_twice_gives_the_same_list() {
    let files = vec![entry("b", "x.epub"), entry("a", "y.epub"), entry("a", "x.epub")];
    let once = order_files(files.clone());
    let twice = order_files(once.clone());
    assert_eq!(once, order_files(files));
    assert_eq!(once, twice);
}

#[test]
fn listing_holds_each_path_once() {
    let mut second = entry("a", "x.epub");
    second.name_key = vec![0];
    let listing = order_files(vec![entry("a", "x.epub"), entry("a", "y.epub"), second, entry("a", "x.epub")]);
    assert_eq!(paths(&listing), vec!["/root/a/x.epub", "/root/a/y.epub"]);
    assert_eq!(listing[0].name_key, key("x.epub"));
    assert!(order_files(vec![]).is_empty());
}

#[test]
fn insert_keeps_the_order() {
    let mut listing = vec![entry("a", "a.epub"), entry("a", "c.epub")];
    assert!(contains_path(&listing, &String::from("/root/a/c.epub")));
    assert!(!contains_path(&listing, &String::from("/root/a/b.epub")));
    assert_eq!(insert_ordered(&mut listing, entry("a", "b.epub")), 1);
    assert_eq!(insert_ordered(&mut listing, entry("a", "d.epub")), 3);
    assert_eq!(insert_ordered(&mut listing, entry("0", "z.epub")), 0);
    assert_eq!(
        paths(&listing),
        vec!["/root/0/z.epub", "/root/a/a.epub", "/root/a/b.epub", "/root/a/c.epub", "/root/a/d.epub"]
    );
}

#[test]
fn content_types_on_the_allow_list() {
    assert_eq!(accepted_format(&Some(String::from(EPUB))), Some(Format::EPUB));
    assert_eq!(accepted_format(&Some(String::from("text/plain"))), None);
    assert_eq!(accepted_format(&None), None);
}

#[test]
fn scan_returns_only_the_epub() {
    let root = folder(
        "books",
        Some(vec![file("/books", "notes.txt", Some("text/plain")), file("/books", "foo.epub", Some(EPUB))]),
    );
    let found = load_files_from_folder(&root, true).unwrap();
    assert_eq!(paths(&found.books), vec!["/books/foo.epub"]);
    assert_eq!(found.books[0].parent, "books");
    assert_eq!(found.books[0].name, "foo.epub");
    assert_eq!(found.books[0].format, Format::EPUB);
    assert_eq!(found.books[0].content_type, EPUB);
    assert_eq!(found.unsupported, vec![String::from("/books/notes.txt")]);
}

#[test]
fn scan_goes_by_content_type_not_by_extension() {
    let root = folder(
        "books",
        Some(vec![
            file("/books", "fake.epub", Some("application/zip")),
            file("/books", "real.bin", Some(EPUB)),
            file("/books", "unknown.epub", None),
        ]),
    );
    let found = load_files_from_folder(&root, true).unwrap();
    assert_eq!(paths(&found.books), vec!["/books/real.bin"]);
    assert_eq!(found.unsupported, vec![String::from("/books/fake.epub"), String::from("/books/unknown.epub")]);
}

#[test]
fn scan_of_an_empty_folder() {
    let found = load_files_from_folder(&folder("books", Some(vec![])), true).unwrap();
    assert!(found.books.is_empty());
    assert!(found.unsupported.is_empty());
}

fn tree() -> Folder {
    folder(
        "books",
        Some(vec![
            file("/books", "zebra.epub", Some(EPUB)),
            Node::Folder(folder(
                "sub",
                Some(vec![
                    file("/books/sub", "b.epub", Some(EPUB)),
                    Node::Other,
                    Node::Folder(folder("sub/deep", Some(vec![file("/books/sub/deep", "c.epub", Some(EPUB))]))),
                    file("/books/sub", ".a.epub", Some(EPUB)),
                ]),
            )),
            file("/books", "apple.epub", Some(EPUB)),
            Node::Folder(folder(".hidden", Some(vec![file("/books/.hidden", "h.epub", Some(EPUB))]))),
        ]),
    )
}

#[test]
fn recursive_scan_orders_by_folder_then_name() {
    let found = load_files_from_folder(&tree(), true).unwrap();
    assert_eq!(
        paths(&found.books),
        vec![
            "/books/apple.epub",
            "/books/zebra.epub",
            "/books/sub/b.epub",
            "/books/sub/.a.epub",
            "/books/sub/deep/c.epub",
            "/books/.hidden/h.epub",
        ]
    );
}

#[test]
fn flat_scan_stays_in_the_folder() {
    let found = load_files_from_folder(&tree(), false).unwrap();
    assert_eq!(paths(&found.books), vec!["/books/apple.epub", "/books/zebra.epub"]);
}

#[test]
fn scan_never_returns_a_path_twice() {
    let root = folder(
        "books",
        Some(vec![
            file("/books", "a.epub", Some(EPUB)),
            file("/books", "b.epub", Some(EPUB)),
            file("/books", "a.epub", Some(EPUB)),
        ]),
    );
    let found = load_files_from_folder(&root, true).unwrap();
    assert_eq!(paths(&found.books), vec!["/books/a.epub", "/books/b.epub"]);
}

#[test]
fn unreadable_folder_is_reported_first() {
    assert_eq!(
        load_files_from_folder(&folder("books", None), true),
        Err(ScanIoError { folder: String::from("books") })
    );
    let root = folder(
        "books",
        Some(vec![
            file("/books", "a.epub", Some(EPUB)),
            Node::Folder(folder("locked", None)),
            Node::Folder(folder("also-locked", None)),
        ]),
    );
    assert_eq!(load_files_from_folder(&root, true), Err(ScanIoError { folder: String::from("locked") }));
}

#[test]
fn flat_scan_does_not_open_subfolders() {
    let root = folder(
        "books",
        Some(vec![file("/books", "a.epub", Some(EPUB)), Node::Folder(folder("locked", None))]),
    );
    let found = load_files_from_folder(&root, false).unwrap();
    assert_eq!(paths(&found.books), vec!["/books/a.epub"]);
}
