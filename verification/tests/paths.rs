use bookx::paths::base_dir;
use bookx::paths::get_path;
use bookx::paths::join_path;
use bookx::text::same_text;
use bookx::paths::UserDirs;
use bookx::storage::Storage;

fn dirs() -> UserDirs {
    UserDirs {
        cache: String::from("/home/reader/.cache"),
        config: String::from("/home/reader/.config"),
        data: String::from("/home/reader/.local/share"),
    }
}

#[test]
fn join_puts_one_separator() {
    assert_eq!(join_path("/a", "b"), "/a/b");
    assert_eq!(join_path("/a/", "b"), "/a/b");
    assert_eq!(join_path("a", "b.png"), "a/b.png");
}

#[test]
fn join_with_empty_base_or_absolute_part() {
    assert_eq!(join_path("", "b"), "b");
    assert_eq!(join_path("/a", "/b"), "/b");
    assert_eq!(join_path("/a", ""), "/a/");
    assert_eq!(join_path("", ""), "");
}

#[test]
fn join_agrees_with_std_paths() {
    let cases = [("/a", "b"), ("/a/", "b"), ("", "b"), ("/a", "/b"), ("a/b", "c/d"), ("/", "x")];
    for (base, part) in cases {
        let expected = std::path::Path::new(base).join(part);
        assert_eq!(join_path(base, part), expected.to_str().unwrap());
    }
}

#[test]
fn base_dir_by_kind() {
    let dirs = dirs();
    assert_eq!(base_dir(&dirs, "cache"), "/home/reader/.cache");
    assert_eq!(base_dir(&dirs, "config"), "/home/reader/.config");
    assert_eq!(base_dir(&dirs, "data"), "/home/reader/.local/share");
    assert_eq!(base_dir(&dirs, "anything"), "/home/reader/.local/share");
}

#[test]
fn path_of_a_plain_key() {
    assert_eq!(
        get_path("data", "isbn-123", None, &dirs()),
        "/home/reader/.local/share/bookx/isbn-123.json"
    );
    assert_eq!(
        get_path("cache", "isbn-123", Some("png"), &dirs()),
        "/home/reader/.cache/bookx/isbn-123.png"
    );
}

#[test]
fn key_is_form_encoded() {
    assert_eq!(
        get_path("data", "urn:isbn:978 1/2", None, &dirs()),
        "/home/reader/.local/share/bookx/urn%3Aisbn%3A978+1%2F2.json"
    );
    assert_eq!(
        get_path("config", "caf\u{e9}~*-._", None, &dirs()),
        "/home/reader/.config/bookx/caf%C3%A9%7E*-._.json"
    );
}

#[test]
fn keys_that_differ_after_a_dot_get_different_files() {
    let first = get_path("data", "book.1", None, &dirs());
    let second = get_path("data", "book.2", None, &dirs());
    assert_eq!(first, "/home/reader/.local/share/bookx/book.1.json");
    assert_ne!(first, second);
}

#[test]
fn storage_path_is_the_same_path() {
    assert_eq!(
        Storage::get_path("cache", "a b", Some("png"), &dirs()),
        get_path("cache", "a b", Some("png"), &dirs())
    );
    assert_eq!(Storage::get_path("cache", "a b", None, &dirs()), "/home/reader/.cache/bookx/a+b.json");
}

#[test]
fn same_text_compares_contents() {
    assert!(same_text("abc", "abc"));
    assert!(!same_text("abc", "abd"));
    assert!(!same_text("abc", "ab"));
    assert!(same_text("", ""));
}
