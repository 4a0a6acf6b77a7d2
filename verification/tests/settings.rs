use bookx::settings::Key;

const ALL: [(Key, &str); 7] = [
    (Key::ApiLookupDomain, "api-lookup-domain"),
    (Key::DarkMode, "dark-mode"),
    (Key::Notifications, "notifications"),
    (Key::WindowWidth, "window-width"),
    (Key::WindowHeight, "window-height"),
    (Key::IsMaximized, "is-maximized"),
    (Key::BooksDir, "books-dir"),
];

#[test]
fn keys_are_named_in_kebab_case() {
    for (key, name) in ALL {
        assert_eq!(key.to_string(), name);
    }
}

#[test]
fn keys_are_found_by_name() {
    for (key, name) in ALL {
        assert_eq!(Key::from_str(name), Some(key));
        assert_eq!(Key::from_str(&key.to_string()), Some(key));
    }
}

#[test]
fn unknown_names_give_no_key() {
    assert_eq!(Key::from_str(""), None);
    assert_eq!(Key::from_str("BooksDir"), None);
    assert_eq!(Key::from_str("books_dir"), None);
    assert_eq!(Key::from_str("books-dir "), None);
}
