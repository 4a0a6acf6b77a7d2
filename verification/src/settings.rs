//! The keys under which Bookx keeps its settings.

use vstd::prelude::*;
use crate::text::same_text;

verus! {

/// A settings key.
#[derive(Debug, Clone, Copy, PartialEq, Eq, Structural)]
pub enum Key {
    // Client Backend
    ApiLookupDomain,
    // User Interface
    DarkMode,
    Notifications,
    WindowWidth,
    WindowHeight,
    IsMaximized,
    BooksDir,
}

impl Key {
    /// The name of the key in the settings schema: its words in lower case, joined by
    /// hyphens.
    pub open spec fn name(self) -> Seq<char> {
        match self {
            Key::ApiLookupDomain => "api-lookup-domain"@,
            Key::DarkMode => "dark-mode"@,
            Key::Notifications => "notifications"@,
            Key::WindowWidth => "window-width"@,
            Key::WindowHeight => "window-height"@,
            Key::IsMaximized => "is-maximized"@,
            Key::BooksDir => "books-dir"@,
        }
    }

    /// The key with the given name.
    pub open spec fn named(name: Seq<char>) -> Option<Key> {
        if name == Key::ApiLookupDomain.name() {
            Some(Key::ApiLookupDomain)
        } else if name == Key::DarkMode.name() {
            Some(Key::DarkMode)
        } else if name == Key::Notifications.name() {
            Some(Key::Notifications)
        } else if name == Key::WindowWidth.name() {
            Some(Key::WindowWidth)
        } else if name == Key::WindowHeight.name() {
            Some(Key::WindowHeight)
        } else if name == Key::IsMaximized.name() {
            Some(Key::IsMaximized)
        } else if name == Key::BooksDir.name() {
            Some(Key::BooksDir)
        } else {
            None
        }
    }

    /// The name of the key in the settings schema.
    pub fn to_string(&self) -> (name: String)
        ensures
            name@ == self.name(),
    {
        match self {
            Key::ApiLookupDomain => String::from_str("api-lookup-domain"),
            Key::DarkMode => String::from_str("dark-mode"),
            Key::Notifications => String::from_str("notifications"),
            Key::WindowWidth => String::from_str("window-width"),
            Key::WindowHeight => String::from_str("window-height"),
            Key::IsMaximized => String::from_str("is-maximized"),
            Key::BooksDir => String::from_str("books-dir"),
        }
    }

    /// The key with the given name, or `None` where no key has that name.
    pub fn from_str(name: &str) -> (key: Option<Key>)
        ensures
            key == Key::named(name@),
    {
        if same_text(name, "api-lookup-domain") {
            Some(Key::ApiLookupDomain)
        } else if same_text(name, "dark-mode") {
            Some(Key::DarkMode)
        } else if same_text(name, "notifications") {
            Some(Key::Notifications)
        } else if same_text(name, "window-width") {
            Some(Key::WindowWidth)
        } else if same_text(name, "window-height") {
            Some(Key::WindowHeight)
        } else if same_text(name, "is-maximized") {
            Some(Key::IsMaximized)
        } else if same_text(name, "books-dir") {
            Some(Key::BooksDir)
        } else {
            None
        }
    }
}

/// Every key is found again by its name.
pub proof fn lemma_key_round_trip(key: Key)
    ensures
        Key::named(key.name()) == Some(key),
{
    reveal_strlit("api-lookup-domain");
    reveal_strlit("dark-mode");
    reveal_strlit("notifications");
    reveal_strlit("window-width");
    reveal_strlit("window-height");
    reveal_strlit("is-maximized");
    reveal_strlit("books-dir");
    assert("api-lookup-domain"@.len() == 17);
    assert("dark-mode"@.len() == 9);
    assert("notifications"@.len() == 13);
    assert("window-width"@.len() == 12);
    assert("window-height"@.len() == 13);
    assert("is-maximized"@.len() == 12);
    assert("books-dir"@.len() == 9);
    assert("dark-mode"@[0] == 'd' && "books-dir"@[0] == 'b');
    assert("notifications"@[0] == 'n' && "window-height"@[0] == 'w');
    assert("window-width"@[0] == 'w' && "is-maximized"@[0] == 'i');
}

} // verus!
