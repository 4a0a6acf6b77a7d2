//! Where the files of a book live: path joining, the form-encoding that makes an
//! identifier safe as a file name, and the per-user directories.

use vstd::prelude::*;
use vstd::string::StringSliceAdditionalSpecFns;
use vstd::utf8::encode_utf8;
use crate::text::same_text;

verus! {

/// The directory name under which Bookx keeps its files in each per-user directory.
pub open spec fn pkgname() -> Seq<char> {
    "bookx"@
}

/// The extension of a store whose caller names none.
pub open spec fn default_extension() -> Seq<char> {
    "json"@
}

/// The per-user base directories, as the desktop reports them.
#[derive(Debug)]
pub struct UserDirs {
    pub cache: String,
    pub config: String,
    pub data: String,
}

impl UserDirs {
    /// The base directory for a kind of file: `"cache"`, `"config"`, and the data
    /// directory for every other word.
    pub open spec fn of_kind(self, kind: Seq<char>) -> Seq<char> {
        if kind == "cache"@ {
            self.cache@
        } else if kind == "config"@ {
            self.config@
        } else {
            self.data@
        }
    }
}

/// `part` below `base`: an absolute `part` stands alone, and one separator is put
/// between the two unless `base` is empty or brings its own.
pub open spec fn joined_path(base: Seq<char>, part: Seq<char>) -> Seq<char> {
    if part.len() > 0 && part[0] == '/' {
        part
    } else if base.len() == 0 || base.last() == '/' {
        base + part
    } else {
        base + "/"@ + part
    }
}

/// Bytes that form-encoding leaves as they are: the ASCII letters and digits and
/// `*`, `-`, `.` and `_`.
pub open spec fn is_unreserved(byte: u8) -> bool {
    byte == 0x2A || byte == 0x2D || byte == 0x2E || byte == 0x5F || (0x30 <= byte <= 0x39) || (0x41
        <= byte <= 0x5A) || (0x61 <= byte <= 0x7A)
}

/// The upper-case hexadecimal digit of a number below sixteen.
pub open spec fn hex_digit(nibble: u8) -> char {
    if nibble < 10 {
        (0x30 + nibble) as char
    } else {
        (0x37 + nibble) as char
    }
}

/// The form-encoding of one byte: itself, `+` for a space, or `%` and two digits.
pub open spec fn form_encoded_byte(byte: u8) -> Seq<char> {
    if is_unreserved(byte) {
        seq![byte as char]
    } else if byte == 0x20 {
        seq!['+']
    } else {
        seq!['%', hex_digit(byte / 16), hex_digit(byte % 16)]
    }
}

/// The `application/x-www-form-urlencoded` serialisation of a byte string.
pub open spec fn form_encoded(bytes: Seq<u8>) -> Seq<char>
    decreases bytes.len(),
{
    if bytes.len() == 0 {
        Seq::empty()
    } else {
        form_encoded(bytes.drop_last()) + form_encoded_byte(bytes.last())
    }
}

/// The path of the file that belongs to `key`: below the base directory of `kind`,
/// in the Bookx directory, named by the form-encoding of the key's UTF-8 bytes, a dot and the extension.
pub open spec fn stored_path(
    dirs: UserDirs,
    kind: Seq<char>,
    key: Seq<char>,
    extension: Seq<char>,
) -> Seq<char> {
    joined_path(
        joined_path(dirs.of_kind(kind), pkgname()),
        form_encoded(encode_utf8(key)) + "."@ + extension,
    )
}

/// Calls `url::form_urlencoded::byte_serialize` on the UTF-8 bytes of `text` and
/// gathers the pieces. The contract restates that serializer: letters, digits,
/// `*`, `-`, `.` and `_` stay, a space becomes `+`, any other byte becomes `%`
/// and its two upper-case hexadecimal digits.
#[verifier::external_body]
pub(crate) fn byte_serialize(text: &str) -> (encoded: String)
    ensures
        encoded@ == form_encoded(text.spec_bytes()),
{
    url::form_urlencoded::byte_serialize(text.as_bytes()).collect()
}

/// Joins two paths as `std::path::Path::join` does for paths in `/` notation.
pub fn join_path(base: &str, part: &str) -> (path: String)
    ensures
        path@ == joined_path(base@, part@),
{
    if !part.is_empty() && part.get_char(0) == '/' {
        return part.to_owned();
    }
    let n: usize = base.unicode_len();
    if n == 0 || base.get_char(n - 1) == '/' {
        base.to_owned().concat(part)
    } else {
        base.to_owned().concat("/").concat(part)
    }
}

/// The base directory for a kind of file.
pub fn base_dir<'a>(dirs: &'a UserDirs, kind: &str) -> (dir: &'a String)
    ensures
        dir@ == dirs.of_kind(kind@),
{
    if same_text(kind, "cache") {
        &dirs.cache
    } else if same_text(kind, "config") {
        &dirs.config
    } else {
        &dirs.data
    }
}

/// The path of the file that belongs to `key` (see [`stored_path`]); without an
/// extension the file is a `.json` file.
pub fn get_path(kind: &str, key: &str, extension: Option<&str>, dirs: &UserDirs) -> (path: String)
    ensures
        path@ == stored_path(
            *dirs,
            kind@,
            key@,
            match extension {
                Some(e) => e@,
                None => default_extension(),
            },
        ),
{
    let folder = join_path(base_dir(dirs, kind).as_str(), "bookx");
    let name = byte_serialize(key).concat(".");
    let name = match extension {
        Some(e) => name.concat(e),
        None => name.concat("json"),
    };
    join_path(folder.as_str(), name.as_str())
}

} // verus!
