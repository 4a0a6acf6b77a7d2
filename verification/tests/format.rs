use bookx::format::get_ebook_mime;
use bookx::format::is_ebook_mime;
use bookx::format::EBook;
use bookx::format::Format;
use bookx::format::FormatNotSupportedError;

#[test]
fn epub_mime_type_is_accepted() {
    assert_eq!(Format::from_str("application/epub+zip"), Ok(Format::EPUB));
    assert!(is_ebook_mime("application/epub+zip"));
}

#[test]
fn other_mime_types_are_refused_with_a_message() {
    let refused = Format::from_str("text/plain");
    assert_eq!(
        refused,
        Err(FormatNotSupportedError {
            details: String::from("text/plain is not supported format for book"),
        })
    );
    assert_eq!(
        refused.unwrap_err().to_string(),
        "text/plain is not supported format for book"
    );
    assert!(!is_ebook_mime("text/plain"));
    assert!(!is_ebook_mime(""));
    assert!(!is_ebook_mime("application/epub+zip "));
}

#[test]
fn mime_of_each_format() {
    assert_eq!(Format::EPUB.get_mime(), "application/epub+zip");
    assert_eq!(get_ebook_mime(EBook::Epub), "application/epub+zip");
}

#[test]
fn format_round_trips_through_its_mime_type() {
    for format in Format::iterator() {
        assert_eq!(Format::from_str(&format.get_mime()), Ok(format));
    }
}

#[test]
fn formats_listed() {
    assert_eq!(Format::iterator(), vec![Format::EPUB]);
    assert_eq!(Format::can_annotate(), vec![Format::EPUB]);
    assert_eq!(Format::default(), Format::EPUB);
}

#[test]
fn error_carries_its_message() {
    let error = FormatNotSupportedError::new("no such format");
    assert_eq!(error.details, "no such format");
    assert_eq!(error.to_string(), "no such format");
}
