use cortex::document::{event_path, Document, DocumentEvent, FileType};

#[test]
fn file_type_from_extension() {
    assert!(matches!(FileType::from_extension("md"), FileType::Markdown));
    assert!(matches!(FileType::from_extension("markdown"), FileType::Markdown));
    assert!(matches!(FileType::from_extension("txt"), FileType::PlainText));
    assert!(matches!(FileType::from_extension("text"), FileType::PlainText));
    match FileType::from_extension("rs") {
        FileType::Code(l) => assert_eq!(l, "rs"),
        _ => panic!("rs is code"),
    }
    assert!(matches!(FileType::from_extension("pdf"), FileType::Unknown));
    assert!(matches!(FileType::from_extension("MD"), FileType::Unknown));
}

#[test]
fn file_type_names() {
    assert_eq!(FileType::Markdown.as_str(), "markdown");
    assert_eq!(FileType::PlainText.as_str(), "plaintext");
    assert_eq!(FileType::Code("py".to_string()).as_str(), "py");
    assert_eq!(FileType::Unknown.as_str(), "unknown");
}

#[test]
fn file_type_name_read_back() {
    for t in [FileType::Markdown, FileType::Code("go".to_string()), FileType::Unknown] {
        let back = FileType::from_extension(t.as_str());
        assert_eq!(back.as_str(), t.as_str());
    }
    // the stored name of plain text is not an extension
    assert!(matches!(FileType::from_extension(FileType::PlainText.as_str()), FileType::Unknown));
}

#[test]
fn hash_of_empty_content() {
    assert_eq!(
        Document::compute_hash(""),
        "af1349b9f5f9a1a6a0404dea36dcc9499bcb25c9adc112b7cc9a93cae41f3262"
    );
}

#[test]
fn hash_is_lowercase_hex_and_depends_on_content() {
    let a = Document::compute_hash("hello");
    let b = Document::compute_hash("hello!");
    assert_eq!(a.len(), 64);
    assert!(a.chars().all(|c| c.is_ascii_hexdigit() && !c.is_ascii_uppercase()));
    assert_ne!(a, b);
    assert_eq!(a, Document::compute_hash("hello"));
    assert_ne!(a, "hello");
}

#[test]
fn event_paths() {
    assert_eq!(event_path(&DocumentEvent::Created("/a".to_string())), "/a");
    assert_eq!(event_path(&DocumentEvent::Modified("/b".to_string())), "/b");
    assert_eq!(event_path(&DocumentEvent::Deleted("/c".to_string())), "/c");
}
