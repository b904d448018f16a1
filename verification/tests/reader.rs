use cortex::document::{Document, FileType};
use cortex::reader::document_from_file;

#[test]
fn document_of_markdown_file() {
    let d = document_from_file("/n/plan.md", "# Plan".to_string(), 6, 1700000000, "fs-watcher");
    assert_eq!(d.source_path, "/n/plan.md");
    assert_eq!(d.content, "# Plan");
    assert_eq!(d.content_hash, Document::compute_hash("# Plan"));
    assert!(matches!(d.metadata.file_type, FileType::Markdown));
    assert_eq!(d.metadata.title.as_deref(), Some("plan"));
    assert_eq!(d.metadata.size_bytes, 6);
    assert_eq!(d.metadata.modified_at, 1700000000);
    assert_eq!(d.metadata.source_plugin, "fs-watcher");
    assert_eq!(d.id.len(), 36);
}

#[test]
fn document_of_file_without_extension() {
    let d = document_from_file("/n/Makefile", String::new(), 0, 0, "fs-watcher");
    assert!(matches!(d.metadata.file_type, FileType::Unknown));
    assert_eq!(d.metadata.title.as_deref(), Some("Makefile"));
}

#[test]
fn fresh_ids_are_uuids_and_differ() {
    let a = document_from_file("/n/a.txt", "x".to_string(), 1, 0, "p");
    let b = document_from_file("/n/a.txt", "x".to_string(), 1, 0, "p");
    assert_ne!(a.id, b.id);
    for (i, c) in a.id.chars().enumerate() {
        if [8, 13, 18, 23].contains(&i) {
            assert_eq!(c, '-');
        } else {
            assert!(c.is_ascii_hexdigit() && !c.is_ascii_uppercase());
        }
    }
    assert_eq!(a.content_hash, b.content_hash);
}
