use cortex::api::{DocumentResponse, MessageResponse, StatusResponse};
use cortex::config::CortexConfig;
use cortex::document::{DocumentMetadata, FileType};

#[test]
fn status_of_running_daemon() {
    let mut c = CortexConfig::default();
    c.watch.paths = vec!["/notes".to_string()];
    let s = StatusResponse::running(12, 3, 40, &c);
    assert_eq!(s.status, "running");
    assert_eq!((s.uptime_secs, s.document_count, s.chunk_count), (12, 3, 40));
    assert_eq!(s.watched_paths, vec!["/notes"]);
    assert_eq!(s.model, "all-MiniLM-L6-v2");
}

#[test]
fn listing_entry() {
    let meta = DocumentMetadata {
        title: Some("Notes".to_string()),
        file_type: FileType::Code("rs".to_string()),
        modified_at: 5,
        size_bytes: 99,
        source_plugin: "fs-watcher".to_string(),
    };
    let d = DocumentResponse::from_listing("id1".to_string(), &meta, "/n/x.rs".to_string());
    assert_eq!(d.id, "id1");
    assert_eq!(d.source_path, "/n/x.rs");
    assert_eq!(d.title.as_deref(), Some("Notes"));
    assert_eq!(d.file_type, "rs");
    assert_eq!(d.size_bytes, 99);
}

#[test]
fn messages() {
    assert_eq!(MessageResponse::queued("/n/a.md").message, "Queued for re-indexing: /n/a.md");
    assert_eq!(MessageResponse::deleted().message, "Document deleted");
}
