use cortex::document::DocumentEvent;
use cortex::watch::{scan_step, watch_event, ScanStep, WatchKind};

fn strings(v: &[&str]) -> Vec<String> {
    v.iter().map(|s| s.to_string()).collect()
}

#[test]
fn notifications_become_events() {
    let exts = strings(&[".md"]);
    let ign = strings(&[".git"]);
    assert!(matches!(watch_event(WatchKind::Create, "/n/a.md", &exts, &ign), Some(DocumentEvent::Created(p)) if p == "/n/a.md"));
    assert!(matches!(watch_event(WatchKind::Modify, "/n/a.md", &exts, &ign), Some(DocumentEvent::Modified(_))));
    assert!(matches!(watch_event(WatchKind::Remove, "/n/a.md", &exts, &ign), Some(DocumentEvent::Deleted(_))));
    assert!(watch_event(WatchKind::Other, "/n/a.md", &exts, &ign).is_none());
}

#[test]
fn notifications_filtered_out() {
    let exts = strings(&[".md"]);
    let ign = strings(&[".git"]);
    assert!(watch_event(WatchKind::Create, "/n/.git/a.md", &exts, &ign).is_none());
    assert!(watch_event(WatchKind::Create, "/n/a.rs", &exts, &ign).is_none());
}

#[test]
fn scan_steps() {
    let exts = strings(&[".md", ".txt"]);
    let ign = strings(&["node_modules"]);
    assert_eq!(scan_step("/n/sub", true, &exts, &ign), ScanStep::Descend);
    assert_eq!(scan_step("/n/node_modules", true, &exts, &ign), ScanStep::Skip);
    assert_eq!(scan_step("/n/a.txt", false, &exts, &ign), ScanStep::Emit);
    assert_eq!(scan_step("/n/a.bin", false, &exts, &ign), ScanStep::Skip);
    assert_eq!(scan_step("/n/node_modules/a.md", false, &exts, &ign), ScanStep::Skip);
}
