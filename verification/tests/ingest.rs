use cortex::document::{event_path, DocumentEvent};
use cortex::ingest::{batch_ranges, dedup_events, plan_event, EventPlan};

fn created(p: &str) -> DocumentEvent {
    DocumentEvent::Created(p.to_string())
}
fn modified(p: &str) -> DocumentEvent {
    DocumentEvent::Modified(p.to_string())
}
fn deleted(p: &str) -> DocumentEvent {
    DocumentEvent::Deleted(p.to_string())
}

#[test]
fn dedup_keeps_latest_per_path() {
    let evs = vec![created("/a"), created("/b"), modified("/a"), deleted("/b"), created("/c")];
    let out = dedup_events(&evs);
    assert_eq!(out.len(), 3);
    let find = |p: &str| out.iter().find(|e| event_path(e) == p).unwrap();
    assert!(matches!(find("/a"), DocumentEvent::Modified(_)));
    assert!(matches!(find("/b"), DocumentEvent::Deleted(_)));
    assert!(matches!(find("/c"), DocumentEvent::Created(_)));
}

#[test]
fn dedup_of_nothing_and_of_one() {
    assert!(dedup_events(&[]).is_empty());
    let out = dedup_events(&[deleted("/x")]);
    assert_eq!(out.len(), 1);
    assert!(matches!(&out[0], DocumentEvent::Deleted(p) if p == "/x"));
}

#[test]
fn dedup_same_path_many_times() {
    let evs = vec![created("/a"), modified("/a"), modified("/a"), deleted("/a"), created("/a")];
    let out = dedup_events(&evs);
    assert_eq!(out.len(), 1);
    assert!(matches!(&out[0], DocumentEvent::Created(p) if p == "/a"));
}

#[test]
fn plan_for_deleted_files() {
    assert_eq!(plan_event(&deleted("/a"), Some("h1"), ""), EventPlan::Remove);
    assert_eq!(plan_event(&deleted("/a"), None, ""), EventPlan::Skip);
}

#[test]
fn plan_for_created_or_modified_files() {
    assert_eq!(plan_event(&created("/a"), Some("h1"), "h1"), EventPlan::Skip);
    assert_eq!(plan_event(&modified("/a"), Some("h1"), "h2"), EventPlan::Replace);
    assert_eq!(plan_event(&modified("/a"), None, "h2"), EventPlan::Index);
    assert_eq!(plan_event(&created("/a"), None, "h2"), EventPlan::Index);
}

#[test]
fn batches_like_slice_chunks() {
    assert_eq!(batch_ranges(0, 32), vec![]);
    assert_eq!(batch_ranges(5, 32), vec![(0, 5)]);
    assert_eq!(batch_ranges(32, 32), vec![(0, 32)]);
    assert_eq!(batch_ranges(70, 32), vec![(0, 32), (32, 64), (64, 70)]);
    let v: Vec<usize> = (0..70).collect();
    let from_std: Vec<(usize, usize)> = v.chunks(32).map(|c| (c[0], c[c.len() - 1] + 1)).collect();
    assert_eq!(batch_ranges(70, 32), from_std);
}

#[test]
fn dedup_compares_path_components() {
    let evs = vec![created("notes//a.md"), modified("notes/./a.md"), deleted("notes/a.md/"), created("notes/b.md")];
    let out = dedup_events(&evs);
    assert_eq!(out.len(), 2);
    assert!(matches!(&out[0], DocumentEvent::Deleted(p) if p == "notes//a.md"));
    assert!(matches!(&out[1], DocumentEvent::Created(p) if p == "notes/b.md"));
}

#[test]
fn dedup_keeps_root_and_parent_apart() {
    let evs = vec![created("/a.md"), created("a.md"), created("./a.md"), created("../a.md")];
    assert_eq!(dedup_events(&evs).len(), 4);
}

#[test]
fn dedup_keeps_first_arrival_order() {
    let evs = vec![created("/c"), created("/a"), modified("/c"), created("/b"), deleted("/a")];
    let out = dedup_events(&evs);
    let paths: Vec<&str> = out.iter().map(event_path).collect();
    assert_eq!(paths, vec!["/c", "/a", "/b"]);
}
