use cortex::cli::{
    plural_suffix, preview, search_report, status_report, HitFields, SearchReply, StartArgs, StatusReply,
};
use cortex::config::CortexConfig;

#[test]
fn start_args_merged() {
    let mut c = CortexConfig::default();
    let args = StartArgs { watch: vec!["~/notes".to_string(), "/abs".to_string()], tcp_port: Some(8000) };
    args.apply_with_home(&mut c, Some("/home/u"));
    assert_eq!(c.watch.paths, vec!["/home/u/notes", "/abs"]);
    assert_eq!(c.api.tcp_port, Some(8000));
}

#[test]
fn empty_start_args_change_nothing() {
    let mut c = CortexConfig::default();
    c.watch.paths = vec!["/kept".to_string()];
    c.api.tcp_port = Some(1);
    let args = StartArgs { watch: vec![], tcp_port: None };
    args.apply_with_home(&mut c, Some("/home/u"));
    assert_eq!(c.watch.paths, vec!["/kept"]);
    assert_eq!(c.api.tcp_port, Some(1));
}

#[test]
fn start_args_without_home() {
    let mut c = CortexConfig::default();
    let args = StartArgs { watch: vec!["~/notes".to_string()], tcp_port: None };
    args.apply_with_home(&mut c, None);
    assert_eq!(c.watch.paths, vec!["~/notes"]);
}

#[test]
fn preview_of_hit() {
    assert_eq!(preview("line one\nline two"), "line one line two");
    let long: String = "é".repeat(250);
    assert_eq!(preview(&long).chars().count(), 200);
    assert_eq!(preview(""), "");
}

#[test]
fn plural() {
    assert_eq!(plural_suffix(1), "");
    assert_eq!(plural_suffix(0), "s");
    assert_eq!(plural_suffix(2), "s");
}

fn hit(title: Option<&str>, source: Option<&str>, content: Option<&str>) -> HitFields {
    HitFields {
        title: title.map(String::from),
        source_path: source.map(String::from),
        content: content.map(String::from),
    }
}

#[test]
fn search_report_without_results() {
    let r = search_report("rust", &SearchReply { total: Some(0), hits: Some(vec![hit(Some("x"), None, None)]) });
    assert_eq!(r.header, "No results found for: \"rust\"");
    assert!(r.hits.is_empty());
    let r = search_report("rust", &SearchReply { total: None, hits: None });
    assert_eq!(r.header, "No results found for: \"rust\"");
}

#[test]
fn search_report_with_hits() {
    let reply = SearchReply {
        total: Some(2),
        hits: Some(vec![
            hit(Some("Notes"), Some("/n/a.md"), Some("line one\nline two")),
            hit(None, None, None),
        ]),
    };
    let r = search_report("q", &reply);
    assert_eq!(r.header, "Found 2 results for: \"q\"\n");
    assert_eq!(r.hits.len(), 2);
    assert_eq!(r.hits[0].heading, "1. Notes");
    assert_eq!(r.hits[0].source, "   /n/a.md");
    assert_eq!(r.hits[0].preview, "   line one line two");
    assert_eq!(r.hits[1].heading, "2. Untitled");
    assert_eq!(r.hits[1].source, "   unknown");
    assert_eq!(r.hits[1].preview, "   ");
}

#[test]
fn search_report_single_result() {
    let r = search_report("q", &SearchReply { total: Some(1), hits: None });
    assert_eq!(r.header, "Found 1 result for: \"q\"\n");
    assert!(r.hits.is_empty());
}

#[test]
fn status_report_full() {
    let reply = StatusReply {
        status: Some("running".to_string()),
        uptime_secs: Some(3723),
        document_count: Some(4),
        chunk_count: Some(17),
        model: Some("all-MiniLM-L6-v2".to_string()),
        watched_paths: Some(vec![Some("/notes".to_string()), None, Some("/docs".to_string())]),
    };
    assert_eq!(
        status_report(&reply),
        vec![
            "Cortex Status",
            "─────────────────────────────",
            "  Status:     running",
            "  Uptime:     1h 2m 3s",
            "  Documents:  4",
            "  Chunks:     17",
            "  Model:      all-MiniLM-L6-v2",
            "  Watching:",
            "    - /notes",
            "    - /docs",
        ]
    );
}

#[test]
fn status_report_missing_fields() {
    let reply = StatusReply {
        status: None,
        uptime_secs: None,
        document_count: Some(0),
        chunk_count: None,
        model: None,
        watched_paths: None,
    };
    assert_eq!(status_report(&reply), vec!["Cortex Status", "─────────────────────────────", "  Documents:  0"]);
}
