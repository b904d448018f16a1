//! Bodies of the HTTP API that carry no scores, and how handlers fill them.

use vstd::prelude::*;

use crate::config::{strings_view, CortexConfig};
use crate::document::{file_type_name, DocumentMetadata};

verus! {

broadcast use vstd::string::group_string_axioms;

/// Answer to `GET /status`.
#[derive(Debug)]
pub struct StatusResponse {
    pub status: String,
    pub uptime_secs: u64,
    pub document_count: usize,
    pub chunk_count: usize,
    pub watched_paths: Vec<String>,
    pub model: String,
}

/// One entry of the answer to `GET /documents`.
#[derive(Debug)]
pub struct DocumentResponse {
    pub id: String,
    pub source_path: String,
    pub title: Option<String>,
    pub file_type: String,
    pub size_bytes: u64,
}

/// Body of `POST /ingest`.
#[derive(Debug)]
pub struct IngestRequest {
    pub path: String,
}

/// A plain message.
#[derive(Debug)]
pub struct MessageResponse {
    pub message: String,
}

/// A copy of the strings of `v`.
fn copy_strings(v: &Vec<String>) -> (r: Vec<String>)
    ensures
        strings_view(r@) == strings_view(v@),
{
    let mut r: Vec<String> = Vec::new();
    let mut i: usize = 0;
    while i < v.len()
        invariant
            i <= v@.len(),
            strings_view(r@) == strings_view(v@).take(i as int),
        decreases v@.len() - i,
    {
        let ghost before = r@;
        r.push(v[i].clone());
        assert(strings_view(r@) =~= strings_view(before).push(v@[i as int]@));
        assert(strings_view(v@).take(i + 1) =~= strings_view(v@).take(i as int).push(v@[i as int]@));
        i = i + 1;
    }
    assert(strings_view(v@).take(v@.len() as int) =~= strings_view(v@));
    r
}

impl StatusResponse {
    /// The status of a running daemon with the given uptime and counts.
    pub fn running(
        uptime_secs: u64,
        document_count: usize,
        chunk_count: usize,
        config: &CortexConfig,
    ) -> (r: StatusResponse)
        ensures
            r.status@ == "running"@,
            r.uptime_secs == uptime_secs,
            r.document_count == document_count,
            r.chunk_count == chunk_count,
            strings_view(r.watched_paths@) == strings_view(config.watch.paths@),
            r.model@ == config.embedding.model@,
    {
        StatusResponse {
            status: "running".to_string(),
            uptime_secs,
            document_count,
            chunk_count,
            watched_paths: copy_strings(&config.watch.paths),
            model: config.embedding.model.clone(),
        }
    }
}

impl DocumentResponse {
    /// The listing entry of a stored document.
    pub fn from_listing(id: String, meta: &DocumentMetadata, source_path: String) -> (r:
        DocumentResponse)
        ensures
            r.id@ == id@,
            r.source_path@ == source_path@,
            match r.title {
                Some(t) => meta.title matches Some(m) && t@ == m@,
                None => meta.title is None,
            },
            r.file_type@ == file_type_name(meta.file_type@),
            r.size_bytes == meta.size_bytes,
    {
        let title = match &meta.title {
            Some(t) => Some(t.clone()),
            None => None,
        };
        DocumentResponse {
            id,
            source_path,
            title,
            file_type: meta.file_type.as_str().to_string(),
            size_bytes: meta.size_bytes,
        }
    }
}

impl MessageResponse {
    /// The answer to a file queued for indexing.
    pub fn queued(path: &str) -> (r: MessageResponse)
        ensures
            r.message@ == "Queued for re-indexing: "@ + path@,
    {
        let mut v = crate::text::to_chars("Queued for re-indexing: ");
        let p = crate::text::to_chars(path);
        crate::text::extend_chars(&mut v, &p);
        MessageResponse { message: crate::text::string_from_chars(&v) }
    }

    /// The answer to a deleted document.
    pub fn deleted() -> (r: MessageResponse)
        ensures
            r.message@ == "Document deleted"@,
    {
        MessageResponse { message: "Document deleted".to_string() }
    }
}

} // verus!
