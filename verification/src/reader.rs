//! Turning a file's text and metadata into a document.

use vstd::prelude::*;

use crate::document::{
    blake3_hex, file_type_of_ext, fresh_ids, is_uuid_text, Document, DocumentMetadata, FileType, FileTypeView,
};
use crate::paths::{extension, extension_of, file_stem, file_stem_of};

verus! {

broadcast use vstd::string::group_string_axioms;

/// The document for the file at `path` with the given text, size in bytes and
/// modification time (seconds since the Unix epoch), read by plugin
/// `plugin_name`: its file type comes from the path's extension, its title
/// from the path's stem, its hash from its content; its identifier is fresh.
pub fn document_from_file(
    path: &str,
    content: String,
    size_bytes: u64,
    modified_at: u64,
    plugin_name: &str,
) -> (d: Document)
    ensures
        is_uuid_text(d.id@),
        d.source_path@ == path@,
        d.content@ == content@,
        d.content_hash@ == blake3_hex(content@),
        d.metadata.file_type@ == (match extension_of(path@) {
            Some(e) => file_type_of_ext(e),
            None => FileTypeView::Unknown,
        }),
        match d.metadata.title {
            Some(t) => file_stem_of(path@) == Some(t@),
            None => file_stem_of(path@) is None,
        },
        d.metadata.size_bytes == size_bytes,
        d.metadata.modified_at == modified_at,
        d.metadata.source_plugin@ == plugin_name@,
{
    let file_type = match extension(path) {
        Some(e) => FileType::from_extension(e.as_str()),
        None => FileType::Unknown,
    };
    let title = file_stem(path);
    let content_hash = Document::compute_hash(content.as_str());
    let mut ids = fresh_ids(1);
    assert(is_uuid_text(ids@.map_values(|s: String| s@)[0]));
    let id = ids.pop().unwrap();
    Document {
        id,
        source_path: path.to_string(),
        content_hash,
        content,
        metadata: DocumentMetadata {
            title,
            file_type,
            modified_at,
            size_bytes,
            source_plugin: plugin_name.to_string(),
        },
    }
}

} // verus!
