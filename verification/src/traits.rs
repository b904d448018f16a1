//! The interfaces between the parts of Cortex: chunking and persistence.

use vstd::prelude::*;

use crate::document::{Chunk, Document, DocumentId, DocumentMetadata};
use crate::error::CortexError;

verus! {

/// Splits documents into embeddable chunks.
pub trait Chunker {
    /// The documents this chunker can handle.
    spec fn can_chunk(&self, document: &Document) -> bool;

    /// Splits `document` into chunks.
    fn chunk(&self, document: &Document) -> (r: Result<Vec<Chunk>, CortexError>)
        requires
            self.can_chunk(document),
    ;
}

/// Persistence of documents. Paths are given as path text.
pub trait DocumentStore {
    fn upsert_document(&self, doc: &Document) -> Result<(), CortexError>;

    fn get_document(&self, id: &DocumentId) -> Result<Option<Document>, CortexError>;

    fn get_document_by_path(&self, path: &str) -> Result<Option<Document>, CortexError>;

    fn delete_document(&self, id: &DocumentId) -> Result<(), CortexError>;

    /// Identifier, metadata and source path of every stored document.
    fn list_documents(&self) -> Result<Vec<(DocumentId, DocumentMetadata, String)>, CortexError>;

    fn document_count(&self) -> Result<usize, CortexError>;
}

/// Persistence of chunks.
pub trait ChunkStore {
    fn insert_chunks(&self, chunks: &[Chunk]) -> Result<(), CortexError>;

    fn get_chunks_for_document(&self, doc_id: &DocumentId) -> Result<Vec<Chunk>, CortexError>;

    fn delete_chunks_for_document(&self, doc_id: &DocumentId) -> Result<(), CortexError>;

    fn chunk_count(&self) -> Result<usize, CortexError>;
}

} // verus!
