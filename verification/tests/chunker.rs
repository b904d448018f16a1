use cortex::chunker::{safe_tail, split_large_text, ParagraphChunker};
use cortex::document::{Document, DocumentMetadata, FileType};
use cortex::traits::Chunker;

fn test_doc(content: &str) -> Document {
    Document {
        id: "test-doc".to_string(),
        source_path: "/tmp/test.md".to_string(),
        content: content.to_string(),
        content_hash: "abc".to_string(),
        metadata: DocumentMetadata {
            title: Some("Test".to_string()),
            file_type: FileType::Markdown,
            modified_at: 0,
            size_bytes: content.len() as u64,
            source_plugin: "test".to_string(),
        },
    }
}

#[test]
fn test_empty_document() {
    let chunker = ParagraphChunker::new(256, 64);
    let doc = test_doc("");
    let chunks = chunker.chunk(&doc).unwrap();
    assert!(chunks.is_empty());
}

#[test]
fn test_single_paragraph() {
    let chunker = ParagraphChunker::new(256, 64);
    let doc = test_doc("Hello world, this is a test paragraph.");
    let chunks = chunker.chunk(&doc).unwrap();
    assert_eq!(chunks.len(), 1);
    assert_eq!(chunks[0].content, "Hello world, this is a test paragraph.");
}

#[test]
fn test_multiple_paragraphs() {
    let chunker = ParagraphChunker::new(256, 64);
    let doc = test_doc("First paragraph.\n\nSecond paragraph.\n\nThird paragraph.");
    let chunks = chunker.chunk(&doc).unwrap();
    // All three should fit in one chunk at 256 tokens
    assert_eq!(chunks.len(), 1);
}

#[test]
fn whitespace_only_document_has_no_chunks() {
    let chunker = ParagraphChunker::new(256, 64);
    let chunks = chunker.chunk(&test_doc("  \n\n \t \n\n\u{3000}")).unwrap();
    assert!(chunks.is_empty());
}

#[test]
fn merged_paragraphs_keep_offsets_and_metadata() {
    let chunker = ParagraphChunker::new(256, 64);
    let doc = test_doc("  First paragraph.\n\nSecond paragraph.\n\n\n\nThird paragraph.  ");
    let chunks = chunker.chunk(&doc).unwrap();
    assert_eq!(chunks.len(), 1);
    let c = &chunks[0];
    assert_eq!(c.content, "First paragraph.\n\nSecond paragraph.\n\nThird paragraph.");
    assert_eq!(c.byte_offset, 2);
    assert_eq!(c.chunk_index, 0);
    assert_eq!(c.document_id, "test-doc");
    assert_eq!(c.token_count, c.content.len() / 4);
    assert_eq!(c.id.len(), 36);
}

#[test]
fn paragraphs_over_budget_start_new_chunks_with_overlap() {
    // budget of 8 bytes, overlap of 4 characters
    let chunker = ParagraphChunker::new(2, 1);
    let doc = test_doc("aaaa bbbb\n\ncccc");
    let chunks = chunker.chunk(&doc).unwrap();
    assert_eq!(chunks.len(), 2);
    assert_eq!(chunks[0].content, "aaaa bbbb");
    assert_eq!(chunks[0].byte_offset, 0);
    assert_eq!(chunks[0].chunk_index, 0);
    // the overlap "bbbb" has no space after its start, so it is kept whole
    assert_eq!(chunks[1].content, "bbbb\n\ncccc");
    assert_eq!(chunks[1].byte_offset, 11);
    assert_eq!(chunks[1].chunk_index, 1);
}

#[test]
fn oversized_paragraph_is_cut_at_sentence_ends() {
    // budget of 8 bytes: a paragraph over 16 bytes is cut again
    let chunker = ParagraphChunker::new(2, 0);
    let doc = test_doc("Ab. Cd. Ef. Gh. Ij.");
    let chunks = chunker.chunk(&doc).unwrap();
    let texts: Vec<&str> = chunks.iter().map(|c| c.content.as_str()).collect();
    assert_eq!(texts, vec!["Ab. Cd.", "Ef. Gh.", "Ij."]);
    let offsets: Vec<usize> = chunks.iter().map(|c| c.byte_offset).collect();
    assert_eq!(offsets, vec![0, 8, 16]);
    let indices: Vec<u32> = chunks.iter().map(|c| c.chunk_index).collect();
    assert_eq!(indices, vec![0, 1, 2]);
}

#[test]
fn split_large_text_numbers_from_given_index() {
    let mut idx = 5u32;
    let chunks = split_large_text("d", "abcdefghij", 4, &mut idx);
    let texts: Vec<&str> = chunks.iter().map(|c| c.content.as_str()).collect();
    assert_eq!(texts, vec!["abcd", "efgh", "ij"]);
    assert_eq!(chunks[1].byte_offset, 4);
    assert_eq!(chunks[2].chunk_index, 7);
    assert_eq!(idx, 8);
}

#[test]
fn split_large_text_counts_bytes_for_offsets() {
    let mut idx = 0u32;
    let chunks = split_large_text("d", "ééé ééé", 4, &mut idx);
    let texts: Vec<&str> = chunks.iter().map(|c| c.content.as_str()).collect();
    assert_eq!(texts, vec!["ééé", "ééé"]);
    assert_eq!(chunks[1].byte_offset, 7);
    assert_eq!(chunks[0].token_count, 1);
}

#[test]
fn safe_tail_snaps_to_word_boundary() {
    assert_eq!(safe_tail("hello world foo", 9), "foo");
    assert_eq!(safe_tail("short", 10), "short");
    assert_eq!(safe_tail("abcdef", 3), "def");
    assert_eq!(safe_tail("abc def", 0), "");
}

#[test]
fn chunk_ids_are_fresh_uuids() {
    let chunker = ParagraphChunker::new(4, 0);
    let doc = test_doc("First paragraph here.\n\nSecond paragraph here.");
    let chunks = chunker.chunk(&doc).unwrap();
    assert!(chunks.len() >= 2);
    for c in &chunks {
        assert_eq!(c.id.len(), 36);
        assert_eq!(c.id.matches('-').count(), 4);
        assert_eq!(c.document_id, "test-doc");
    }
    assert_ne!(chunks[0].id, chunks[1].id);
}

#[test]
fn chunking_twice_differs_only_in_ids() {
    let chunker = ParagraphChunker::new(8, 2);
    let doc = test_doc("One short paragraph.\n\nAnother paragraph that is a little longer. It has two sentences.\n\nEnd.");
    let a = chunker.chunk(&doc).unwrap();
    let b = chunker.chunk(&doc).unwrap();
    assert_eq!(a.len(), b.len());
    for (x, y) in a.iter().zip(b.iter()) {
        assert_eq!(
            (&x.document_id, &x.content, x.byte_offset, x.chunk_index, x.token_count),
            (&y.document_id, &y.content, y.byte_offset, y.chunk_index, y.token_count)
        );
        assert_ne!(x.id, y.id);
    }
}

#[test]
fn text_that_is_not_blank_has_chunks() {
    for (text, max) in [("x", 1), ("  a\n\n\n\n b ", 1), ("word. word. word. word.", 1), ("\t\n\nz\n\n", 256)] {
        let chunker = ParagraphChunker::new(max, 0);
        assert!(!chunker.chunk(&test_doc(text)).unwrap().is_empty(), "{text:?}");
    }
}
