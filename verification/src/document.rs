//! Documents, chunks, file types and document events.

use vstd::prelude::*;

use crate::text::str_eq;

verus! {

broadcast use vstd::string::group_string_axioms;

/// Identifier of a document.
pub type DocumentId = String;

/// Identifier of a chunk.
pub type ChunkId = String;

/// The kind of content a document holds.
#[derive(Debug, Clone)]
pub enum FileType {
    Markdown,
    PlainText,
    /// Source code or structured text, with its extension as language.
    Code(String),
    Unknown,
}

/// Mathematical model of a `FileType`.
pub enum FileTypeView {
    Markdown,
    PlainText,
    Code(Seq<char>),
    Unknown,
}

impl View for FileType {
    type V = FileTypeView;

    open spec fn view(&self) -> FileTypeView {
        match self {
            FileType::Markdown => FileTypeView::Markdown,
            FileType::PlainText => FileTypeView::PlainText,
            FileType::Code(lang) => FileTypeView::Code(lang@),
            FileType::Unknown => FileTypeView::Unknown,
        }
    }
}

/// Extensions that denote Markdown.
pub open spec fn is_markdown_ext(e: Seq<char>) -> bool {
    e == "md"@ || e == "markdown"@
}

/// Extensions that denote plain text.
pub open spec fn is_text_ext(e: Seq<char>) -> bool {
    e == "txt"@ || e == "text"@
}

/// Extensions that denote code.
pub open spec fn is_code_ext(e: Seq<char>) -> bool {
    e == "rs"@ || e == "py"@ || e == "js"@ || e == "ts"@ || e == "go"@ || e == "c"@ || e
        == "cpp"@ || e == "h"@ || e == "java"@ || e == "rb"@ || e == "sh"@ || e == "toml"@ || e
        == "yaml"@ || e == "yml"@ || e == "json"@
}

/// The file type that an extension (without its dot) denotes.
pub open spec fn file_type_of_ext(e: Seq<char>) -> FileTypeView {
    if is_markdown_ext(e) {
        FileTypeView::Markdown
    } else if is_text_ext(e) {
        FileTypeView::PlainText
    } else if is_code_ext(e) {
        FileTypeView::Code(e)
    } else {
        FileTypeView::Unknown
    }
}

/// The name under which a file type is stored.
pub open spec fn file_type_name(f: FileTypeView) -> Seq<char> {
    match f {
        FileTypeView::Markdown => "markdown"@,
        FileTypeView::PlainText => "plaintext"@,
        FileTypeView::Code(lang) => lang,
        FileTypeView::Unknown => "unknown"@,
    }
}

fn is_code_extension(ext: &str) -> (b: bool)
    ensures
        b == is_code_ext(ext@),
{
    str_eq(ext, "rs") || str_eq(ext, "py") || str_eq(ext, "js") || str_eq(ext, "ts") || str_eq(
        ext,
        "go",
    ) || str_eq(ext, "c") || str_eq(ext, "cpp") || str_eq(ext, "h") || str_eq(ext, "java")
        || str_eq(ext, "rb") || str_eq(ext, "sh") || str_eq(ext, "toml") || str_eq(ext, "yaml")
        || str_eq(ext, "yml") || str_eq(ext, "json")
}

impl FileType {
    /// The file type for a file extension given without its dot.
    pub fn from_extension(ext: &str) -> (r: FileType)
        ensures
            r@ == file_type_of_ext(ext@),
    {
        if str_eq(ext, "md") || str_eq(ext, "markdown") {
            FileType::Markdown
        } else if str_eq(ext, "txt") || str_eq(ext, "text") {
            FileType::PlainText
        } else if is_code_extension(ext) {
            FileType::Code(ext.to_string())
        } else {
            FileType::Unknown
        }
    }

    /// The name under which this file type is stored.
    pub fn as_str(&self) -> (s: &str)
        ensures
            s@ == file_type_name(self@),
    {
        match self {
            FileType::Markdown => "markdown",
            FileType::PlainText => "plaintext",
            FileType::Code(lang) => lang.as_str(),
            FileType::Unknown => "unknown",
        }
    }
}

/// An extension that starts neither with "m" nor with "tx" or "te" denotes
/// neither Markdown nor plain text.
proof fn lemma_not_prose_ext(e: Seq<char>)
    requires
        e.len() > 1,
        e[0] != 'm',
        e[0] == 't' ==> e[1] != 'x' && e[1] != 'e',
    ensures
        !is_markdown_ext(e),
        !is_text_ext(e),
{
    reveal_strlit("md");
    reveal_strlit("markdown");
    reveal_strlit("txt");
    reveal_strlit("text");
    if e == "md"@ || e == "markdown"@ {
        assert(e[0] == 'm');
    }
    if e == "txt"@ || e == "text"@ {
        assert(e[0] == 't' && (e[1] == 'x' || e[1] == 'e'));
    }
}

/// The extensions of code files, each named on its own: every one of
/// them maps to the code file type with that extension as language; "md"
/// and "markdown" map to Markdown, "txt" and "text" to plain text; any other
/// extension to an unknown file type.
pub proof fn lemma_known_extensions()
    ensures
        forall|e: Seq<char>| e != "rs"@ && e != "py"@ && e != "js"@ && e != "ts"@ && e != "go"@ && e != "c"@ && e != "cpp"@ && e != "h"@ && e != "java"@ && e != "rb"@ && e != "sh"@ && e != "toml"@ && e != "yaml"@ && e != "yml"@ && e != "json"@ && e != "md"@ && e != "markdown"@ && e != "txt"@ && e != "text"@ ==> #[trigger] file_type_of_ext(e) == FileTypeView::Unknown,
        file_type_of_ext("rs"@) == FileTypeView::Code("rs"@),
        file_type_of_ext("py"@) == FileTypeView::Code("py"@),
        file_type_of_ext("js"@) == FileTypeView::Code("js"@),
        file_type_of_ext("ts"@) == FileTypeView::Code("ts"@),
        file_type_of_ext("go"@) == FileTypeView::Code("go"@),
        file_type_of_ext("c"@) == FileTypeView::Code("c"@),
        file_type_of_ext("cpp"@) == FileTypeView::Code("cpp"@),
        file_type_of_ext("h"@) == FileTypeView::Code("h"@),
        file_type_of_ext("java"@) == FileTypeView::Code("java"@),
        file_type_of_ext("rb"@) == FileTypeView::Code("rb"@),
        file_type_of_ext("sh"@) == FileTypeView::Code("sh"@),
        file_type_of_ext("toml"@) == FileTypeView::Code("toml"@),
        file_type_of_ext("yaml"@) == FileTypeView::Code("yaml"@),
        file_type_of_ext("yml"@) == FileTypeView::Code("yml"@),
        file_type_of_ext("json"@) == FileTypeView::Code("json"@),
        file_type_of_ext("md"@) == FileTypeView::Markdown,
        file_type_of_ext("markdown"@) == FileTypeView::Markdown,
        file_type_of_ext("txt"@) == FileTypeView::PlainText,
        file_type_of_ext("text"@) == FileTypeView::PlainText,
{
    reveal_strlit("md");
    reveal_strlit("markdown");
    reveal_strlit("txt");
    reveal_strlit("text");
    reveal_strlit("rs");
    reveal_strlit("py");
    reveal_strlit("js");
    reveal_strlit("ts");
    reveal_strlit("go");
    reveal_strlit("c");
    reveal_strlit("cpp");
    reveal_strlit("h");
    reveal_strlit("java");
    reveal_strlit("rb");
    reveal_strlit("sh");
    reveal_strlit("toml");
    reveal_strlit("yaml");
    reveal_strlit("yml");
    reveal_strlit("json");
    lemma_not_prose_ext("rs"@);
    lemma_not_prose_ext("py"@);
    lemma_not_prose_ext("js"@);
    lemma_not_prose_ext("ts"@);
    lemma_not_prose_ext("go"@);
    lemma_not_prose_ext("cpp"@);
    lemma_not_prose_ext("java"@);
    lemma_not_prose_ext("rb"@);
    lemma_not_prose_ext("sh"@);
    lemma_not_prose_ext("toml"@);
    lemma_not_prose_ext("yaml"@);
    lemma_not_prose_ext("yml"@);
    lemma_not_prose_ext("json"@);
    assert("c"@ != "md"@ && "c"@ != "markdown"@ && "c"@ != "txt"@ && "c"@ != "text"@) by {
        assert("c"@.len() == 1);
    }
    assert("h"@ != "md"@ && "h"@ != "markdown"@ && "h"@ != "txt"@ && "h"@ != "text"@) by {
        assert("h"@.len() == 1);
    }
    assert(!is_markdown_ext("txt"@)) by {
        assert("txt"@.len() == 3);
    }
    assert(!is_markdown_ext("text"@)) by {
        assert("text"@[0] != "md"@[0]);
    }
}

/// Reading a stored file type name back gives the file type again, for every
/// file type that `from_extension` can produce except plain text, whose stored
/// name "plaintext" is not an extension that `from_extension` recognises.
pub proof fn lemma_file_type_name_round_trip(f: FileTypeView)
    requires
        f != FileTypeView::PlainText,
        f matches FileTypeView::Code(lang) ==> is_code_ext(lang),
    ensures
        file_type_of_ext(file_type_name(f)) == f,
{
    reveal_strlit("md");
    reveal_strlit("markdown");
    reveal_strlit("txt");
    reveal_strlit("text");
    reveal_strlit("unknown");
    reveal_strlit("rs");
    reveal_strlit("py");
    reveal_strlit("js");
    reveal_strlit("ts");
    reveal_strlit("go");
    reveal_strlit("c");
    reveal_strlit("cpp");
    reveal_strlit("h");
    reveal_strlit("java");
    reveal_strlit("rb");
    reveal_strlit("sh");
    reveal_strlit("toml");
    reveal_strlit("yaml");
    reveal_strlit("yml");
    reveal_strlit("json");
    match f {
        FileTypeView::Code(lang) => {
            assert(lang.len() > 0 && lang[0] != 'm');
            assert(!is_markdown_ext(lang));
            assert(!(lang.len() > 1 && lang[0] == 't' && (lang[1] == 'x' || lang[1] == 'e')));
            assert(!is_text_ext(lang));
            assert(is_code_ext(lang));
            assert(file_type_name(f) == lang);
            assert(file_type_of_ext(lang) == FileTypeView::Code(lang));
        },
        FileTypeView::Markdown => {
            assert(file_type_of_ext(file_type_name(f)) == f);
        },
        FileTypeView::Unknown => {
            assert("unknown"@.len() == 7);
            assert(!is_code_ext("unknown"@));
            assert(file_type_of_ext(file_type_name(f)) == f);
        },
        FileTypeView::PlainText => {},
    }
}

/// Descriptive data about a document.
#[derive(Debug, Clone)]
pub struct DocumentMetadata {
    pub title: Option<String>,
    pub file_type: FileType,
    /// Last modification time, in whole seconds since the Unix epoch.
    pub modified_at: u64,
    pub size_bytes: u64,
    pub source_plugin: String,
}

/// A document read from a source.
#[derive(Debug, Clone)]
pub struct Document {
    pub id: DocumentId,
    pub source_path: String,
    pub content: String,
    pub content_hash: String,
    pub metadata: DocumentMetadata,
}

/// The BLAKE3 digest of the UTF-8 bytes of `content`, as lowercase hexadecimal.
pub uninterp spec fn blake3_hex(content: Seq<char>) -> Seq<char>;

/// A lowercase hexadecimal digit.
pub open spec fn is_lower_hex(c: char) -> bool {
    ('0' <= c && c <= '9') || ('a' <= c && c <= 'f')
}

impl Document {
    /// Content hash of a document: `blake3::hash` of the content's bytes,
    /// rendered by `Hash::to_hex`. Trusted: the result is `blake3_hex` of the
    /// content, 64 lowercase hexadecimal digits (32 bytes, two digits each, as
    /// `to_hex` writes them).
    #[verifier::external_body]
    pub fn compute_hash(content: &str) -> (h: String)
        ensures
            h@ == blake3_hex(content@),
            h@.len() == 64,
            forall|i: int| 0 <= i < 64 ==> is_lower_hex(#[trigger] h@[i]),
    {
        blake3::hash(content.as_bytes()).to_hex().to_string()
    }
}

/// The hyphenated lowercase text of a UUID: 36 characters, hyphens at
/// positions 8, 13, 18 and 23, hexadecimal digits elsewhere.
pub open spec fn is_uuid_text(id: Seq<char>) -> bool {
    &&& id.len() == 36
    &&& forall|i: int|
        0 <= i < 36 ==> (if i == 8 || i == 13 || i == 18 || i == 23 {
            #[trigger] id[i] == '-'
        } else {
            is_lower_hex(id[i])
        })
}

/// Identifiers that are UUID texts, no two alike.
pub open spec fn fresh_uuids(ids: Seq<Seq<char>>) -> bool {
    &&& forall|i: int| 0 <= i < ids.len() ==> is_uuid_text(#[trigger] ids[i])
    &&& forall|i: int, j: int| 0 <= i < j < ids.len() ==> #[trigger] ids[i] != #[trigger] ids[j]
}

/// `n` fresh identifiers, each `uuid::Uuid::now_v7()` rendered by
/// `to_string`. Trusted: each is a UUID in hyphenated lowercase form, as the
/// `Display` of `Uuid` writes it, and no two are alike: uuid documents that
/// the version 7 UUIDs one process makes this way are ordered by their
/// creation (a shared counter orders those made in the same millisecond).
/// Their values depend on the clock and on random bits, so nothing is said
/// of which identifiers come back.
#[verifier::external_body]
pub(crate) fn fresh_ids(n: usize) -> (ids: Vec<String>)
    ensures
        ids@.len() == n,
        fresh_uuids(ids@.map_values(|s: String| s@)),
{
    (0..n).map(|_| uuid::Uuid::now_v7().to_string()).collect()
}

/// A piece of a document, the unit that is embedded and searched.
#[derive(Debug, Clone)]
pub struct Chunk {
    pub id: ChunkId,
    pub document_id: DocumentId,
    pub content: String,
    /// Byte offset of the piece in the text it was cut from.
    pub byte_offset: usize,
    pub chunk_index: u32,
    /// Approximate number of tokens: the content's byte length over four.
    pub token_count: usize,
}

/// A change to a watched file.
#[derive(Debug, Clone)]
pub enum DocumentEvent {
    Created(String),
    Modified(String),
    Deleted(String),
}

/// Mathematical model of a `DocumentEvent`.
pub enum DocumentEventView {
    Created(Seq<char>),
    Modified(Seq<char>),
    Deleted(Seq<char>),
}

impl View for DocumentEvent {
    type V = DocumentEventView;

    open spec fn view(&self) -> DocumentEventView {
        match self {
            DocumentEvent::Created(p) => DocumentEventView::Created(p@),
            DocumentEvent::Modified(p) => DocumentEventView::Modified(p@),
            DocumentEvent::Deleted(p) => DocumentEventView::Deleted(p@),
        }
    }
}

/// The path an event is about.
pub open spec fn path_of(e: DocumentEventView) -> Seq<char> {
    match e {
        DocumentEventView::Created(p) => p,
        DocumentEventView::Modified(p) => p,
        DocumentEventView::Deleted(p) => p,
    }
}

/// The path an event is about.
pub open spec fn event_path_of(e: DocumentEvent) -> Seq<char> {
    path_of(e@)
}

impl DocumentEvent {
    /// A copy of this event.
    pub fn duplicate(&self) -> (r: DocumentEvent)
        ensures
            r@ == self@,
    {
        match self {
            DocumentEvent::Created(p) => DocumentEvent::Created(p.clone()),
            DocumentEvent::Modified(p) => DocumentEvent::Modified(p.clone()),
            DocumentEvent::Deleted(p) => DocumentEvent::Deleted(p.clone()),
        }
    }
}

/// The path an event is about.
pub fn event_path(event: &DocumentEvent) -> (p: &str)
    ensures
        p@ == event_path_of(*event),
{
    match event {
        DocumentEvent::Created(p) => p.as_str(),
        DocumentEvent::Modified(p) => p.as_str(),
        DocumentEvent::Deleted(p) => p.as_str(),
    }
}

} // verus!
