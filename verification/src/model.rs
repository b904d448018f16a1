//! Where the embedding model lives on disk and where it is fetched from.

use vstd::prelude::*;

use crate::paths::{join, join_path};
use crate::config::strings_view;
use crate::error::CortexError;
use crate::text::concat3;

verus! {

broadcast use vstd::string::group_string_axioms;

/// Paths of the model files.
#[derive(Debug)]
pub struct ModelPaths {
    pub model: String,
    pub tokenizer: String,
}

/// The model files in `model_dir`: `model.onnx` and `tokenizer.json`.
pub fn model_paths(model_dir: &str) -> (r: ModelPaths)
    ensures
        r.model@ == join_path(model_dir@, "model.onnx"@),
        r.tokenizer@ == join_path(model_dir@, "tokenizer.json"@),
{
    ModelPaths { model: join(model_dir, "model.onnx"), tokenizer: join(model_dir, "tokenizer.json") }
}

/// Where the ONNX model of `model_name` is downloaded from.
pub fn model_url(model_name: &str) -> (r: String)
    ensures
        r@ == "https://huggingface.co/sentence-transformers/"@ + model_name@
            + "/resolve/main/onnx/model.onnx"@,
{
    concat3(
        "https://huggingface.co/sentence-transformers/",
        model_name,
        "/resolve/main/onnx/model.onnx",
    )
}

/// Where the tokenizer of `model_name` is downloaded from.
pub fn tokenizer_url(model_name: &str) -> (r: String)
    ensures
        r@ == "https://huggingface.co/sentence-transformers/"@ + model_name@
            + "/resolve/main/tokenizer.json"@,
{
    concat3(
        "https://huggingface.co/sentence-transformers/",
        model_name,
        "/resolve/main/tokenizer.json",
    )
}

/// A row of token values cut or padded with zeros to `width` entries.
pub open spec fn padded_row(row: Seq<u32>, width: nat) -> Seq<i64> {
    Seq::new(width, |i: int| if i < row.len() {
        row[i] as i64
    } else {
        0
    })
}

/// The rows of a tokenized batch, each cut or padded to `width`, laid out
/// one after the other: the flat layout of a `[rows, width]` input tensor.
pub open spec fn padded_flat(rows: Seq<Seq<u32>>, width: nat) -> Seq<i64>
    decreases rows.len(),
{
    if rows.len() == 0 {
        Seq::empty()
    } else {
        padded_flat(rows.drop_last(), width) + padded_row(rows.last(), width)
    }
}

/// The token rows as sequences.
pub open spec fn rows_view(rows: Seq<Vec<u32>>) -> Seq<Seq<u32>> {
    rows.map_values(|r: Vec<u32>| r@)
}

/// The flat layout has `width` entries per row.
pub proof fn lemma_padded_flat_len(rows: Seq<Seq<u32>>, width: nat)
    ensures
        padded_flat(rows, width).len() == rows.len() * width,
    decreases rows.len(),
{
    if rows.len() > 0 {
        lemma_padded_flat_len(rows.drop_last(), width);
        assert((rows.len() - 1) * width + width == rows.len() * width) by (nonlinear_arith);
    }
}

/// One input of the embedding model: the token values of each text (ids,
/// attention mask or type ids), each row cut or padded with zeros to
/// `width`, one row after the other.
pub fn flatten_padded(rows: &Vec<Vec<u32>>, width: usize) -> (r: Vec<i64>)
    requires
        rows@.len() * width <= usize::MAX,
    ensures
        r@ == padded_flat(rows_view(rows@), width as nat),
{
    let ghost rv = rows_view(rows@);
    let mut out: Vec<i64> = Vec::new();
    let mut b: usize = 0;
    while b < rows.len()
        invariant
            b <= rows@.len(),
            rv == rows_view(rows@),
            out@ == padded_flat(rv.take(b as int), width as nat),
        decreases rows@.len() - b,
    {
        let row = &rows[b];
        let ghost base = out@;
        assert(rv[b as int] == row@);
        let mut i: usize = 0;
        while i < width
            invariant
                i <= width,
                out@ == base + padded_row(row@, width as nat).take(i as int),
            decreases width - i,
        {
            let v: i64 = if i < row.len() {
                row[i] as i64
            } else {
                0
            };
            out.push(v);
            assert(padded_row(row@, width as nat).take(i + 1) =~= padded_row(row@, width as nat).take(i as int).push(v));
            i = i + 1;
        }
        assert(padded_row(row@, width as nat).take(width as int) =~= padded_row(row@, width as nat));
        assert(rv.take(b + 1).drop_last() =~= rv.take(b as int));
        b = b + 1;
    }
    assert(rv.take(b as int) =~= rv);
    out
}

/// The longest token sequence fed to the model for one text.
pub const MAX_SEQUENCE_TOKENS: usize = 256;

/// What the library knows of its tokenizer: the JSON it was read from, the
/// truncation length set on it (`None`: as the file has it), and whether it
/// pads each batch to its longest text (`false`: as the file has it).
pub struct TokenizerSettings {
    pub json: Seq<u8>,
    pub truncation: Option<usize>,
    pub longest_padding: bool,
}

/// The tokenizer of the embedding model, with the record of how it was made.
pub struct ModelTokenizer {
    inner: tokenizers::Tokenizer,
    json: Vec<u8>,
    truncation: Option<usize>,
    longest_padding: bool,
}

impl View for ModelTokenizer {
    type V = TokenizerSettings;

    closed spec fn view(&self) -> TokenizerSettings {
        TokenizerSettings {
            json: self.json@,
            truncation: self.truncation,
            longest_padding: self.longest_padding,
        }
    }
}

/// Whether `Tokenizer::from_bytes` reads a tokenizer from `json`.
pub uninterp spec fn tokenizer_json_valid(json: Seq<u8>) -> bool;

/// The number of special tokens the post-processor of the tokenizer read
/// from `json` adds to a single text (`added_tokens(false)`; 0 without a
/// post-processor).
pub uninterp spec fn special_tokens_added(json: Seq<u8>) -> nat;

/// What `Tokenizer::encode_batch` (special tokens added) gives on `texts`
/// for the tokenizer read from `s.json` with the settings `s`: the ids,
/// attention mask and type ids of each text, or `None` when it fails.
pub uninterp spec fn encoded_batch(s: TokenizerSettings, texts: Seq<Seq<char>>) -> Option<
    (Seq<Seq<u32>>, Seq<Seq<u32>>, Seq<Seq<u32>>),
>;

/// A tokenizer that encodes without panicking: a truncation length is set
/// (with stride 0) and covers the special tokens its post-processor adds.
pub open spec fn ready(s: TokenizerSettings) -> bool {
    s.truncation matches Some(m) && m >= special_tokens_added(s.json)
}

/// The tokenizer of the embedding model.
#[verifier::external_type_specification]
#[verifier::external_body]
pub struct ExTokenizer(tokenizers::Tokenizer);

/// `Tokenizer::from_bytes`. Trusted: it succeeds exactly when the bytes are
/// a tokenizer file (`tokenizer_json_valid`); the error comes back as its
/// message.
#[verifier::external_body]
fn parse_tokenizer(json: &Vec<u8>) -> (r: Result<tokenizers::Tokenizer, String>)
    ensures
        r is Ok <==> tokenizer_json_valid(json@),
{
    match tokenizers::Tokenizer::from_bytes(json) {
        Ok(t) => Ok(t),
        Err(e) => Err(e.to_string()),
    }
}

/// The number of special tokens the tokenizer's post-processor adds to one
/// text, as `TokenizerImpl::get_n_added_tokens(false)` counts them (its
/// `added_tokens(false)`, or 0 without a post-processor). Trusted: it is
/// `special_tokens_added` of the JSON the tokenizer was read from (setting
/// truncation or padding leaves the post-processor alone).
#[verifier::external_body]
fn special_tokens(tok: &ModelTokenizer) -> (n: usize)
    ensures
        n == special_tokens_added(tok.json@),
{
    match tok.inner.get_post_processor() {
        Some(p) => tokenizers::tokenizer::PostProcessor::added_tokens(p, false),
        None => 0,
    }
}

/// `Tokenizer::with_truncation` with the given maximum length and the other
/// truncation settings at their defaults (stride 0), recorded in the
/// tokenizer's settings. Trusted: the tokenizer then truncates at
/// `max_length`. The call fails only when the maximum length minus the added
/// special tokens is below the stride, which with stride 0 and the
/// `requires` never happens; the `requires` also rules out the
/// subtraction's overflow.
#[verifier::external_body]
fn set_truncation(tok: &mut ModelTokenizer, max_length: usize)
    requires
        max_length >= special_tokens_added(old(tok)@.json),
    ensures
        final(tok)@ == (TokenizerSettings { truncation: Some(max_length), ..old(tok)@ }),
{
    let params = tokenizers::TruncationParams { max_length, ..Default::default() };
    let _ = tok.inner.with_truncation(Some(params));
    tok.truncation = Some(max_length);
}

/// `Tokenizer::with_padding` with `PaddingStrategy::BatchLongest` and the
/// other padding settings at their defaults, recorded in the tokenizer's
/// settings. Trusted: the tokenizer then pads each batch to its longest
/// encoding; the call cannot fail.
#[verifier::external_body]
fn pad_to_longest(tok: &mut ModelTokenizer)
    ensures
        final(tok)@ == (TokenizerSettings { longest_padding: true, ..old(tok)@ }),
{
    let strategy = tokenizers::PaddingStrategy::BatchLongest;
    tok.inner.with_padding(Some(tokenizers::PaddingParams { strategy, ..Default::default() }));
    tok.longest_padding = true;
}

/// `Tokenizer::encode_batch` of the texts, special tokens added, each
/// encoding given by its ids, its attention mask and its type ids, in three
/// lists of rows. Trusted: the outcome is `encoded_batch` of the tokenizer's
/// settings and the texts, and on success each list has one row per text
/// (the source maps each input to one encoding and pads them in place). The
/// `requires` rules out the source's panics: the truncation subtraction and
/// the stride check of `Encoding::truncate`.
#[verifier::external_body]
fn encode_batch_rows(tok: &ModelTokenizer, texts: &Vec<String>) -> (r: Result<
    (Vec<Vec<u32>>, Vec<Vec<u32>>, Vec<Vec<u32>>),
    String,
>)
    requires
        tok.truncation matches Some(m) && m >= special_tokens_added(tok.json@),
    ensures
        match r {
            Ok(rows) => rows.0@.len() == texts@.len() && rows.1@.len() == texts@.len()
                && rows.2@.len() == texts@.len() && encoded_batch(tok@, strings_view(texts@))
                == Some((rows_view(rows.0@), rows_view(rows.1@), rows_view(rows.2@))),
            Err(_) => encoded_batch(tok@, strings_view(texts@)) is None,
        },
{
    let inputs: Vec<&str> = texts.iter().map(|t| t.as_str()).collect();
    match tok.inner.encode_batch(inputs, true) {
        Ok(encs) => Ok((
            encs.iter().map(|e| e.get_ids().to_vec()).collect(),
            encs.iter().map(|e| e.get_attention_mask().to_vec()).collect(),
            encs.iter().map(|e| e.get_type_ids().to_vec()).collect(),
        )),
        Err(e) => Err(e.to_string()),
    }
}

/// Reads the tokenizer from the bytes of its file, with the settings the
/// file has. Bytes that are no tokenizer give "Failed to load tokenizer: "
/// and the parser's message.
pub fn load_tokenizer(json: Vec<u8>) -> (r: Result<ModelTokenizer, CortexError>)
    ensures
        r is Ok <==> tokenizer_json_valid(json@),
        r matches Ok(t) ==> t@ == (TokenizerSettings {
            json: json@,
            truncation: None,
            longest_padding: false,
        }),
        r matches Err(e) ==> (e matches CortexError::Embedding(msg) && exists|t: Seq<char>|
            msg@ == "Failed to load tokenizer: "@ + t),
{
    match parse_tokenizer(&json) {
        Ok(inner) => Ok(ModelTokenizer { inner, json, truncation: None, longest_padding: false }),
        Err(msg) => {
            let full = concat3("Failed to load tokenizer: ", msg.as_str(), "");
            proof {
                reveal_strlit("");
                assert(full@ == "Failed to load tokenizer: "@ + msg@);
            }
            Err(CortexError::Embedding(full))
        },
    }
}

/// Sets up a loaded tokenizer for the model: encodings are truncated at
/// `MAX_SEQUENCE_TOKENS` tokens, and each batch is padded to its longest
/// text. A tokenizer whose post-processor adds more special tokens than
/// that is refused with a truncation config error, and left as it was.
pub fn configure_tokenizer(tokenizer: &mut ModelTokenizer) -> (r: Result<(), CortexError>)
    ensures
        special_tokens_added(old(tokenizer)@.json) <= MAX_SEQUENCE_TOKENS <==> r is Ok,
        r is Ok ==> final(tokenizer)@ == (TokenizerSettings {
            json: old(tokenizer)@.json,
            truncation: Some(MAX_SEQUENCE_TOKENS),
            longest_padding: true,
        }),
        r matches Err(e) ==> final(tokenizer)@ == old(tokenizer)@ && (e matches CortexError::Embedding(msg)
            && msg@ == "Truncation config error: more special tokens than the maximum length"@),
{
    let added = special_tokens(tokenizer);
    if added > MAX_SEQUENCE_TOKENS {
        return Err(
            CortexError::Embedding(
                "Truncation config error: more special tokens than the maximum length".to_string(),
            ),
        );
    }
    set_truncation(tokenizer, MAX_SEQUENCE_TOKENS);
    pad_to_longest(tokenizer);
    Ok(())
}

/// The three inputs of the embedding model for a batch of texts, each a
/// `[batch, seq_len]` tensor in flat row-major layout.
#[derive(Debug)]
pub struct ModelInputs {
    pub batch: usize,
    pub seq_len: usize,
    pub input_ids: Vec<i64>,
    pub attention_mask: Vec<i64>,
    pub token_type_ids: Vec<i64>,
}

/// `m` lays out the token rows `ids`, `mask` and `types` of `n` texts: each
/// cut or padded to the length of the first text's ids.
pub open spec fn lays_out(m: ModelInputs, n: nat, ids: Seq<Seq<u32>>, mask: Seq<Seq<u32>>, types: Seq<Seq<u32>>) -> bool {
    &&& m.batch == n
    &&& ids.len() == n && mask.len() == n && types.len() == n
    &&& m.seq_len == (if n > 0 {
        ids[0].len()
    } else {
        0
    })
    &&& m.input_ids@ == padded_flat(ids, m.seq_len as nat)
    &&& m.attention_mask@ == padded_flat(mask, m.seq_len as nat)
    &&& m.token_type_ids@ == padded_flat(types, m.seq_len as nat)
}

/// The padded rows of a batch fit in memory: no rows, or the batch size
/// times the first row's length fits in `usize`.
pub open spec fn rows_fit(ids: Seq<Seq<u32>>) -> bool {
    ids.len() == 0 || ids.len() * ids[0].len() <= usize::MAX
}

/// Lays out the model's inputs from the token rows of a batch (ids,
/// attention mask and type ids, one row per text): each row cut or padded
/// with zeros to the length of the first text's ids. A layout whose size
/// does not fit in `usize` is refused with "Tensor too large".
pub fn inputs_from_rows(ids: &Vec<Vec<u32>>, mask: &Vec<Vec<u32>>, types: &Vec<Vec<u32>>) -> (r: Result<
    ModelInputs,
    CortexError,
>)
    requires
        ids@.len() == mask@.len(),
        ids@.len() == types@.len(),
    ensures
        rows_fit(rows_view(ids@)) <==> r is Ok,
        r matches Ok(m) ==> lays_out(m, ids@.len(), rows_view(ids@), rows_view(mask@), rows_view(types@)),
        r matches Err(e) ==> (e matches CortexError::Embedding(msg) && msg@ == "Tensor too large"@),
{
    let n = ids.len();
    let seq_len: usize = if n == 0 {
        0
    } else {
        ids[0].len()
    };
    if n.checked_mul(seq_len).is_none() {
        return Err(CortexError::Embedding("Tensor too large".to_string()));
    }
    let input_ids = flatten_padded(ids, seq_len);
    let attention_mask = flatten_padded(mask, seq_len);
    let token_type_ids = flatten_padded(types, seq_len);
    let m = ModelInputs { batch: n, seq_len, input_ids, attention_mask, token_type_ids };
    assert(lays_out(m, ids@.len(), rows_view(ids@), rows_view(mask@), rows_view(types@)));
    Ok(m)
}

/// Tokenizes a batch of texts and lays out the model's inputs with
/// `inputs_from_rows`: an empty batch gives empty inputs without tokenizing;
/// a tokenizer not set up by `configure_tokenizer` (or one like it) gives
/// "Tokenizer not configured"; a tokenizer failure gives "Tokenization
/// failed: " and the tokenizer's message; a layout too large gives "Tensor
/// too large".
pub fn encode_texts(tokenizer: &ModelTokenizer, texts: &Vec<String>) -> (r: Result<
    ModelInputs,
    CortexError,
>)
    ensures
        texts@.len() == 0 ==> (r matches Ok(m) && lays_out(m, 0, seq![], seq![], seq![])),
        texts@.len() > 0 && !ready(tokenizer@) ==> (r matches Err(e) && e matches CortexError::Embedding(
            msg,
        ) && msg@ == "Tokenizer not configured"@),
        texts@.len() > 0 && ready(tokenizer@) ==> match encoded_batch(tokenizer@, strings_view(texts@)) {
            None => r matches Err(e) && e matches CortexError::Embedding(msg) && exists|t: Seq<char>|
                msg@ == "Tokenization failed: "@ + t,
            Some(rows) => if rows_fit(rows.0) {
                r matches Ok(m) && lays_out(m, texts@.len(), rows.0, rows.1, rows.2)
            } else {
                r matches Err(e) && e matches CortexError::Embedding(msg) && msg@ == "Tensor too large"@
            },
        },
{
    if texts.len() == 0 {
        let m = ModelInputs {
            batch: 0,
            seq_len: 0,
            input_ids: Vec::new(),
            attention_mask: Vec::new(),
            token_type_ids: Vec::new(),
        };
        proof {
            assert(padded_flat(seq![], 0) =~= Seq::<i64>::empty());
            assert(lays_out(m, 0, seq![], seq![], seq![]));
        }
        return Ok(m);
    }
    let added = special_tokens(tokenizer);
    let configured = match tokenizer.truncation {
        Some(m) => m >= added,
        None => false,
    };
    proof {
        assert(tokenizer@.truncation == tokenizer.truncation && tokenizer@.json == tokenizer.json@);
    }
    if !configured {
        return Err(CortexError::Embedding("Tokenizer not configured".to_string()));
    }
    let (ids, mask, types) = match encode_batch_rows(tokenizer, texts) {
        Err(msg) => {
            let full = concat3("Tokenization failed: ", msg.as_str(), "");
            proof {
                reveal_strlit("");
                assert(full@ == "Tokenization failed: "@ + msg@);
            }
            return Err(CortexError::Embedding(full));
        },
        Ok(rows) => rows,
    };
    inputs_from_rows(&ids, &mask, &types)
}

} // verus!
