use cortex::model::{flatten_padded, model_paths, model_url, tokenizer_url};

#[test]
fn model_files_in_directory() {
    let p = model_paths("/data/models/m");
    assert_eq!(p.model, "/data/models/m/model.onnx");
    assert_eq!(p.tokenizer, "/data/models/m/tokenizer.json");
}

#[test]
fn download_urls() {
    assert_eq!(
        model_url("all-MiniLM-L6-v2"),
        "https://huggingface.co/sentence-transformers/all-MiniLM-L6-v2/resolve/main/onnx/model.onnx"
    );
    assert_eq!(
        tokenizer_url("all-MiniLM-L6-v2"),
        "https://huggingface.co/sentence-transformers/all-MiniLM-L6-v2/resolve/main/tokenizer.json"
    );
}

#[test]
fn rows_padded_and_flattened() {
    let rows = vec![vec![101, 7, 102], vec![101, 102]];
    assert_eq!(flatten_padded(&rows, 3), vec![101, 7, 102, 101, 102, 0]);
}

#[test]
fn rows_cut_to_width() {
    let rows = vec![vec![1, 2, 3, 4], vec![5]];
    assert_eq!(flatten_padded(&rows, 2), vec![1, 2, 5, 0]);
    assert_eq!(flatten_padded(&rows, 0), Vec::<i64>::new());
    assert_eq!(flatten_padded(&vec![], 4), Vec::<i64>::new());
}

#[test]
fn large_token_values_keep_their_value() {
    assert_eq!(flatten_padded(&vec![vec![u32::MAX]], 1), vec![u32::MAX as i64]);
}

fn tokenizer_json(post_processor: &str) -> String {
    format!(
        r#"{{
        "version": "1.0",
        "truncation": null,
        "padding": null,
        "added_tokens": [],
        "normalizer": null,
        "pre_tokenizer": {{"type": "WhitespaceSplit"}},
        "post_processor": {post_processor},
        "decoder": null,
        "model": {{"type": "WordLevel", "vocab": {{"[UNK]": 0, "a": 1, "b": 2, "[CLS]": 101, "[SEP]": 102}}, "unk_token": "[UNK]"}}
    }}"#
    )
}

fn word_tokenizer() -> cortex::model::ModelTokenizer {
    cortex::model::load_tokenizer(tokenizer_json("null").into_bytes()).unwrap()
}

fn configured(mut tok: cortex::model::ModelTokenizer) -> cortex::model::ModelTokenizer {
    cortex::model::configure_tokenizer(&mut tok).unwrap();
    tok
}

#[test]
fn texts_tokenized_and_laid_out() {
    let tok = configured(word_tokenizer());
    let texts = vec!["a b".to_string(), "b".to_string(), "a zz".to_string()];
    let m = cortex::model::encode_texts(&tok, &texts).unwrap();
    assert_eq!((m.batch, m.seq_len), (3, 2));
    assert_eq!(m.input_ids, vec![1, 2, 2, 0, 1, 0]);
    assert_eq!(m.attention_mask, vec![1, 1, 1, 0, 1, 1]);
    assert_eq!(m.token_type_ids, vec![0, 0, 0, 0, 0, 0]);
}

#[test]
fn empty_batch_not_tokenized() {
    let tok = word_tokenizer();
    let m = cortex::model::encode_texts(&tok, &vec![]).unwrap();
    assert_eq!((m.batch, m.seq_len), (0, 0));
    assert!(m.input_ids.is_empty() && m.attention_mask.is_empty() && m.token_type_ids.is_empty());
}

#[test]
fn rows_laid_out_to_first_row_length() {
    let ids = vec![vec![1, 2], vec![3, 4, 5], vec![]];
    let mask = vec![vec![1, 1], vec![1, 1, 1], vec![]];
    let types = vec![vec![0, 0], vec![0, 1, 1], vec![]];
    let m = cortex::model::inputs_from_rows(&ids, &mask, &types).unwrap();
    assert_eq!((m.batch, m.seq_len), (3, 2));
    assert_eq!(m.input_ids, vec![1, 2, 3, 4, 0, 0]);
    assert_eq!(m.attention_mask, vec![1, 1, 1, 1, 0, 0]);
    assert_eq!(m.token_type_ids, vec![0, 0, 0, 1, 0, 0]);
    let e = cortex::model::inputs_from_rows(&vec![], &vec![], &vec![]).unwrap();
    assert_eq!((e.batch, e.seq_len, e.input_ids.len()), (0, 0, 0));
}

#[test]
fn configured_tokenizer_truncates_and_pads_to_longest() {
    let tok = configured(word_tokenizer());
    let long = vec!["a"; 300].join(" ");
    let texts = vec![long, "b".to_string()];
    let m = cortex::model::encode_texts(&tok, &texts).unwrap();
    assert_eq!((m.batch, m.seq_len), (2, 256));
    assert_eq!(m.input_ids[255], 1);
    assert_eq!(&m.input_ids[256..258], &[2, 0]);
    assert_eq!(m.attention_mask[257], 0);
}

#[test]
fn special_tokens_fit_in_the_maximum() {
    let template = r#"{"type": "TemplateProcessing",
        "single": [{"SpecialToken": {"id": "[CLS]", "type_id": 0}}, {"Sequence": {"id": "A", "type_id": 0}}, {"SpecialToken": {"id": "[SEP]", "type_id": 0}}],
        "pair": [{"Sequence": {"id": "A", "type_id": 0}}, {"Sequence": {"id": "B", "type_id": 1}}],
        "special_tokens": {"[CLS]": {"id": "[CLS]", "ids": [101], "tokens": ["[CLS]"]}, "[SEP]": {"id": "[SEP]", "ids": [102], "tokens": ["[SEP]"]}}}"#;
    let tok = configured(cortex::model::load_tokenizer(tokenizer_json(template).into_bytes()).unwrap());
    let long = vec!["a"; 300].join(" ");
    let m = cortex::model::encode_texts(&tok, &vec![long]).unwrap();
    assert_eq!(m.seq_len, 256);
    assert_eq!((m.input_ids[0], m.input_ids[1], m.input_ids[255]), (101, 1, 102));
}

#[test]
fn unconfigured_tokenizer_refused() {
    let tok = word_tokenizer();
    match cortex::model::encode_texts(&tok, &vec!["a".to_string()]) {
        Err(cortex::error::CortexError::Embedding(m)) => assert_eq!(m, "Tokenizer not configured"),
        other => panic!("unexpected {other:?}"),
    }
}

#[test]
fn bad_tokenizer_file_refused() {
    match cortex::model::load_tokenizer(b"not a tokenizer".to_vec()) {
        Err(cortex::error::CortexError::Embedding(m)) => assert!(m.starts_with("Failed to load tokenizer: ")),
        Err(e) => panic!("unexpected error {e:?}"),
        Ok(_) => panic!("accepted"),
    }
}
