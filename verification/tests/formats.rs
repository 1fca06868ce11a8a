use embedding_bench::llama::{context_plan, token_batch, BatchEntry};
use embedding_bench::ollama::{embed_request, embed_url, model_name};
use embedding_bench::pooling::{output_shape, pooled_rows, OutputShape};
use embedding_bench::tokens::{flatten, BatchTokenizer, TokenRow};
use embedding_bench::vectors::encode_vectors;
use embedding_bench::Single;
use tokenizers::Tokenizer;

const TOKENIZER: &str = r#"{
  "version": "1.0",
  "truncation": {"direction": "Right", "max_length": 3, "strategy": "LongestFirst", "stride": 0},
  "padding": {"strategy": {"Fixed": 9}, "direction": "Left", "pad_to_multiple_of": null,
              "pad_id": 5, "pad_type_id": 1, "pad_token": "[FILL]"},
  "added_tokens": [],
  "normalizer": null,
  "pre_tokenizer": {"type": "Whitespace"},
  "post_processor": {"type": "BertProcessing", "sep": ["[SEP]", 3], "cls": ["[CLS]", 4]},
  "decoder": null,
  "model": {"type": "WordLevel", "unk_token": "[UNK]",
            "vocab": {"[PAD]": 0, "hello": 1, "world": 2, "[SEP]": 3, "[CLS]": 4, "[FILL]": 5, "[UNK]": 6}}
}"#;

const TEMPLATE: &str = r#"{
  "version": "1.0", "truncation": null, "padding": null, "added_tokens": [], "normalizer": null,
  "pre_tokenizer": {"type": "Whitespace"},
  "post_processor": {"type": "TemplateProcessing",
    "single": [{"SpecialToken": {"id": "[CLS]", "type_id": 0}}, {"Sequence": {"id": "A", "type_id": 0}},
               {"SpecialToken": {"id": "[SEP]", "type_id": 0}}],
    "pair": [{"Sequence": {"id": "A", "type_id": 0}}, {"Sequence": {"id": "B", "type_id": 1}}],
    "special_tokens": {"[CLS]": {"id": "[CLS]", "ids": [4, 4], "tokens": ["[CLS]", "[CLS]"]},
                       "[SEP]": {"id": "[SEP]", "ids": [3], "tokens": ["[SEP]"]}}},
  "decoder": null,
  "model": {"type": "WordLevel", "unk_token": "[UNK]", "vocab": {"hello": 1, "[UNK]": 6}}
}"#;

const NO_UNKNOWN: &str = r#"{
  "version": "1.0", "truncation": null, "padding": null, "added_tokens": [], "normalizer": null,
  "pre_tokenizer": {"type": "Whitespace"}, "post_processor": null, "decoder": null,
  "model": {"type": "WordLevel", "unk_token": "[UNK]", "vocab": {"hello": 1}}
}"#;

fn row(ids: &[u32], mask: &[u32]) -> TokenRow {
    TokenRow { ids: ids.to_vec(), mask: mask.to_vec() }
}

#[test]
fn url_has_one_slash() {
    assert_eq!(embed_url(None), "http://localhost:11434/api/embed");
    assert_eq!(embed_url(Some("http://other:1")), "http://other:1/api/embed");
    assert_eq!(embed_url(Some("http://other:1/")), "http://other:1/api/embed");
    assert_eq!(embed_url(Some("http://other:1///")), "http://other:1/api/embed");
    assert_eq!(embed_url(Some("///")), "/api/embed");
    assert_eq!(embed_url(Some("")), "/api/embed");
    assert_eq!(embed_url(Some("http://h\u{f6}st/a/")), "http://h\u{f6}st/a/api/embed");
}

#[test]
fn model_has_a_default() {
    assert_eq!(model_name(None), "all-minilm");
    assert_eq!(model_name(Some("mine")), "mine");
}

#[test]
fn request_keeps_the_model_loaded() {
    let request = embed_request("all-minilm", &["a", "b"]);
    assert_eq!(request.model, "all-minilm");
    assert_eq!(request.input, ["a", "b"]);
    assert_eq!(request.keep_alive, -1);
}

#[test]
fn shapes_need_three_dimensions() {
    assert_eq!(output_shape(&[2, 7, 384]).unwrap(), OutputShape { tokens: 7, width: 384 });
    assert_eq!(output_shape(&[1, 2, 7, 384]).unwrap(), OutputShape { tokens: 7, width: 384 });
    assert_eq!(output_shape(&[2, 384]).unwrap_err().shape, [2, 384]);
    assert!(output_shape(&[]).is_err());
}

#[test]
fn padding_is_left_out_of_the_pool() {
    let mask = [1i64, 1, 0, 1, 1, 1];
    let rows = pooled_rows(&mask, 2, 3, OutputShape { tokens: 3, width: 4 });
    assert_eq!(rows, [vec![0, 4], vec![12, 16, 20]]);
    let none = pooled_rows(&[0i64, 0], 1, 2, OutputShape { tokens: 2, width: 4 });
    assert_eq!(none, [Vec::<usize>::new()]);
    let flat = pooled_rows(&[1i64, 1], 1, 2, OutputShape { tokens: 2, width: 0 });
    assert_eq!(flat, [vec![0, 0]]);
    assert!(pooled_rows(&[], 0, 0, OutputShape { tokens: 2, width: 4 }).is_empty());
}

#[test]
fn pooled_rows_lie_apart() {
    let mask = [1i64; 12];
    let rows = pooled_rows(&mask, 3, 4, OutputShape { tokens: 4, width: 5 });
    let all: Vec<usize> = rows.concat();
    for (i, start) in all.iter().enumerate() {
        assert_eq!(*start, i * 5);
    }
}

#[test]
fn rows_are_laid_end_to_end() {
    let matrix = flatten(&[row(&[1, 2], &[1, 1]), row(&[3, 0], &[1, 0])]);
    assert_eq!((matrix.batch, matrix.len), (2, 2));
    assert_eq!(matrix.ids, [1, 2, 3, 0]);
    assert_eq!(matrix.mask, [1, 1, 1, 0]);
    let inputs = matrix.model_inputs();
    assert_eq!(inputs.ids, [1i64, 2, 3, 0]);
    assert_eq!(inputs.mask, [1i64, 1, 1, 0]);
    assert_eq!(inputs.type_ids, [0i64, 0, 0, 0]);
}

#[test]
fn no_rows_make_an_empty_matrix() {
    let matrix = flatten(&[]);
    assert_eq!((matrix.batch, matrix.len), (0, 0));
    assert!(matrix.ids.is_empty());
    assert!(matrix.model_inputs().type_ids.is_empty());
}

#[test]
fn large_ids_stay_positive() {
    let inputs = flatten(&[row(&[u32::MAX], &[1])]).model_inputs();
    assert_eq!(inputs.ids, [4294967295i64]);
}

#[test]
fn batches_are_filled_up_to_the_longest() {
    let tokenizer = BatchTokenizer::new(Tokenizer::from_bytes(TOKENIZER).unwrap()).unwrap();
    let matrix = tokenizer.encode(&["hello", "hello world world hello"]).unwrap();
    assert_eq!((matrix.batch, matrix.len), (2, 6));
    assert_eq!(matrix.ids, [4, 1, 3, 0, 0, 0, 4, 1, 2, 2, 1, 3]);
    assert_eq!(matrix.mask, [1, 1, 1, 0, 0, 0, 1, 1, 1, 1, 1, 1]);
}

#[test]
fn an_empty_batch_encodes_to_nothing() {
    let tokenizer = BatchTokenizer::new(Tokenizer::from_bytes(TOKENIZER).unwrap()).unwrap();
    let matrix = tokenizer.encode(&[]).unwrap();
    assert_eq!((matrix.batch, matrix.len), (0, 0));
    assert!(matrix.ids.is_empty());
    assert!(matrix.mask.is_empty());
    let strict = BatchTokenizer::new(Tokenizer::from_bytes(NO_UNKNOWN).unwrap()).unwrap();
    assert_eq!(strict.encode(&[]).unwrap().batch, 0);
}

#[test]
fn only_padding_and_truncation_are_set() {
    let before = Tokenizer::from_bytes(TOKENIZER).unwrap();
    let alone = before.encode("world", true).unwrap();
    assert_eq!(alone.get_ids(), [5, 5, 5, 5, 5, 5, 4, 2, 3]);
    let tokenizer = BatchTokenizer::new(before).unwrap();
    let matrix = tokenizer.encode(&["world"]).unwrap();
    assert_eq!(matrix.ids, [4, 2, 3]);
}

#[test]
fn each_token_has_a_mask_entry() {
    for file in [TOKENIZER, TEMPLATE, NO_UNKNOWN] {
        let tokenizer = BatchTokenizer::new(Tokenizer::from_bytes(file).unwrap()).unwrap();
        let matrix = tokenizer.encode(&["hello hello", "", "hello"]).unwrap();
        assert_eq!(matrix.batch, 3);
        assert_eq!(matrix.ids.len(), matrix.batch * matrix.len);
        assert_eq!(matrix.mask.len(), matrix.batch * matrix.len);
    }
}

#[test]
fn templates_add_their_special_tokens() {
    let tokenizer = BatchTokenizer::new(Tokenizer::from_bytes(TEMPLATE).unwrap()).unwrap();
    let matrix = tokenizer.encode(&["hello", ""]).unwrap();
    assert_eq!((matrix.batch, matrix.len), (2, 4));
    assert_eq!(matrix.ids, [4, 4, 1, 3, 4, 4, 3, 0]);
    assert_eq!(matrix.mask, [1, 1, 1, 1, 1, 1, 1, 0]);
}

#[test]
fn encoding_errors_are_marked() {
    let tokenizer = BatchTokenizer::new(Tokenizer::from_bytes(NO_UNKNOWN).unwrap()).unwrap();
    let text = tokenizer.encode(&["strange"]).unwrap_err();
    assert!(text.starts_with("encode: "));
    assert!(text.len() > "encode: ".len());
}

#[test]
fn contexts_hold_at_least_one_sentence() {
    let plan = context_plan(32, 8);
    assert_eq!((plan.n_ctx, plan.n_batch, plan.n_seq_max, plan.n_threads), (512, 16384, 64, 8));
    assert_eq!(context_plan(0, 1).n_batch, 512);
    assert_eq!(context_plan(1, 1).n_batch, 512);
}

#[test]
fn token_batches_want_the_last_output() {
    let batch = token_batch(&[vec![11, 12], Vec::new(), vec![13]]);
    assert_eq!(batch.capacity, 3);
    assert_eq!(batch.sequences, 3);
    assert_eq!(
        batch.entries,
        [
            BatchEntry { token: 11, position: 0, sequence: 0, output: false },
            BatchEntry { token: 12, position: 1, sequence: 0, output: true },
            BatchEntry { token: 13, position: 0, sequence: 2, output: true },
        ]
    );
    assert_eq!(token_batch(&[]).capacity, 1);
}

#[test]
fn vectors_are_little_endian() {
    let vectors = vec![vec![1.0f32, -2.5], vec![f32::MIN_POSITIVE, 0.1]];
    let patterns: Vec<Vec<Single>> =
        vectors.iter().map(|v| v.iter().map(|x| Single { bits: x.to_bits() }).collect()).collect();
    let bytes = encode_vectors(&patterns);
    let mut expected = Vec::new();
    for v in &vectors {
        for x in v {
            expected.extend_from_slice(&x.to_le_bytes());
        }
    }
    assert_eq!(bytes, expected);
    assert_eq!(encode_vectors(&[]), Vec::<u8>::new());
}

#[test]
fn vectors_read_back() {
    let vectors = vec![vec![0.5f32, 1.5, -3.0], vec![7.0, 0.0, 9.25]];
    let patterns: Vec<Vec<Single>> =
        vectors.iter().map(|v| v.iter().map(|x| Single { bits: x.to_bits() }).collect()).collect();
    let bytes = encode_vectors(&patterns);
    for k in 0..2usize {
        for j in 0..3usize {
            let at = 4 * (k * 3 + j);
            let four = [bytes[at], bytes[at + 1], bytes[at + 2], bytes[at + 3]];
            assert_eq!(f32::from_le_bytes(four), vectors[k][j]);
        }
    }
}
