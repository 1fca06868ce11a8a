use embedding_bench::output::{needs_directory, oe};
use embedding_bench::{build_run_config, draw, CommonArgs, Corpus, CorpusError, Megabytes, MemProbe};
use std::path::PathBuf;

fn corpus() -> Corpus {
    let mut corpus = Corpus::new();
    corpus.set_bucket("short".to_string(), vec!["a".to_string(), "b".to_string(), "c".to_string()]);
    corpus.set_bucket("none".to_string(), Vec::new());
    corpus
}

#[test]
fn sentences_of_a_bucket() {
    let corpus = corpus();
    assert_eq!(corpus.sentences("short").unwrap(), ["a", "b", "c"]);
    assert!(corpus.sentences("none").unwrap().is_empty());
}

#[test]
fn missing_bucket_is_named() {
    let corpus = corpus();
    let error = corpus.sentences("long").unwrap_err();
    assert!(matches!(&error, CorpusError::NotInCorpus { bucket } if bucket == "long"));
    assert_eq!(error.message(), "bucket not in corpus: long");
    let error = corpus.run_sentences("long").unwrap_err();
    assert_eq!(error.message(), "bucket not in corpus: long");
}

#[test]
fn empty_bucket_is_refused_for_a_run() {
    let corpus = corpus();
    let error = corpus.run_sentences("none").unwrap_err();
    assert!(matches!(&error, CorpusError::EmptyBucket { bucket } if bucket == "none"));
    assert_eq!(error.message(), "corpus bucket none is empty");
    assert_eq!(corpus.run_sentences("short").unwrap().len(), 3);
}

#[test]
fn a_bucket_reads_back_as_set_last() {
    let mut corpus = corpus();
    corpus.set_bucket("short".to_string(), vec!["z".to_string()]);
    assert_eq!(corpus.sentences("short").unwrap(), ["z"]);
    assert!(corpus.sentences("none").is_ok());
}

#[test]
fn draws_go_round() {
    let corpus = corpus();
    let sentences = corpus.sentences("short").unwrap();
    assert_eq!(draw(sentences, 0, 2), ["a", "b"]);
    assert_eq!(draw(sentences, 2, 5), ["c", "a", "b", "c", "a"]);
    assert_eq!(draw(sentences, 7, 1), ["b"]);
    assert!(draw(sentences, 1, 0).is_empty());
}

#[test]
fn draws_continue_where_they_ended() {
    let corpus = corpus();
    let sentences = corpus.sentences("short").unwrap();
    let mut parts = draw(sentences, 1, 4);
    parts.extend(draw(sentences, (1 + 4) % 3, 3));
    assert_eq!(parts, draw(sentences, 1, 7));
}

#[test]
fn run_config_repeats_the_arguments() {
    let common = CommonArgs {
        corpus: PathBuf::from("corpus/sentences.json"),
        length: "medium".to_string(),
        batch: 32,
        threads: 8,
        warmup: 50,
        measure: 500,
        out: PathBuf::from("result.json"),
        save_vectors: None,
        precision: "fp32".to_string(),
    };
    let config = build_run_config(&common);
    assert_eq!(config.batch_size, 32);
    assert_eq!(config.threads, 8);
    assert_eq!(config.length, "medium");
    assert_eq!(config.precision, "fp32");
    assert_eq!(config.warmup, 50);
    assert_eq!(config.measure, 500);
}

#[test]
fn memory_peak_is_kept() {
    let mut probe = MemProbe::new();
    assert_eq!(probe.peak_mb(), Megabytes { whole: 0, rest: 0 });
    assert_eq!(probe.sample_mb(Some(5 * 1_048_576 + 3)), Megabytes { whole: 5, rest: 3 });
    assert_eq!(probe.sample_mb(None), Megabytes { whole: 0, rest: 0 });
    assert_eq!(probe.sample_mb(Some(1_048_575)), Megabytes { whole: 0, rest: 1_048_575 });
    assert_eq!(probe.peak_mb(), Megabytes { whole: 5, rest: 3 });
    assert_eq!(MemProbe::default().peak_mb(), Megabytes { whole: 0, rest: 0 });
}

#[test]
fn megabytes_are_exact_in_floating_point() {
    for bytes in [0u64, 1, 1_048_576, 123_456_789_012, (1 << 53) + 1, u64::MAX - 7, u64::MAX] {
        let amount = Megabytes::of_bytes(bytes);
        let float = amount.whole as f64 + amount.rest as f64 / 1_048_576.0;
        assert_eq!(float, bytes as f64 / 1024.0 / 1024.0);
    }
}

#[test]
fn runtime_errors_are_marked() {
    assert_eq!(oe("no session"), "ort: no session");
}

#[test]
fn only_named_directories_are_made() {
    assert!(needs_directory(Some(3)));
    assert!(!needs_directory(Some(0)));
    assert!(!needs_directory(None));
}

#[test]
fn a_full_draw_is_every_sentence() {
    let corpus = corpus();
    let sentences = corpus.sentences("short").unwrap();
    assert_eq!(draw(sentences, 0, 3), ["a", "b", "c"]);
}
