use embedding_bench::workers::{record_items, worker_count, Tickets, Worker};
use embedding_bench::{draw, Action, CommonArgs, Double, Engine, Event, Megabytes, Plan, Run};
use std::path::PathBuf;

fn double(x: f64) -> Double {
    Double { bits: x.to_bits() }
}

fn arguments(batch: usize, warmup: usize, measure: usize, save: bool) -> CommonArgs {
    CommonArgs {
        corpus: PathBuf::from("corpus.json"),
        length: "short".to_string(),
        batch,
        threads: 1,
        warmup,
        measure,
        out: PathBuf::from("out.json"),
        save_vectors: if save { Some(PathBuf::from("v.bin")) } else { None },
        precision: "fp32".to_string(),
    }
}

struct Course {
    actions: Vec<Action>,
    embedded: Vec<String>,
    timed: Vec<String>,
    run: Run,
}

/// Drives an in-process run whose engine returns `short` vectors too few.
fn drive(sentences: &[String], common: &CommonArgs, short: usize) -> Course {
    let mut run = Run::new(Plan::new(Engine::InProcess, common, sentences.len()));
    let mut course_actions = Vec::new();
    let mut embedded = Vec::new();
    let mut timed = Vec::new();
    let mut memory = 0u64;
    loop {
        let action = run.action();
        course_actions.push(action);
        let event = match action {
            Action::SampleMemory => {
                memory += 1_048_576;
                Event::Memory { bytes: Some(memory) }
            }
            Action::LoadModel => Event::Started { cold_start_ms: double(9.0) },
            Action::FirstRequest | Action::RunWorkers => unreachable!(),
            Action::Embed { start, count } => {
                embedded.extend(draw(sentences, start, count).iter().map(|s| s.to_string()));
                Event::Embedded
            }
            Action::StartClock => Event::ClockStarted,
            Action::EmbedTimed { start, count } => {
                let batch = draw(sentences, start, count);
                timed.extend(batch.iter().map(|s| s.to_string()));
                Event::BatchDone { outputs: batch.len() - short, per_item_ms: double(timed.len() as f64) }
            }
            Action::StopClock => Event::ClockStopped { throughput_eps: double(run.measured() as f64) },
            Action::SaveVectors => Event::Saved,
            Action::Report => break,
        };
        run.advance(event);
    }
    Course { actions: course_actions, embedded, timed, run }
}

fn sentences() -> Vec<String> {
    vec!["a".to_string(), "b".to_string(), "c".to_string()]
}

#[test]
fn a_run_takes_its_course() {
    let common = arguments(2, 4, 5, true);
    let course = drive(&sentences(), &common, 0);
    assert_eq!(course.embedded, ["a", "a", "b", "c", "a"]);
    assert_eq!(course.timed, ["a", "b", "c", "a", "b", "c"]);
    assert_eq!(
        course.run.latencies(),
        [double(2.0), double(2.0), double(4.0), double(4.0), double(6.0)]
    );
    assert_eq!(course.run.measured(), 5);
    assert_eq!(
        course.actions,
        [
            Action::SampleMemory,
            Action::LoadModel,
            Action::Embed { start: 0, count: 1 },
            Action::SampleMemory,
            Action::Embed { start: 0, count: 1 },
            Action::Embed { start: 1, count: 1 },
            Action::Embed { start: 2, count: 1 },
            Action::Embed { start: 0, count: 1 },
            Action::StartClock,
            Action::EmbedTimed { start: 0, count: 2 },
            Action::SampleMemory,
            Action::EmbedTimed { start: 2, count: 2 },
            Action::SampleMemory,
            Action::EmbedTimed { start: 1, count: 2 },
            Action::SampleMemory,
            Action::StopClock,
            Action::SaveVectors,
            Action::Report,
        ]
    );
}

#[test]
fn a_run_is_reported() {
    let common = arguments(2, 0, 3, false);
    let course = drive(&sentences(), &common, 0);
    let result = course.run.report("candle".to_string(), &common, None, double(8.0 / 3.0));
    assert_eq!(result.backend, "candle");
    assert_eq!(result.config.batch_size, 2);
    assert_eq!(result.vectors_path, None);
    assert_eq!(result.raw_latencies_ms, [double(2.0), double(2.0), double(4.0)]);
    assert_eq!(result.metrics.latency_ms.mean, double(8.0 / 3.0));
    assert_eq!(result.metrics.latency_ms.p50, double(2.0));
    assert_eq!(result.metrics.latency_ms.p99, double(4.0));
    assert_eq!(result.metrics.throughput_eps, double(3.0));
    assert_eq!(result.metrics.cold_start_ms, double(9.0));
    assert_eq!(result.metrics.rss_idle_mb, Megabytes { whole: 2, rest: 0 });
    assert_eq!(result.metrics.rss_peak_mb, Megabytes { whole: 4, rest: 0 });
}

#[test]
fn nothing_to_measure_is_reported_as_zero() {
    let common = arguments(2, 0, 0, true);
    let course = drive(&sentences(), &common, 0);
    assert!(course.timed.is_empty());
    let path = Some("v.bin".to_string());
    let result = course.run.report("ort".to_string(), &common, path, double(1.0));
    assert_eq!(result.metrics.latency_ms.mean, double(0.0));
    assert_eq!(result.metrics.latency_ms.p50, double(0.0));
    assert_eq!(result.vectors_path, Some("v.bin".to_string()));
    assert!(result.raw_latencies_ms.is_empty());
}

#[test]
fn short_batches_are_made_up_for() {
    let common = arguments(3, 0, 4, false);
    let course = drive(&sentences(), &common, 1);
    assert_eq!(course.run.latencies(), [double(3.0), double(3.0), double(6.0), double(6.0)]);
    assert_eq!(course.timed.len(), 6);
}

#[test]
fn whole_batches_are_as_few_as_needed() {
    for batch in 1usize..9 {
        for measure in 0usize..30 {
            let course = drive(&sentences(), &arguments(batch, 0, measure, false), 0);
            assert_eq!(course.timed.len(), (measure + batch - 1) / batch * batch);
            assert_eq!(course.run.latencies().len(), measure);
            for (k, text) in course.timed.iter().enumerate() {
                assert_eq!(text, &sentences()[k % 3]);
            }
        }
    }
}

#[test]
fn other_events_change_nothing() {
    let common = arguments(1, 0, 1, false);
    let mut run = Run::new(Plan::new(Engine::InProcess, &common, 3));
    run.advance(Event::Embedded);
    run.advance(Event::BatchDone { outputs: 4, per_item_ms: double(1.0) });
    assert_eq!(run.action(), Action::SampleMemory);
    assert!(run.latencies().is_empty());
}

#[test]
fn a_remote_run_takes_its_course() {
    let common = arguments(2, 1, 3, false);
    let mut run = Run::new(Plan::new(Engine::Remote, &common, 3));
    run.advance(Event::Memory { bytes: Some(7) });
    assert_eq!(run.action(), Action::FirstRequest);
    run.advance(Event::Started { cold_start_ms: double(3.0) });
    assert_eq!(run.action(), Action::SampleMemory);
    run.advance(Event::Memory { bytes: None });
    assert_eq!(run.action(), Action::Embed { start: 0, count: 1 });
    run.advance(Event::Embedded);
    assert_eq!(run.action(), Action::StartClock);
    run.advance(Event::ClockStarted);
    assert_eq!(run.action(), Action::RunWorkers);
    let four = vec![double(1.0), double(1.0), double(2.0), double(2.0)];
    run.advance(Event::WorkersDone { latencies_ms: four.clone() });
    assert_eq!(run.action(), Action::StopClock);
    assert_eq!(run.measured(), 3);
    run.advance(Event::ClockStopped { throughput_eps: double(5.0) });
    assert_eq!(run.action(), Action::SampleMemory);
    run.advance(Event::Memory { bytes: Some(11) });
    assert_eq!(run.action(), Action::Report);
    let result = run.report("ollama".to_string(), &common, None, double(1.5));
    assert_eq!(result.raw_latencies_ms, four);
    assert_eq!(result.metrics.rss_idle_mb, Megabytes { whole: 0, rest: 0 });
    assert_eq!(result.metrics.rss_peak_mb, Megabytes { whole: 0, rest: 11 });
}

#[test]
fn there_is_always_a_worker() {
    assert_eq!(worker_count(0), 1);
    assert_eq!(worker_count(1), 1);
    assert_eq!(worker_count(16), 16);
}

#[test]
fn tickets_cover_the_target() {
    for batch in 1usize..7 {
        for target in 0usize..20 {
            let mut tickets = Tickets::new();
            let mut granted = 0;
            for _ in 0..40 {
                if tickets.claim(batch, target) {
                    granted += 1;
                }
            }
            assert_eq!(granted, (target + batch - 1) / batch);
        }
    }
}

#[test]
fn tickets_wrap_round() {
    let mut tickets = Tickets::new();
    assert!(tickets.claim(usize::MAX, 1));
    assert!(!tickets.claim(1, 1));
    assert!(tickets.claim(0, 1));
}

#[test]
fn workers_start_apart_and_go_round() {
    let mut worker = Worker::new(2, 8, 5);
    assert_eq!(worker.next_start(), 1);
    assert_eq!(worker.next_start(), 4);
    assert_eq!(worker.next_start(), 2);
    let mut far = Worker::new(usize::MAX, usize::MAX, 10);
    assert_eq!(far.next_start(), 5);
}

#[test]
fn every_vector_is_recorded() {
    let mut latencies = vec![double(1.0)];
    record_items(&mut latencies, 2, double(3.0));
    record_items(&mut latencies, 0, double(4.0));
    assert_eq!(latencies, [double(1.0), double(3.0), double(3.0)]);
}
