//! A benchmark harness for sentence embeddings.
//!
//! The harness draws sentences round-robin from a corpus bucket, lets an
//! engine embed them, and reports latency, throughput, start-up time and
//! memory. This library holds everything that the harness decides: the course
//! of a run, what goes into each batch, which latencies are recorded, the
//! percentiles, and the formats that go to engines and files. The engines, the
//! files, the clock and all floating-point arithmetic are the program's.
#![allow(unused_imports)]

pub mod config;
pub mod corpus;
pub mod double;
pub mod latency;
pub mod llama;
pub mod memory;
pub mod ollama;
pub mod output;
pub mod pooling;
pub mod result;
pub mod rows;
pub mod run;
pub mod run_laws;
pub mod sort;
pub mod tokens;
pub mod vectors;
pub mod workers;

pub use config::{build_run_config, CommonArgs, RunConfig};
pub use corpus::{draw, Corpus, CorpusError};
pub use double::{has_nan, Double, Single};
pub use latency::{nearest_rank, Latency};
pub use memory::{Megabytes, MemProbe};
pub use result::{BenchResult, Metrics};
pub use run::{Action, Engine, Event, Phase, Plan, Run};
