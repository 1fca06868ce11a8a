//! The record that a run leaves behind.
use crate::config::RunConfig;
use crate::double::Double;
use crate::latency::Latency;
use crate::memory::Megabytes;
use vstd::prelude::*;

verus! {

/// What was measured.
#[derive(Debug)]
pub struct Metrics {
    /// Latency per item, in milliseconds.
    pub latency_ms: Latency,
    /// Embeddings per second.
    pub throughput_eps: Double,
    /// How long the engine took to start, in milliseconds.
    pub cold_start_ms: Double,
    /// Memory before the warmup.
    pub rss_idle_mb: Megabytes,
    /// The largest memory reading of the run.
    pub rss_peak_mb: Megabytes,
}

/// The record of a run.
#[derive(Debug)]
pub struct BenchResult {
    pub backend: String,
    pub config: RunConfig,
    pub metrics: Metrics,
    pub vectors_path: Option<String>,
    pub raw_latencies_ms: Vec<Double>,
}

} // verus!
