//! What a run is asked to do, and the part of it that the result repeats.
use std::path::PathBuf;
use vstd::prelude::*;

verus! {

/// `std::path::PathBuf`, which the library carries and does not look into.
#[verifier::external_type_specification]
#[verifier::external_body]
pub struct ExPathBuf(std::path::PathBuf);

/// The arguments that every runner takes.
#[derive(Debug)]
pub struct CommonArgs {
    /// The corpus file.
    pub corpus: PathBuf,
    /// The bucket to draw sentences from.
    pub length: String,
    /// How many sentences go into one measured call.
    pub batch: usize,
    /// How many threads the engine may use.
    pub threads: usize,
    /// How many embeddings to compute and discard first.
    pub warmup: usize,
    /// How many embeddings to measure.
    pub measure: usize,
    /// The file that the result goes to.
    pub out: PathBuf,
    /// The file that the vectors go to, if they are wanted.
    pub save_vectors: Option<PathBuf>,
    /// The precision that the result is labelled with.
    pub precision: String,
}

/// The configuration that a result was measured under.
#[derive(Debug)]
pub struct RunConfig {
    pub batch_size: usize,
    pub threads: usize,
    pub length: String,
    pub precision: String,
    pub warmup: usize,
    pub measure: usize,
}

/// Whether `config` says what `common` asked for.
pub open spec fn describes(config: RunConfig, common: CommonArgs) -> bool {
    &&& config.batch_size == common.batch
    &&& config.threads == common.threads
    &&& config.length@ == common.length@
    &&& config.precision@ == common.precision@
    &&& config.warmup == common.warmup
    &&& config.measure == common.measure
}

/// The configuration that the result of a run with these arguments reports.
pub fn build_run_config(common: &CommonArgs) -> (config: RunConfig)
    ensures
        describes(config, *common),
{
    RunConfig {
        batch_size: common.batch,
        threads: common.threads,
        length: common.length.clone(),
        precision: common.precision.clone(),
        warmup: common.warmup,
        measure: common.measure,
    }
}

/// The configuration repeats what was asked for, each number and name in its
/// place.
pub proof fn law_config_repeats_the_arguments(common: CommonArgs, config: RunConfig)
    requires
        call_ensures(build_run_config, (&common,), config),
    ensures
        config.batch_size == common.batch,
        config.threads == common.threads,
        config.length@ == common.length@,
        config.precision@ == common.precision@,
        config.warmup == common.warmup,
        config.measure == common.measure,
{
}

} // verus!
