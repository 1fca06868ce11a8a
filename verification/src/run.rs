//! The course of a benchmark run.
//!
//! A run alternates between what it asks for (load the model, embed these
//! sentences, read the memory) and the answer. [`Run::action`] says what to do
//! next and [`Run::advance`] takes the answer in; whoever drives the run does
//! the work in between.
use crate::config::{build_run_config, describes, CommonArgs};
use crate::double::{some_nan, Double};
use crate::latency::{is_percentile, Latency};
use crate::memory::{larger, reading_bytes, Megabytes, MemProbe};
use crate::result::{BenchResult, Metrics};
use vstd::prelude::*;

verus! {

/// How the engine is reached.
#[derive(Debug, Clone, Copy, PartialEq, Eq, Structural)]
pub enum Engine {
    /// A library in this process: the model is loaded, then called batch by batch.
    InProcess,
    /// A server: the first request loads the model, and workers send the batches.
    Remote,
}

/// What a run is to do.
#[derive(Debug, Clone, Copy, PartialEq, Eq, Structural)]
pub struct Plan {
    pub engine: Engine,
    /// How many sentences there are to draw from.
    pub sentences: usize,
    /// How many sentences go into one measured call.
    pub batch: usize,
    /// How many embeddings to compute and discard first.
    pub warmup: usize,
    /// How many embeddings to measure.
    pub measure: usize,
    /// Whether the vectors of all sentences are to be saved.
    pub save_vectors: bool,
}

/// How far a run has come: what it waits for.
#[derive(Debug, Clone, Copy, PartialEq, Eq, Structural)]
pub enum Phase {
    /// The first memory reading.
    Baseline,
    /// The start of the engine.
    ColdStart,
    /// The first embedding of an engine in this process.
    Prime,
    /// The memory reading before the warmup.
    Idle,
    /// The warmup embedding number `done`.
    Warmup { done: usize },
    /// The start of the clock.
    StartClock,
    /// A measured batch.
    Measure,
    /// The memory reading after a measured batch.
    AfterBatch,
    /// The workers.
    Workers,
    /// The end of the clock.
    StopClock,
    /// The memory reading after the workers.
    AfterWorkers,
    /// The saved vectors.
    Save,
    /// Nothing more: the result can be reported.
    Report,
}

/// What the run asks for.
#[derive(Debug, Clone, Copy, PartialEq, Eq, Structural)]
pub enum Action {
    /// Read the memory of the process.
    SampleMemory,
    /// Load the model, and time it.
    LoadModel,
    /// Send the first sentence, and time it.
    FirstRequest,
    /// Embed `count` sentences, round-robin from `start`, and discard the vectors.
    Embed { start: usize, count: usize },
    /// Note the time.
    StartClock,
    /// Embed `count` sentences, round-robin from `start`, and time it.
    EmbedTimed { start: usize, count: usize },
    /// Let the workers measure.
    RunWorkers,
    /// Say how many embeddings per second there were since the clock was started.
    StopClock,
    /// Embed every sentence and save the vectors.
    SaveVectors,
    /// Report the result.
    Report,
}

/// The answer to an action.
#[derive(Debug)]
pub enum Event {
    /// The memory of the process, if it was found.
    Memory { bytes: Option<u64> },
    /// The engine has started.
    Started { cold_start_ms: Double },
    /// The sentences were embedded.
    Embedded,
    /// The clock runs.
    ClockStarted,
    /// The batch came back as `outputs` vectors, at this latency each.
    BatchDone { outputs: usize, per_item_ms: Double },
    /// The workers are done, with these latencies per item.
    WorkersDone { latencies_ms: Vec<Double> },
    /// The clock has stopped.
    ClockStopped { throughput_eps: Double },
    /// The vectors are saved.
    Saved,
}

/// A run, as far as the contracts speak of it.
pub struct RunModel {
    pub plan: Plan,
    pub phase: Phase,
    /// The largest memory reading so far, in bytes.
    pub peak: int,
    pub cold_start_ms: Double,
    /// The memory before the warmup, in bytes.
    pub rss_idle: int,
    pub throughput_eps: Double,
    /// The latencies recorded so far.
    pub latencies: Seq<Double>,
    /// The position that the next measured batch starts from.
    pub cursor: int,
}

/// A benchmark run.
#[derive(Debug)]
pub struct Run {
    plan: Plan,
    phase: Phase,
    probe: MemProbe,
    cold_start_ms: Double,
    rss_idle_mb: Megabytes,
    throughput_eps: Double,
    latencies: Vec<Double>,
    cursor: usize,
}

/// What is left of the warmup after `done` embeddings, or else the clock.
pub open spec fn warmup_from(plan: Plan, done: usize) -> Phase {
    if done < plan.warmup {
        Phase::Warmup { done }
    } else {
        Phase::StartClock
    }
}

/// The next batch, or the end of the clock once enough latencies are recorded.
pub open spec fn measure_from(plan: Plan, recorded: int) -> Phase {
    if recorded < plan.measure {
        Phase::Measure
    } else {
        Phase::StopClock
    }
}

/// What follows the measurement.
pub open spec fn save_or_report(plan: Plan) -> Phase {
    if plan.save_vectors {
        Phase::Save
    } else {
        Phase::Report
    }
}

/// `recorded`, and the latency `per_item_ms` once for each of `outputs`, up to
/// `limit` in all.
pub open spec fn record(recorded: Seq<Double>, outputs: int, per_item_ms: Double, limit: int) -> Seq<Double> {
    let room = limit - recorded.len();
    let taken = if outputs < room {
        outputs
    } else {
        room
    };
    recorded + Seq::new(taken as nat, |i: int| per_item_ms)
}

/// A run before its first action.
pub open spec fn started(plan: Plan) -> RunModel {
    RunModel {
        plan,
        phase: Phase::Baseline,
        peak: 0,
        cold_start_ms: Double { bits: 0 },
        rss_idle: 0,
        throughput_eps: Double { bits: 0 },
        latencies: Seq::empty(),
        cursor: 0,
    }
}

/// The action that a run asks for in its phase.
pub open spec fn action_of(run: RunModel) -> Action {
    match run.phase {
        Phase::Baseline | Phase::Idle | Phase::AfterBatch | Phase::AfterWorkers => Action::SampleMemory,
        Phase::ColdStart => match run.plan.engine {
            Engine::InProcess => Action::LoadModel,
            Engine::Remote => Action::FirstRequest,
        },
        Phase::Prime => Action::Embed { start: 0, count: 1 },
        Phase::Warmup { done } => Action::Embed { start: (done as int % run.plan.sentences as int) as usize, count: 1 },
        Phase::StartClock => Action::StartClock,
        Phase::Measure => Action::EmbedTimed { start: run.cursor as usize, count: run.plan.batch },
        Phase::Workers => Action::RunWorkers,
        Phase::StopClock => Action::StopClock,
        Phase::Save => Action::SaveVectors,
        Phase::Report => Action::Report,
    }
}

/// Whether `event` answers what a run in `phase` asks for.
pub open spec fn answers(phase: Phase, event: Event) -> bool {
    match phase {
        Phase::Baseline | Phase::Idle | Phase::AfterBatch | Phase::AfterWorkers => event is Memory,
        Phase::ColdStart => event is Started,
        Phase::Prime | Phase::Warmup { .. } => event is Embedded,
        Phase::StartClock => event is ClockStarted,
        Phase::Measure => event is BatchDone,
        Phase::Workers => event is WorkersDone,
        Phase::StopClock => event is ClockStopped,
        Phase::Save => event is Saved,
        Phase::Report => false,
    }
}

/// The run after `event`. An event that answers nothing changes nothing.
pub open spec fn step(run: RunModel, event: Event) -> RunModel {
    let plan = run.plan;
    match (run.phase, event) {
        (Phase::Baseline, Event::Memory { bytes }) => RunModel {
            peak: larger(run.peak, reading_bytes(bytes) as int),
            phase: Phase::ColdStart,
            ..run
        },
        (Phase::ColdStart, Event::Started { cold_start_ms }) => RunModel {
            cold_start_ms,
            phase: match plan.engine {
                Engine::InProcess => Phase::Prime,
                Engine::Remote => Phase::Idle,
            },
            ..run
        },
        (Phase::Prime, Event::Embedded) => RunModel { phase: Phase::Idle, ..run },
        (Phase::Idle, Event::Memory { bytes }) => RunModel {
            peak: larger(run.peak, reading_bytes(bytes) as int),
            rss_idle: reading_bytes(bytes) as int,
            phase: warmup_from(plan, 0),
            ..run
        },
        (Phase::Warmup { done }, Event::Embedded) => RunModel {
            phase: warmup_from(plan, (done + 1) as usize),
            ..run
        },
        (Phase::StartClock, Event::ClockStarted) => RunModel {
            phase: match plan.engine {
                Engine::InProcess => measure_from(plan, 0),
                Engine::Remote => Phase::Workers,
            },
            ..run
        },
        (Phase::Measure, Event::BatchDone { outputs, per_item_ms }) => RunModel {
            latencies: record(run.latencies, outputs as int, per_item_ms, plan.measure as int),
            cursor: (run.cursor + plan.batch) % plan.sentences as int,
            phase: Phase::AfterBatch,
            ..run
        },
        (Phase::AfterBatch, Event::Memory { bytes }) => RunModel {
            peak: larger(run.peak, reading_bytes(bytes) as int),
            phase: measure_from(plan, run.latencies.len() as int),
            ..run
        },
        (Phase::Workers, Event::WorkersDone { latencies_ms }) => RunModel {
            latencies: latencies_ms@,
            phase: Phase::StopClock,
            ..run
        },
        (Phase::StopClock, Event::ClockStopped { throughput_eps }) => RunModel {
            throughput_eps,
            phase: match plan.engine {
                Engine::InProcess => save_or_report(plan),
                Engine::Remote => Phase::AfterWorkers,
            },
            ..run
        },
        (Phase::AfterWorkers, Event::Memory { bytes }) => RunModel {
            peak: larger(run.peak, reading_bytes(bytes) as int),
            phase: save_or_report(plan),
            ..run
        },
        (Phase::Save, Event::Saved) => RunModel { phase: Phase::Report, ..run },
        _ => run,
    }
}

/// What holds of a run at every point.
pub open spec fn run_wf(run: RunModel) -> bool {
    let plan = run.plan;
    &&& 0 < plan.sentences
    &&& 0 <= run.cursor < plan.sentences
    &&& 0 <= run.rss_idle <= run.peak
    &&& run.phase matches Phase::Warmup { done } ==> done < plan.warmup
    &&& run.phase is Measure || run.phase is AfterBatch || run.phase is Prime ==> plan.engine is InProcess
    &&& run.phase is Workers || run.phase is AfterWorkers ==> plan.engine is Remote
    &&& match run.phase {
        Phase::Measure => run.latencies.len() < plan.measure,
        Phase::AfterBatch => run.latencies.len() <= plan.measure,
        Phase::StopClock | Phase::AfterWorkers | Phase::Save | Phase::Report => plan.engine is InProcess
            ==> run.latencies.len() == plan.measure,
        _ => run.latencies.len() == 0,
    }
}

impl Plan {
    /// The plan of a run with these arguments over so many sentences.
    pub fn new(engine: Engine, common: &CommonArgs, sentences: usize) -> (plan: Plan)
        ensures
            plan == (Plan {
                engine,
                sentences,
                batch: common.batch,
                warmup: common.warmup,
                measure: common.measure,
                save_vectors: common.save_vectors is Some,
            }),
    {
        Plan {
            engine,
            sentences,
            batch: common.batch,
            warmup: common.warmup,
            measure: common.measure,
            save_vectors: common.save_vectors.is_some(),
        }
    }
}

impl View for Run {
    type V = RunModel;

    closed spec fn view(&self) -> RunModel {
        RunModel {
            plan: self.plan,
            phase: self.phase,
            peak: self.probe@,
            cold_start_ms: self.cold_start_ms,
            rss_idle: self.rss_idle_mb.bytes(),
            throughput_eps: self.throughput_eps,
            latencies: self.latencies@,
            cursor: self.cursor as int,
        }
    }
}

impl Run {
    /// What holds of a run at every point.
    pub closed spec fn wf(self) -> bool {
        &&& run_wf(self@)
        &&& self.rss_idle_mb.wf()
    }

    /// A run before its first action.
    pub fn new(plan: Plan) -> (run: Run)
        requires
            plan.sentences > 0,
        ensures
            run.wf(),
            run@ == started(plan),
    {
        let rss_idle_mb = Megabytes::of_bytes(0);
        let run = Run {
            plan,
            phase: Phase::Baseline,
            probe: MemProbe::new(),
            cold_start_ms: Double::zero(),
            rss_idle_mb,
            throughput_eps: Double::zero(),
            latencies: Vec::new(),
            cursor: 0,
        };
        assert(run@.latencies =~= Seq::empty());
        run
    }

    /// What the run asks for next.
    pub fn action(&self) -> (action: Action)
        requires
            self.wf(),
        ensures
            action == action_of(self@),
    {
        match self.phase {
            Phase::Baseline | Phase::Idle | Phase::AfterBatch | Phase::AfterWorkers => Action::SampleMemory,
            Phase::ColdStart => match self.plan.engine {
                Engine::InProcess => Action::LoadModel,
                Engine::Remote => Action::FirstRequest,
            },
            Phase::Prime => Action::Embed { start: 0, count: 1 },
            Phase::Warmup { done } => Action::Embed { start: done % self.plan.sentences, count: 1 },
            Phase::StartClock => Action::StartClock,
            Phase::Measure => Action::EmbedTimed { start: self.cursor, count: self.plan.batch },
            Phase::Workers => Action::RunWorkers,
            Phase::StopClock => Action::StopClock,
            Phase::Save => Action::SaveVectors,
            Phase::Report => Action::Report,
        }
    }

    /// Takes in the answer to the action that the run asked for. Any other
    /// event changes nothing.
    pub fn advance(&mut self, event: Event)
        requires
            old(self).wf(),
        ensures
            final(self).wf(),
            final(self)@ == step(old(self)@, event),
    {
        match (self.phase, event) {
            (Phase::Baseline, Event::Memory { bytes }) => {
                let _ = self.probe.sample_mb(bytes);
                self.phase = Phase::ColdStart;
            },
            (Phase::ColdStart, Event::Started { cold_start_ms }) => {
                self.cold_start_ms = cold_start_ms;
                self.phase = match self.plan.engine {
                    Engine::InProcess => Phase::Prime,
                    Engine::Remote => Phase::Idle,
                };
            },
            (Phase::Prime, Event::Embedded) => {
                self.phase = Phase::Idle;
            },
            (Phase::Idle, Event::Memory { bytes }) => {
                self.rss_idle_mb = self.probe.sample_mb(bytes);
                self.phase = self.next_warmup(0);
            },
            (Phase::Warmup { done }, Event::Embedded) => {
                self.phase = self.next_warmup(done + 1);
            },
            (Phase::StartClock, Event::ClockStarted) => {
                self.phase = match self.plan.engine {
                    Engine::InProcess => self.next_batch(),
                    Engine::Remote => Phase::Workers,
                };
            },
            (Phase::Measure, Event::BatchDone { outputs, per_item_ms }) => {
                self.record_batch(outputs, per_item_ms);
            },
            (Phase::AfterBatch, Event::Memory { bytes }) => {
                let _ = self.probe.sample_mb(bytes);
                self.phase = self.next_batch();
            },
            (Phase::Workers, Event::WorkersDone { latencies_ms }) => {
                self.latencies = latencies_ms;
                self.phase = Phase::StopClock;
            },
            (Phase::StopClock, Event::ClockStopped { throughput_eps }) => {
                self.throughput_eps = throughput_eps;
                self.phase = match self.plan.engine {
                    Engine::InProcess => self.finish(),
                    Engine::Remote => Phase::AfterWorkers,
                };
            },
            (Phase::AfterWorkers, Event::Memory { bytes }) => {
                let _ = self.probe.sample_mb(bytes);
                self.phase = self.finish();
            },
            (Phase::Save, Event::Saved) => {
                self.phase = Phase::Report;
            },
            _ => {},
        }
    }

    /// What is left of the warmup, or else the clock.
    fn next_warmup(&self, done: usize) -> (phase: Phase)
        ensures
            phase == warmup_from(self@.plan, done),
    {
        if done < self.plan.warmup {
            Phase::Warmup { done }
        } else {
            Phase::StartClock
        }
    }

    /// The next batch, or else the end of the clock.
    fn next_batch(&self) -> (phase: Phase)
        ensures
            phase == measure_from(self@.plan, self@.latencies.len() as int),
    {
        if self.latencies.len() < self.plan.measure {
            Phase::Measure
        } else {
            Phase::StopClock
        }
    }

    /// What follows the measurement.
    fn finish(&self) -> (phase: Phase)
        ensures
            phase == save_or_report(self@.plan),
    {
        if self.plan.save_vectors {
            Phase::Save
        } else {
            Phase::Report
        }
    }

    /// Records one measured batch: its latency once for each vector that came
    /// back, as long as latencies are wanted.
    fn record_batch(&mut self, outputs: usize, per_item_ms: Double)
        requires
            old(self).wf(),
            old(self)@.phase is Measure,
        ensures
            final(self).wf(),
            final(self)@ == step(old(self)@, Event::BatchDone { outputs, per_item_ms }),
    {
        let ghost recorded = self.latencies@;
        let mut taken: usize = 0;
        while taken < outputs && self.latencies.len() < self.plan.measure
            invariant
                taken <= outputs,
                recorded.len() + taken <= self.plan.measure,
                self.latencies@ =~= recorded + Seq::new(taken as nat, |i: int| per_item_ms),
                self.plan == old(self).plan,
                self.phase == old(self).phase,
                self.probe == old(self).probe,
                self.cold_start_ms == old(self).cold_start_ms,
                self.rss_idle_mb == old(self).rss_idle_mb,
                self.throughput_eps == old(self).throughput_eps,
                self.cursor == old(self).cursor,
            decreases outputs - taken,
        {
            self.latencies.push(per_item_ms);
            taken += 1;
        }
        self.cursor = advance_cursor(self.cursor, self.plan.batch, self.plan.sentences);
        self.phase = Phase::AfterBatch;
        assert(self.latencies@ =~= record(recorded, outputs as int, per_item_ms, self.plan.measure as int));
    }

    /// How many of the embeddings count for the throughput: those that were
    /// recorded, but no more than were to be measured.
    pub fn measured(&self) -> (count: usize)
        ensures
            count == (if self@.latencies.len() < self@.plan.measure {
                self@.latencies.len()
            } else {
                self@.plan.measure as nat
            }),
    {
        if self.latencies.len() < self.plan.measure {
            self.latencies.len()
        } else {
            self.plan.measure
        }
    }

    /// The latencies recorded so far.
    pub fn latencies(&self) -> (latencies: &[Double])
        ensures
            latencies@ == self@.latencies,
    {
        self.latencies.as_slice()
    }

    /// The record of a finished run, whose latencies have the arithmetic mean
    /// `mean_ms`. The backend's name, the arguments and the place of the
    /// vectors go into it as they are.
    ///
    /// Two latencies or more are compared, so none of them may be a NaN.
    pub fn report(
        self,
        backend: String,
        common: &CommonArgs,
        vectors_path: Option<String>,
        mean_ms: Double,
    ) -> (result: BenchResult)
        requires
            self.wf(),
            self@.phase is Report,
            self@.latencies.len() >= 2 ==> !some_nan(self@.latencies),
        ensures
            result.backend == backend,
            describes(result.config, *common),
            result.vectors_path == vectors_path,
            result.raw_latencies_ms@ == self@.latencies,
            result.metrics.throughput_eps == self@.throughput_eps,
            result.metrics.cold_start_ms == self@.cold_start_ms,
            result.metrics.rss_idle_mb.wf(),
            result.metrics.rss_idle_mb.bytes() == self@.rss_idle,
            result.metrics.rss_peak_mb.wf(),
            result.metrics.rss_peak_mb.bytes() == self@.peak,
            self@.latencies.len() == 0 ==> result.metrics.latency_ms == Latency::spec_none(),
            self@.latencies.len() > 0 ==> {
                &&& result.metrics.latency_ms.mean == mean_ms
                &&& is_percentile(self@.latencies, 50, result.metrics.latency_ms.p50)
                &&& is_percentile(self@.latencies, 95, result.metrics.latency_ms.p95)
                &&& is_percentile(self@.latencies, 99, result.metrics.latency_ms.p99)
            },
    {
        BenchResult {
            backend,
            config: build_run_config(common),
            metrics: Metrics {
                latency_ms: Latency::from_samples(self.latencies.as_slice(), mean_ms),
                throughput_eps: self.throughput_eps,
                cold_start_ms: self.cold_start_ms,
                rss_idle_mb: self.rss_idle_mb,
                rss_peak_mb: self.probe.peak_mb(),
            },
            vectors_path,
            raw_latencies_ms: self.latencies,
        }
    }
}

/// The position `batch` places after `cursor`, going round `sentences` places.
pub(crate) fn advance_cursor(cursor: usize, batch: usize, sentences: usize) -> (next: usize)
    requires
        cursor < sentences,
    ensures
        next == (cursor + batch) % sentences as int,
        next < sentences,
{
    let rest: usize = batch % sentences;
    proof {
        lemma_wrap(cursor as int, batch as int, sentences as int);
    }
    if rest < sentences - cursor {
        cursor + rest
    } else {
        rest - (sentences - cursor)
    }
}

/// Adding to a position modulo `n` takes at most one turn back.
proof fn lemma_wrap(cursor: int, batch: int, n: int)
    requires
        0 <= cursor < n,
        0 <= batch,
    ensures
        (cursor + batch) % n == if batch % n < n - cursor {
            cursor + batch % n
        } else {
            batch % n - (n - cursor)
        },
{
    let q = batch / n;
    let r = batch % n;
    vstd::arithmetic::div_mod::lemma_fundamental_div_mod(batch, n);
    if r < n - cursor {
        assert(cursor + batch == q * n + (cursor + r)) by (nonlinear_arith)
            requires
                batch == n * q + r,
        ;
        vstd::arithmetic::div_mod::lemma_fundamental_div_mod_converse(cursor + batch, n, q, cursor + r);
    } else {
        assert(cursor + batch == (q + 1) * n + (r - (n - cursor))) by (nonlinear_arith)
            requires
                batch == n * q + r,
        ;
        vstd::arithmetic::div_mod::lemma_fundamental_div_mod_converse(cursor + batch, n, q + 1, r - (n - cursor));
    }
}

} // verus!
