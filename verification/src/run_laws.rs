//! What holds of every run, whatever its engine answers: which actions come in
//! which order, what is recorded, and where each reported number comes from.
use crate::config::CommonArgs;
use crate::corpus::round_robin;
use crate::double::Double;
use crate::memory::peak_of;
use crate::result::BenchResult;
use crate::run::{action_of, answers, run_wf, started, step, Action, Engine, Event, Phase, Plan, Run, RunModel};
use vstd::prelude::*;

verus! {

/// The run that `plan` has come to after `events`.
pub open spec fn after(plan: Plan, events: Seq<Event>) -> RunModel
    decreases events.len(),
{
    if events.len() == 0 {
        started(plan)
    } else {
        step(after(plan, events.drop_last()), events.last())
    }
}

/// Whether the last of `events` answered what the run asked for at that point.
pub open spec fn last_answers(plan: Plan, events: Seq<Event>) -> bool {
    events.len() > 0 && answers(after(plan, events.drop_last()).phase, events.last())
}

/// How many measured batches have come back.
pub open spec fn batches(plan: Plan, events: Seq<Event>) -> nat
    decreases events.len(),
{
    if events.len() == 0 {
        0
    } else {
        let before = batches(plan, events.drop_last());
        if last_answers(plan, events) && events.last() is BatchDone {
            before + 1
        } else {
            before
        }
    }
}

/// How many warmup embeddings have been computed.
pub open spec fn warmups(plan: Plan, events: Seq<Event>) -> nat
    decreases events.len(),
{
    if events.len() == 0 {
        0
    } else {
        let before = warmups(plan, events.drop_last());
        if last_answers(plan, events) && after(plan, events.drop_last()).phase is Warmup {
            before + 1
        } else {
            before
        }
    }
}

/// The memory readings that were asked for, in order.
pub open spec fn readings(plan: Plan, events: Seq<Event>) -> Seq<Option<u64>>
    decreases events.len(),
{
    if events.len() == 0 {
        Seq::empty()
    } else {
        let before = readings(plan, events.drop_last());
        if last_answers(plan, events) && events.last() is Memory {
            before.push(events.last()->bytes)
        } else {
            before
        }
    }
}

/// The latency of every vector that came back from a measured batch, in order.
pub open spec fn items(plan: Plan, events: Seq<Event>) -> Seq<Double>
    decreases events.len(),
{
    if events.len() == 0 {
        Seq::empty()
    } else {
        let before = items(plan, events.drop_last());
        if last_answers(plan, events) && events.last() is BatchDone {
            before + Seq::new(events.last()->outputs as nat, |i: int| events.last()->per_item_ms)
        } else {
            before
        }
    }
}

/// How often the engine has been started.
pub open spec fn starts(plan: Plan, events: Seq<Event>) -> nat
    decreases events.len(),
{
    if events.len() == 0 {
        0
    } else {
        let before = starts(plan, events.drop_last());
        if last_answers(plan, events) && events.last() is Started {
            before + 1
        } else {
            before
        }
    }
}

/// How often the vectors have been saved.
pub open spec fn saves(plan: Plan, events: Seq<Event>) -> nat
    decreases events.len(),
{
    if events.len() == 0 {
        0
    } else {
        let before = saves(plan, events.drop_last());
        if last_answers(plan, events) && events.last() is Saved {
            before + 1
        } else {
            before
        }
    }
}

/// The latencies that the workers brought back.
pub open spec fn worker_items(plan: Plan, events: Seq<Event>) -> Seq<Double>
    decreases events.len(),
{
    if events.len() == 0 {
        Seq::empty()
    } else if last_answers(plan, events) && events.last() is WorkersDone {
        events.last()->latencies_ms@
    } else {
        worker_items(plan, events.drop_last())
    }
}

/// Whether every measured batch came back whole: one vector per sentence.
pub open spec fn whole_batches(plan: Plan, events: Seq<Event>) -> bool
    decreases events.len(),
{
    events.len() == 0 || {
        &&& whole_batches(plan, events.drop_last())
        &&& last_answers(plan, events) && events.last() is BatchDone ==> events.last()->outputs == plan.batch
    }
}

/// Whether the measurement is over.
pub open spec fn measurement_over(phase: Phase) -> bool {
    phase is StopClock || phase is AfterWorkers || phase is Save || phase is Report
}

/// Whether the warmup is over.
pub open spec fn warmup_over(phase: Phase) -> bool {
    phase is StartClock || phase is Measure || phase is AfterBatch || phase is Workers || measurement_over(phase)
}

/// An event that answers nothing leaves the run as it is.
pub proof fn law_other_events_change_nothing(run: RunModel, event: Event)
    requires
        !answers(run.phase, event),
    ensures
        step(run, event) == run,
{
}

/// Every step keeps what holds of a run.
pub proof fn law_runs_stay_well_formed(plan: Plan, events: Seq<Event>)
    requires
        plan.sentences > 0,
    ensures
        run_wf(after(plan, events)),
        after(plan, events).plan == plan,
    decreases events.len(),
{
    if events.len() > 0 {
        law_runs_stay_well_formed(plan, events.drop_last());
    }
}

/// A run in this process never records more latencies than it was to measure,
/// and once the measurement is over it has recorded exactly that many.
pub proof fn law_finished_run_measured_everything(plan: Plan, events: Seq<Event>)
    requires
        plan.sentences > 0,
        plan.engine is InProcess,
    ensures
        after(plan, events).latencies.len() <= plan.measure,
        measurement_over(after(plan, events).phase) ==> after(plan, events).latencies.len() == plan.measure,
{
    law_runs_stay_well_formed(plan, events);
}

/// The warmup is discarded: no latency is recorded before the clock runs.
pub proof fn law_warmup_is_discarded(plan: Plan, events: Seq<Event>)
    requires
        plan.sentences > 0,
        !measurement_over(after(plan, events).phase),
        !(after(plan, events).phase is Measure),
        !(after(plan, events).phase is AfterBatch),
    ensures
        after(plan, events).latencies.len() == 0,
{
    law_runs_stay_well_formed(plan, events);
}

/// The warmup embeds one sentence at a time, round-robin from the first, and
/// as many as were asked for.
pub proof fn law_warmup_runs_in_full(plan: Plan, events: Seq<Event>)
    requires
        plan.sentences > 0,
    ensures
        after(plan, events).phase is Warmup ==> {
            &&& warmups(plan, events) < plan.warmup
            &&& action_of(after(plan, events)) == (Action::Embed {
                start: (warmups(plan, events) as int % plan.sentences as int) as usize,
                count: 1,
            })
        },
        warmup_over(after(plan, events).phase) ==> warmups(plan, events) == plan.warmup,
        !(after(plan, events).phase is Warmup) && !warmup_over(after(plan, events).phase) ==> warmups(plan, events)
            == 0,
{
    law_runs_stay_well_formed(plan, events);
    lemma_warmup_counter(plan, events);
}

/// A run in the warmup has counted the warmup embeddings.
proof fn lemma_warmup_counter(plan: Plan, events: Seq<Event>)
    requires
        plan.sentences > 0,
    ensures
        match after(plan, events).phase {
            Phase::Warmup { done } => done == warmups(plan, events),
            Phase::Baseline | Phase::ColdStart | Phase::Prime | Phase::Idle => warmups(plan, events) == 0,
            _ => warmups(plan, events) == plan.warmup,
        },
    decreases events.len(),
{
    law_runs_stay_well_formed(plan, events);
    if events.len() > 0 {
        law_runs_stay_well_formed(plan, events.drop_last());
        lemma_warmup_counter(plan, events.drop_last());
    }
}

/// The measured batches go round-robin through the sentences: batch number
/// `b` starts where the `b` batches before it ended.
pub proof fn law_batches_go_round_robin(plan: Plan, events: Seq<Event>)
    requires
        plan.sentences > 0,
    ensures
        after(plan, events).cursor == (batches(plan, events) * plan.batch) % plan.sentences as int,
        after(plan, events).phase is Measure ==> action_of(after(plan, events)) == (Action::EmbedTimed {
            start: ((batches(plan, events) * plan.batch) % plan.sentences as int) as usize,
            count: plan.batch,
        }),
    decreases events.len(),
{
    law_runs_stay_well_formed(plan, events);
    let n = plan.sentences as int;
    if events.len() > 0 {
        let before = events.drop_last();
        law_runs_stay_well_formed(plan, before);
        law_batches_go_round_robin(plan, before);
        let done = batches(plan, before) * plan.batch;
        vstd::arithmetic::div_mod::lemma_add_mod_noop(done, plan.batch as int, n);
        vstd::arithmetic::div_mod::lemma_add_mod_noop(done % n, plan.batch as int, n);
        vstd::arithmetic::div_mod::lemma_mod_twice(done, n);
        assert((batches(plan, before) + 1) * plan.batch == done + plan.batch) by (nonlinear_arith)
            requires
                done == batches(plan, before) * plan.batch,
        ;
    } else {
        assert(batches(plan, events) * plan.batch == 0) by (nonlinear_arith)
            requires
                batches(plan, events) == 0,
        ;
        vstd::arithmetic::div_mod::lemma_small_mod(0, n as nat);
    }
}

/// The sentences of a measured batch: sentence `k` of batch number `b` is the
/// one at `b * batch + k`, counted round-robin through the corpus bucket.
pub proof fn law_measured_sentences(plan: Plan, events: Seq<Event>, sentences: Seq<String>, k: int)
    requires
        plan.sentences == sentences.len(),
        plan.sentences > 0,
        0 <= k < plan.batch,
    ensures
        round_robin(sentences, after(plan, events).cursor, plan.batch as nat)[k] == sentences[(batches(plan, events)
            * plan.batch + k) % sentences.len() as int]@,
{
    law_batches_go_round_robin(plan, events);
    let n = plan.sentences as int;
    let done = batches(plan, events) * plan.batch;
    vstd::arithmetic::div_mod::lemma_add_mod_noop(done, k, n);
    vstd::arithmetic::div_mod::lemma_add_mod_noop(done % n, k, n);
    vstd::arithmetic::div_mod::lemma_mod_twice(done, n);
}

/// The recorded latencies are those of the vectors that came back, in order,
/// cut off at the number to be measured.
pub proof fn law_recorded_latencies_are_the_items(plan: Plan, events: Seq<Event>)
    requires
        plan.sentences > 0,
        plan.engine is InProcess,
    ensures
        after(plan, events).latencies == items(plan, events).take(
            if items(plan, events).len() < plan.measure {
                items(plan, events).len() as int
            } else {
                plan.measure as int
            },
        ),
    decreases events.len(),
{
    law_runs_stay_well_formed(plan, events);
    if events.len() > 0 {
        law_runs_stay_well_formed(plan, events.drop_last());
        law_recorded_latencies_are_the_items(plan, events.drop_last());
    }
    let all = items(plan, events);
    let kept = if all.len() < plan.measure {
        all.len() as int
    } else {
        plan.measure as int
    };
    assert(after(plan, events).latencies =~= all.take(kept));
}

/// A remote run records what its workers brought back, all of it.
pub proof fn law_remote_latencies_are_the_workers(plan: Plan, events: Seq<Event>)
    requires
        plan.sentences > 0,
        plan.engine is Remote,
    ensures
        after(plan, events).latencies == worker_items(plan, events),
    decreases events.len(),
{
    if events.len() > 0 {
        law_runs_stay_well_formed(plan, events.drop_last());
        law_remote_latencies_are_the_workers(plan, events.drop_last());
    }
}

/// The engine is started once, before anything is embedded.
pub proof fn law_engine_starts_once(plan: Plan, events: Seq<Event>)
    requires
        plan.sentences > 0,
    ensures
        starts(plan, events) == if after(plan, events).phase is Baseline || after(plan, events).phase is ColdStart {
            0nat
        } else {
            1nat
        },
    decreases events.len(),
{
    if events.len() > 0 {
        law_runs_stay_well_formed(plan, events.drop_last());
        law_engine_starts_once(plan, events.drop_last());
    }
}

/// The vectors are saved before the report, once, if that was asked for, and
/// never otherwise.
pub proof fn law_vectors_are_saved_as_asked(plan: Plan, events: Seq<Event>)
    requires
        plan.sentences > 0,
    ensures
        after(plan, events).phase is Save ==> plan.save_vectors,
        saves(plan, events) == if after(plan, events).phase is Report && plan.save_vectors {
            1nat
        } else {
            0nat
        },
    decreases events.len(),
{
    law_runs_stay_well_formed(plan, events);
    if events.len() > 0 {
        law_runs_stay_well_formed(plan, events.drop_last());
        law_vectors_are_saved_as_asked(plan, events.drop_last());
    }
}

/// Where every batch comes back whole, the measurement takes as many batches
/// as are needed and no more: `measure / batch`, rounded up.
pub proof fn law_as_few_batches_as_needed(plan: Plan, events: Seq<Event>)
    requires
        plan.sentences > 0,
        plan.engine is InProcess,
        plan.batch > 0,
        whole_batches(plan, events),
        measurement_over(after(plan, events).phase),
    ensures
        batches(plan, events) == (plan.measure + plan.batch - 1) / plan.batch as int,
{
    lemma_batches_so_far(plan, events);
    law_finished_run_measured_everything(plan, events);
    lemma_rounded_up(plan.measure as int, plan.batch as int, batches(plan, events) as int);
}

/// The number of batches that reaches `measure` and would not reach it with
/// one batch less.
pub(crate) proof fn lemma_rounded_up(measure: int, batch: int, count: int)
    requires
        0 <= measure,
        0 < batch,
        0 <= count,
        measure <= count * batch,
        count > 0 ==> (count - 1) * batch < measure,
    ensures
        count == (measure + batch - 1) / batch,
{
    let rest = measure + batch - 1 - count * batch;
    assert(count > 0 ==> count * batch == (count - 1) * batch + batch) by (nonlinear_arith);
    assert(count == 0 ==> count * batch == 0) by (nonlinear_arith);
    assert(0 <= rest < batch);
    vstd::arithmetic::div_mod::lemma_fundamental_div_mod_converse(measure + batch - 1, batch, count, rest);
}

/// The number of latencies recorded, by the number of batches.
proof fn lemma_batches_so_far(plan: Plan, events: Seq<Event>)
    requires
        plan.sentences > 0,
        plan.engine is InProcess,
        whole_batches(plan, events),
    ensures
        after(plan, events).latencies.len() == if batches(plan, events) * plan.batch < plan.measure {
            batches(plan, events) * plan.batch
        } else {
            plan.measure as int
        },
        batches(plan, events) > 0 ==> (batches(plan, events) - 1) * plan.batch < plan.measure,
        0 <= batches(plan, events) * plan.batch,
    decreases events.len(),
{
    law_runs_stay_well_formed(plan, events);
    let b = plan.batch as int;
    if events.len() > 0 {
        let before = events.drop_last();
        law_runs_stay_well_formed(plan, before);
        lemma_batches_so_far(plan, before);
        let done = batches(plan, before) as int;
        assert((done + 1) * b == done * b + b && (done + 1 - 1) * b == done * b) by (nonlinear_arith);
    } else {
        assert(0 * b == 0);
    }
}

/// The peak is the largest of the memory readings, the one before the warmup
/// among them.
pub proof fn law_peak_covers_every_reading(plan: Plan, events: Seq<Event>)
    requires
        plan.sentences > 0,
    ensures
        after(plan, events).peak == peak_of(readings(plan, events)),
        after(plan, events).rss_idle <= after(plan, events).peak,
    decreases events.len(),
{
    law_runs_stay_well_formed(plan, events);
    if events.len() > 0 {
        let before = events.drop_last();
        law_runs_stay_well_formed(plan, before);
        law_peak_covers_every_reading(plan, before);
        if last_answers(plan, events) && events.last() is Memory {
            assert(readings(plan, events).drop_last() =~= readings(plan, before));
        }
    }
}

/// How much of a run is still ahead of it, at most.
pub open spec fn ahead(run: RunModel) -> int {
    let plan = run.plan;
    let rest = 2 * plan.measure + 6;
    match run.phase {
        Phase::Baseline => rest + plan.warmup + 5,
        Phase::ColdStart => rest + plan.warmup + 4,
        Phase::Prime => rest + plan.warmup + 3,
        Phase::Idle => rest + plan.warmup + 2,
        Phase::Warmup { done } => rest + plan.warmup - done + 1,
        Phase::StartClock => rest,
        Phase::Measure => 2 * (plan.measure - run.latencies.len()) + 4,
        Phase::AfterBatch => 2 * (plan.measure - run.latencies.len()) + 5,
        Phase::Workers => 4,
        Phase::StopClock => 3,
        Phase::AfterWorkers => 2,
        Phase::Save => 1,
        Phase::Report => 0,
    }
}

/// Every answer brings the run closer to its report, as long as each measured
/// batch comes back with at least one vector.
pub proof fn law_every_answer_is_progress(run: RunModel, event: Event)
    requires
        run_wf(run),
        answers(run.phase, event),
        event is BatchDone ==> event->outputs > 0,
    ensures
        0 <= ahead(step(run, event)) < ahead(run),
{
}

/// Whether `event` is an answer to `action`.
pub open spec fn fits(action: Action, event: Event) -> bool {
    match action {
        Action::SampleMemory => event is Memory,
        Action::LoadModel | Action::FirstRequest => event is Started,
        Action::Embed { .. } => event is Embedded,
        Action::StartClock => event is ClockStarted,
        Action::EmbedTimed { .. } => event is BatchDone,
        Action::RunWorkers => event is WorkersDone,
        Action::StopClock => event is ClockStopped,
        Action::SaveVectors => event is Saved,
        Action::Report => false,
    }
}

/// Whether each of `events` answered what was asked at its point.
pub open spec fn all_answer(plan: Plan, events: Seq<Event>) -> bool {
    forall|i: int| 0 <= i < events.len() ==> fits(action_of(after(plan, #[trigger] events.take(i))), events[i])
}

/// A run goes on with an answer, and only with an answer: any other event
/// leaves it as it is.
pub proof fn law_only_answers_count(plan: Plan, events: Seq<Event>, event: Event)
    requires
        plan.sentences > 0,
    ensures
        ({
            let before = after(plan, events);
            let now = after(plan, events.push(event));
            &&& !fits(action_of(before), event) ==> now == before
            &&& fits(action_of(before), event) ==> now.phase != before.phase
        }),
{
    law_runs_stay_well_formed(plan, events);
    assert(events.push(event).drop_last() =~= events);
}

/// A run is what it was before its last event, and a step.
proof fn lemma_last(plan: Plan, events: Seq<Event>)
    requires
        events.len() > 0,
    ensures
        events.drop_last() == events.take(events.len() - 1),
        after(plan, events) == step(after(plan, events.take(events.len() - 1)), events[events.len() - 1]),
{
    assert(events.drop_last() =~= events.take(events.len() - 1));
}

/// Where every event answered, all but the last did.
proof fn lemma_all_but_last_answer(plan: Plan, events: Seq<Event>)
    requires
        all_answer(plan, events),
        events.len() > 0,
    ensures
        all_answer(plan, events.drop_last()),
        fits(action_of(after(plan, events.drop_last())), events.last()),
{
    let rest = events.drop_last();
    assert forall|i: int| 0 <= i < rest.len() implies fits(action_of(after(plan, #[trigger] rest.take(i))), rest[i]) by {
        assert(rest.take(i) =~= events.take(i));
        assert(fits(action_of(after(plan, events.take(i))), events[i]));
    }
    assert(rest =~= events.take(events.len() - 1));
    assert(fits(action_of(after(plan, events.take(events.len() - 1))), events[events.len() - 1]));
}

/// How many answers it takes to come to a phase.
proof fn lemma_course(plan: Plan, events: Seq<Event>)
    requires
        plan.sentences > 0,
        all_answer(plan, events),
    ensures
        ({
            let m = events.len() as int;
            let w = plan.warmup as int;
            let run = after(plan, events);
            let warm = match plan.engine {
                Engine::InProcess => 4int,
                Engine::Remote => 3int,
            };
            match run.phase {
                Phase::Baseline => m == 0,
                Phase::ColdStart => m == 1,
                Phase::Prime => m == 2,
                Phase::Idle => m == warm - 1,
                Phase::Warmup { done } => m == warm + done,
                Phase::StartClock => m == warm + w,
                Phase::Measure => m >= warm + w + 1 && (m - warm - w - 1) % 2 == 0 && run.cursor == ((m - warm - w - 1)
                    / 2 * plan.batch) % plan.sentences as int,
                Phase::AfterBatch => m >= warm + w + 2 && (m - warm - w - 1) % 2 == 1 && run.cursor == ((m - warm - w)
                    / 2 * plan.batch) % plan.sentences as int,
                Phase::Workers => m == warm + w + 1,
                Phase::StopClock => match plan.engine {
                    Engine::InProcess => m >= warm + w + 1,
                    Engine::Remote => m == warm + w + 2,
                },
                Phase::AfterWorkers => m == warm + w + 3,
                Phase::Save => plan.save_vectors && match plan.engine {
                    Engine::InProcess => m >= warm + w + 2,
                    Engine::Remote => m == warm + w + 4,
                },
                Phase::Report => match plan.engine {
                    Engine::InProcess => m >= warm + w + 2,
                    Engine::Remote => m == warm + w + 4 + if plan.save_vectors {
                        1int
                    } else {
                        0
                    },
                },
            }
        }),
        !(after(plan, events).phase is AfterBatch) && !(after(plan, events).phase is Measure) && !(after(
            plan,
            events,
        ).phase is StopClock) && !(after(plan, events).phase is AfterWorkers) && !(after(plan, events).phase is Save)
            && !(after(plan, events).phase is Report) ==> after(plan, events).cursor == 0,
    decreases events.len(),
{
    law_runs_stay_well_formed(plan, events);
    if events.len() > 0 {
        let rest = events.drop_last();
        lemma_all_but_last_answer(plan, events);
        law_runs_stay_well_formed(plan, rest);
        lemma_course(plan, rest);
        let run = after(plan, rest);
        let n = plan.sentences as int;
        if run.phase is Measure {
            let m = rest.len() as int;
            let b = (m - 5 - plan.warmup) / 2;
            let done = b * plan.batch;
            assert((m + 1 - 4 - plan.warmup) / 2 == b + 1);
            assert((b + 1) * plan.batch == done + plan.batch) by (nonlinear_arith)
                requires
                    done == b * plan.batch,
            ;
            vstd::arithmetic::div_mod::lemma_add_mod_noop(done, plan.batch as int, n);
            vstd::arithmetic::div_mod::lemma_add_mod_noop(done % n, plan.batch as int, n);
            vstd::arithmetic::div_mod::lemma_mod_twice(done, n);
        }
        if run.phase is StartClock {
            assert(0 * plan.batch == 0);
            vstd::arithmetic::div_mod::lemma_small_mod(0, n as nat);
        }
    }
}

/// What a run in this process asks for after each answer. It reads the memory,
/// loads the model, embeds the first sentence, reads the memory, warms up one
/// sentence at a time round the list, and starts the clock. Then measured
/// batches and memory readings alternate, each batch from where the batches
/// before it ended, until the latencies to be measured are recorded. The clock
/// is stopped, the vectors are saved if that was asked for, and the result is
/// reported.
pub proof fn law_course_in_process(plan: Plan, events: Seq<Event>)
    requires
        plan.sentences > 0,
        plan.engine == Engine::InProcess,
        all_answer(plan, events),
    ensures
        ({
            let m = events.len() as int;
            let w = plan.warmup as int;
            let n = plan.sentences as int;
            let action = action_of(after(plan, events));
            let recorded = after(plan, events).latencies.len();
            let last = events[m - 1];
            &&& m == 0 ==> action == Action::SampleMemory
            &&& m == 1 ==> action == Action::LoadModel
            &&& m == 2 ==> action == (Action::Embed { start: 0, count: 1 })
            &&& m == 3 ==> action == Action::SampleMemory
            &&& 4 <= m < 4 + w ==> action == (Action::Embed { start: ((m - 4) % n) as usize, count: 1 })
            &&& m == 4 + w ==> action == Action::StartClock
            &&& m >= 5 + w && (last is ClockStarted || last is Memory) ==> if recorded < plan.measure {
                &&& (m - 5 - w) % 2 == 0
                &&& action == (Action::EmbedTimed {
                    start: (((m - 5 - w) / 2 * plan.batch) % n) as usize,
                    count: plan.batch,
                })
            } else {
                action == Action::StopClock
            }
            &&& m > 0 && last is BatchDone ==> action == Action::SampleMemory
            &&& m > 0 && last is ClockStopped ==> action == (if plan.save_vectors {
                Action::SaveVectors
            } else {
                Action::Report
            })
            &&& m > 0 && last is Saved ==> plan.save_vectors && action == Action::Report
            &&& m > 0 ==> !(last is WorkersDone)
        }),
{
    law_runs_stay_well_formed(plan, events);
    lemma_course(plan, events);
    if events.len() > 0 {
        lemma_all_but_last_answer(plan, events);
        lemma_course(plan, events.drop_last());
        law_runs_stay_well_formed(plan, events.drop_last());
    }
}

/// What a run against a server asks for after each answer. It reads the
/// memory, sends the first request, reads the memory, warms up one sentence at
/// a time round the list, starts the clock, lets the workers measure, stops the
/// clock, reads the memory, saves the vectors if that was asked for, and
/// reports the result.
pub proof fn law_course_remote(plan: Plan, events: Seq<Event>)
    requires
        plan.sentences > 0,
        plan.engine == Engine::Remote,
        all_answer(plan, events),
    ensures
        ({
            let m = events.len() as int;
            let w = plan.warmup as int;
            let n = plan.sentences as int;
            let action = action_of(after(plan, events));
            &&& m == 0 ==> action == Action::SampleMemory
            &&& m == 1 ==> action == Action::FirstRequest
            &&& m == 2 ==> action == Action::SampleMemory
            &&& 3 <= m < 3 + w ==> action == (Action::Embed { start: ((m - 3) % n) as usize, count: 1 })
            &&& m == 3 + w ==> action == Action::StartClock
            &&& m == 4 + w ==> action == Action::RunWorkers
            &&& m == 5 + w ==> action == Action::StopClock
            &&& m == 6 + w ==> action == Action::SampleMemory
            &&& m == 7 + w && plan.save_vectors ==> action == Action::SaveVectors
            &&& m == 7 + w && !plan.save_vectors ==> action == Action::Report
            &&& m == 8 + w ==> action == Action::Report
            &&& m <= 8 + w
            &&& m == 8 + w ==> plan.save_vectors
        }),
{
    law_runs_stay_well_formed(plan, events);
    lemma_course(plan, events);
}

/// A measured batch adds its latency once for each vector that came back,
/// behind what is recorded, until as many are recorded as were to be measured.
/// The workers' latencies are recorded as they are. Nothing else is recorded.
pub proof fn law_recorded_latencies(plan: Plan, events: Seq<Event>, event: Event)
    requires
        plan.sentences > 0,
    ensures
        after(plan, Seq::empty()).latencies.len() == 0,
        ({
            let before = after(plan, events);
            let now = after(plan, events.push(event));
            let old_len = before.latencies.len();
            match (action_of(before), event) {
                (Action::EmbedTimed { .. }, Event::BatchDone { outputs, per_item_ms }) => {
                    &&& old_len + outputs <= plan.measure ==> now.latencies.len() == old_len + outputs
                    &&& old_len + outputs > plan.measure ==> now.latencies.len() == plan.measure
                    &&& old_len <= now.latencies.len()
                    &&& forall|i: int| 0 <= i < old_len ==> #[trigger] now.latencies[i] == before.latencies[i]
                    &&& forall|i: int|
                        old_len <= i < now.latencies.len() ==> #[trigger] now.latencies[i] == per_item_ms
                },
                (Action::RunWorkers, Event::WorkersDone { latencies_ms }) => now.latencies == latencies_ms@,
                _ => now.latencies == before.latencies,
            }
        }),
{
    law_runs_stay_well_formed(plan, events);
    assert(events.push(event).drop_last() =~= events);
}

/// The numbers of a run are those of the answers: its throughput the one with
/// which the clock was stopped, its start-up time the one with which the engine
/// was started, its idle memory the reading before the warmup, and its peak no
/// less than any reading. A reading that did not find the process counts as 0.
pub proof fn law_numbers_are_the_answers(plan: Plan, events: Seq<Event>, i: int)
    requires
        plan.sentences > 0,
        0 <= i < events.len(),
    ensures
        ({
            let then = after(plan, events.take(i));
            let now = after(plan, events);
            match (action_of(then), events[i]) {
                (Action::StopClock, Event::ClockStopped { throughput_eps }) => now.throughput_eps == throughput_eps,
                (Action::LoadModel, Event::Started { cold_start_ms }) => now.cold_start_ms == cold_start_ms,
                (Action::FirstRequest, Event::Started { cold_start_ms }) => now.cold_start_ms == cold_start_ms,
                (Action::SampleMemory, Event::Memory { bytes }) => {
                    &&& bytes matches Some(found) ==> found <= now.peak
                    &&& then.phase is Idle ==> match bytes {
                        Some(found) => now.rss_idle == found,
                        None => now.rss_idle == 0,
                    }
                },
                _ => true,
            }
        }),
    decreases events.len(),
{
    let rest = events.drop_last();
    lemma_last(plan, events);
    law_runs_stay_well_formed(plan, events);
    law_runs_stay_well_formed(plan, rest);
    if i < rest.len() {
        law_numbers_are_the_answers(plan, rest, i);
        assert(rest.take(i) =~= events.take(i));
        if fits(action_of(after(plan, rest.take(i))), rest[i]) {
            lemma_phase_is_past(plan, rest, i);
        }
    }
}

/// How far a phase is along the course.
spec fn stage(phase: Phase) -> int {
    match phase {
        Phase::Baseline => 0,
        Phase::ColdStart => 1,
        Phase::Prime => 2,
        Phase::Idle => 3,
        Phase::Warmup { .. } => 4,
        Phase::StartClock => 5,
        Phase::Measure | Phase::AfterBatch | Phase::Workers => 6,
        Phase::StopClock => 7,
        Phase::AfterWorkers => 8,
        Phase::Save => 9,
        Phase::Report => 10,
    }
}

/// A run that has taken an answer is past the phase that asked for it, except
/// in the warmup and the measurement.
proof fn lemma_phase_is_past(plan: Plan, events: Seq<Event>, i: int)
    requires
        plan.sentences > 0,
        0 <= i < events.len(),
        fits(action_of(after(plan, events.take(i))), events[i]),
    ensures
        stage(after(plan, events.take(i)).phase) <= stage(after(plan, events).phase),
        stage(after(plan, events.take(i)).phase) == stage(after(plan, events).phase) ==> stage(
            after(plan, events).phase,
        ) == 4 || stage(after(plan, events).phase) == 6,
    decreases events.len(),
{
    let rest = events.drop_last();
    lemma_last(plan, events);
    law_runs_stay_well_formed(plan, rest);
    if i < rest.len() {
        assert(rest.take(i) =~= events.take(i));
        lemma_phase_is_past(plan, rest, i);
    }
}

/// Once the clock has stopped, the throughput is that of an answer to its stop.
pub proof fn law_throughput_was_answered(plan: Plan, events: Seq<Event>) -> (i: int)
    requires
        plan.sentences > 0,
        ({
            let phase = after(plan, events).phase;
            phase is AfterWorkers || phase is Save || phase is Report
        }),
    ensures
        0 <= i < events.len(),
        action_of(after(plan, events.take(i))) == Action::StopClock,
        events[i] == (Event::ClockStopped { throughput_eps: after(plan, events).throughput_eps }),
    decreases events.len(),
{
    let m = events.len() - 1;
    let rest = events.drop_last();
    lemma_last(plan, events);
    law_runs_stay_well_formed(plan, rest);
    let phase = after(plan, rest).phase;
    if phase is AfterWorkers || phase is Save || phase is Report {
        let i = law_throughput_was_answered(plan, rest);
        assert(rest.take(i) =~= events.take(i));
        i
    } else {
        m
    }
}

/// Once the engine has started, the start-up time is that of an answer to the
/// start.
pub proof fn law_cold_start_was_answered(plan: Plan, events: Seq<Event>) -> (i: int)
    requires
        plan.sentences > 0,
        !(after(plan, events).phase is Baseline),
        !(after(plan, events).phase is ColdStart),
    ensures
        0 <= i < events.len(),
        action_of(after(plan, events.take(i))) == (match plan.engine {
            Engine::InProcess => Action::LoadModel,
            Engine::Remote => Action::FirstRequest,
        }),
        events[i] == (Event::Started { cold_start_ms: after(plan, events).cold_start_ms }),
    decreases events.len(),
{
    let m = events.len() - 1;
    let rest = events.drop_last();
    lemma_last(plan, events);
    law_runs_stay_well_formed(plan, rest);
    let phase = after(plan, rest).phase;
    if !(phase is Baseline) && !(phase is ColdStart) {
        let i = law_cold_start_was_answered(plan, rest);
        assert(rest.take(i) =~= events.take(i));
        i
    } else {
        m
    }
}

/// Once the warmup has begun, the idle memory is that of a reading, taken
/// after the engine was started: the last one before the warmup.
pub proof fn law_idle_memory_was_read(plan: Plan, events: Seq<Event>) -> (i: int)
    requires
        plan.sentences > 0,
        !(after(plan, events).phase is Baseline),
        !(after(plan, events).phase is ColdStart),
        !(after(plan, events).phase is Prime),
        !(after(plan, events).phase is Idle),
    ensures
        0 <= i < events.len(),
        after(plan, events.take(i)).phase is Idle,
        action_of(after(plan, events.take(i))) == Action::SampleMemory,
        events[i] matches Event::Memory { bytes } && match bytes {
            Some(found) => after(plan, events).rss_idle == found,
            None => after(plan, events).rss_idle == 0,
        },
        action_of(after(plan, events.take(i + 1))) == (if plan.warmup > 0 {
            Action::Embed { start: 0, count: 1 }
        } else {
            Action::StartClock
        }),
    decreases events.len(),
{
    let m = events.len() - 1;
    let rest = events.drop_last();
    lemma_last(plan, events);
    law_runs_stay_well_formed(plan, rest);
    let phase = after(plan, rest).phase;
    if !(phase is Baseline) && !(phase is ColdStart) && !(phase is Prime) && !(phase is Idle) {
        let i = law_idle_memory_was_read(plan, rest);
        assert(rest.take(i) =~= events.take(i));
        assert(rest.take(i + 1) =~= events.take(i + 1));
        i
    } else {
        assert(events.take(m + 1) =~= events);
        vstd::arithmetic::div_mod::lemma_small_mod(0, plan.sentences as nat);
        m
    }
}

/// A peak above 0 is that of a reading.
pub proof fn law_peak_was_read(plan: Plan, events: Seq<Event>) -> (i: int)
    requires
        plan.sentences > 0,
    ensures
        after(plan, events).peak >= 0,
        after(plan, events).peak > 0 ==> {
            &&& 0 <= i < events.len()
            &&& action_of(after(plan, events.take(i))) == Action::SampleMemory
            &&& events[i] matches Event::Memory { bytes: Some(found) } && found == after(plan, events).peak
        },
    decreases events.len(),
{
    law_runs_stay_well_formed(plan, events);
    if events.len() == 0 {
        0
    } else {
        let m = events.len() - 1;
        let rest = events.drop_last();
        lemma_last(plan, events);
        law_runs_stay_well_formed(plan, rest);
        if after(plan, events).peak == after(plan, rest).peak {
            let i = law_peak_was_read(plan, rest);
            if 0 <= i < rest.len() {
                assert(rest.take(i) =~= events.take(i));
            }
            i
        } else {
            m
        }
    }
}

/// Where every event answered, the start-up time is that of the second answer,
/// and the idle memory that of the reading before the warmup: the fourth answer
/// in this process, the third against a server.
pub proof fn law_early_numbers(plan: Plan, events: Seq<Event>)
    requires
        plan.sentences > 0,
        all_answer(plan, events),
    ensures
        events.len() > 1 ==> (events[1] matches Event::Started { cold_start_ms } && cold_start_ms == after(
            plan,
            events,
        ).cold_start_ms),
        ({
            let at = match plan.engine {
                Engine::InProcess => 3int,
                Engine::Remote => 2int,
            };
            events.len() > at ==> (events[at] matches Event::Memory { bytes } && match bytes {
                Some(found) => after(plan, events).rss_idle == found,
                None => after(plan, events).rss_idle == 0,
            })
        }),
    decreases events.len(),
{
    if events.len() > 0 {
        let rest = events.drop_last();
        lemma_all_but_last_answer(plan, events);
        law_runs_stay_well_formed(plan, rest);
        lemma_course(plan, rest);
        law_early_numbers(plan, rest);
    }
}

/// A new run has had no events, an event that it is given is one more, and it
/// asks for what its events have come to.
pub proof fn law_runs_follow_their_events(
    plan: Plan,
    fresh: Run,
    run: &mut Run,
    events: Seq<Event>,
    event: Event,
    action: Action,
)
    requires
        call_ensures(Run::new, (plan,), fresh),
        call_ensures(Run::advance, (run, event), ()),
        call_ensures(Run::action, (&*final(run),), action),
        old(run)@ == after(plan, events),
    ensures
        fresh@ == after(plan, Seq::empty()),
        final(run)@ == after(plan, events.push(event)),
        action == action_of(after(plan, events.push(event))),
{
    assert(events.push(event).drop_last() =~= events);
}

/// The plan takes its numbers from the arguments, and saves vectors exactly if
/// there is a file for them.
pub proof fn law_plan_is_what_was_asked(engine: Engine, common: CommonArgs, sentences: usize, plan: Plan)
    requires
        call_ensures(Plan::new, (engine, &common, sentences), plan),
    ensures
        plan.engine == engine,
        plan.sentences == sentences,
        plan.batch == common.batch,
        plan.warmup == common.warmup,
        plan.measure == common.measure,
        plan.save_vectors <==> common.save_vectors is Some,
{
}

/// What counts for the throughput is what was recorded, but no more than was
/// to be measured; the recorded latencies are given out as they are.
pub proof fn law_measured_is_the_smaller(run: Run, count: usize, latencies: &[Double])
    requires
        call_ensures(Run::measured, (&run,), count),
        call_ensures(Run::latencies, (&run,), latencies),
    ensures
        count <= latencies@.len(),
        count <= run@.plan.measure,
        count == latencies@.len() || count == run@.plan.measure,
        latencies@ == run@.latencies,
{
}

/// The record of a run holds what was answered: the throughput of the clock's
/// stop, the start-up time of the engine's start, the reading before the
/// warmup, and the largest of all readings. It repeats the latencies, the
/// arguments, the name and the path.
pub proof fn law_record_holds_the_answers(
    plan: Plan,
    events: Seq<Event>,
    run: Run,
    backend: String,
    common: CommonArgs,
    vectors_path: Option<String>,
    mean_ms: Double,
    result: BenchResult,
) -> (at: (int, int, int))
    requires
        plan.sentences > 0,
        run@ == after(plan, events),
        after(plan, events).phase is Report,
        call_ensures(Run::report, (run, backend, &common, vectors_path, mean_ms), result),
    ensures
        ({
            let (stopped, loaded, idle) = at;
            let metrics = result.metrics;
            let idle_bytes = metrics.rss_idle_mb.whole * 1048576 + metrics.rss_idle_mb.rest;
            let peak_bytes = metrics.rss_peak_mb.whole * 1048576 + metrics.rss_peak_mb.rest;
            &&& 0 <= stopped < events.len()
            &&& action_of(after(plan, events.take(stopped))) == Action::StopClock
            &&& events[stopped] == (Event::ClockStopped { throughput_eps: metrics.throughput_eps })
            &&& 0 <= loaded < events.len()
            &&& action_of(after(plan, events.take(loaded))) == (match plan.engine {
                Engine::InProcess => Action::LoadModel,
                Engine::Remote => Action::FirstRequest,
            })
            &&& events[loaded] == (Event::Started { cold_start_ms: metrics.cold_start_ms })
            &&& 0 <= idle < events.len()
            &&& after(plan, events.take(idle)).phase is Idle
            &&& events[idle] matches Event::Memory { bytes } && match bytes {
                Some(found) => idle_bytes == found,
                None => idle_bytes == 0,
            }
            &&& metrics.rss_idle_mb.rest < 1048576
            &&& metrics.rss_peak_mb.rest < 1048576
            &&& peak_bytes == after(plan, events).peak
        }),
        result.raw_latencies_ms@ == after(plan, events).latencies,
        result.backend == backend,
        result.vectors_path == vectors_path,
        result.config.batch_size == common.batch,
        result.config.threads == common.threads,
        result.config.length@ == common.length@,
        result.config.precision@ == common.precision@,
        result.config.warmup == common.warmup,
        result.config.measure == common.measure,
{
    let stopped = law_throughput_was_answered(plan, events);
    let loaded = law_cold_start_was_answered(plan, events);
    let idle = law_idle_memory_was_read(plan, events);
    (stopped, loaded, idle)
}

/// The latency statistics of a record are those of the latencies in it: the
/// given mean, and percentiles that have 50, 95 and 99 in a hundred of all
/// latencies before them.
pub proof fn law_record_holds_the_percentiles(
    run: Run,
    backend: String,
    common: CommonArgs,
    vectors_path: Option<String>,
    mean_ms: Double,
    result: BenchResult,
    percent: int,
    d: Double,
) -> (found: (int, int))
    requires
        call_ensures(Run::report, (run, backend, &common, vectors_path, mean_ms), result),
        result.raw_latencies_ms@.len() > 0,
        (percent, d) == (50int, result.metrics.latency_ms.p50) || (percent, d) == (
            95int,
            result.metrics.latency_ms.p95,
        ) || (percent, d) == (99int, result.metrics.latency_ms.p99),
    ensures
        result.metrics.latency_ms.mean == mean_ms,
        ({
            let (i, place) = found;
            let samples = result.raw_latencies_ms@;
            let n = samples.len();
            let before = Set::new(
                |j: int|
                    0 <= j < n && (samples[j].scaled() < d.scaled() || (samples[j].scaled() == d.scaled() && j < i)),
            );
            &&& 0 <= i < n
            &&& samples[i] == d
            &&& -50 < 100 * place - (n - 1) * percent <= 50
            &&& before.finite()
            &&& before.len() == place
        }),
{
    crate::latency::law_percentile_has_its_share_before(result.raw_latencies_ms@, percent, d)
}

/// The record of a run without latencies has all statistics zero.
pub proof fn law_record_of_no_latencies(
    run: Run,
    backend: String,
    common: CommonArgs,
    vectors_path: Option<String>,
    mean_ms: Double,
    result: BenchResult,
)
    requires
        call_ensures(Run::report, (run, backend, &common, vectors_path, mean_ms), result),
        result.raw_latencies_ms@.len() == 0,
    ensures
        result.metrics.latency_ms.mean.bits == 0,
        result.metrics.latency_ms.p50.bits == 0,
        result.metrics.latency_ms.p95.bits == 0,
        result.metrics.latency_ms.p99.bits == 0,
{
}

} // verus!
