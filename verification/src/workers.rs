//! Workers that share one measurement: tickets for the batches, and where
//! each worker draws its sentences from.
use crate::double::Double;
use crate::run::advance_cursor;
use vstd::prelude::*;

verus! {

/// How many workers to start: as many as asked for, and at least one.
pub fn worker_count(concurrency: usize) -> (count: usize)
    ensures
        count == (if concurrency == 0 {
            1
        } else {
            concurrency
        }),
{
    if concurrency == 0 {
        1
    } else {
        concurrency
    }
}

/// The count of embeddings that workers have claimed.
#[derive(Debug)]
pub struct Tickets {
    claimed: usize,
}

impl View for Tickets {
    type V = usize;

    closed spec fn view(&self) -> usize {
        self.claimed
    }
}

impl Tickets {
    /// Nothing is claimed yet.
    pub fn new() -> (tickets: Self)
        ensures
            tickets@ == 0,
    {
        Tickets { claimed: 0 }
    }

    /// Claims the next `batch` embeddings. The claim is granted if fewer than
    /// `target` were claimed before it; it counts either way.
    pub fn claim(&mut self, batch: usize, target: usize) -> (granted: bool)
        ensures
            granted == (old(self)@ < target),
            final(self)@ == old(self)@.wrapping_add(batch),
    {
        let before: usize = self.claimed;
        self.claimed = before.wrapping_add(batch);
        before < target
    }
}

/// A worker: where its next batch starts.
#[derive(Debug)]
pub struct Worker {
    cursor: usize,
    batch: usize,
    sentences: usize,
}

/// Where batch number `index` of worker number `id` starts.
pub open spec fn worker_start(id: int, index: int, batch: int, sentences: int) -> int {
    ((id + index) * batch) % sentences
}

impl Worker {
    /// The position that the next batch starts from.
    pub closed spec fn cursor(self) -> int {
        self.cursor as int
    }

    /// How many sentences go into a batch.
    pub closed spec fn batch(self) -> int {
        self.batch as int
    }

    /// How many sentences there are to draw from.
    pub closed spec fn sentences(self) -> int {
        self.sentences as int
    }

    /// Whether the position is one of a sentence.
    pub open spec fn wf(self) -> bool {
        0 <= self.cursor() < self.sentences() && 0 <= self.batch()
    }

    /// Worker number `id`, before its first batch.
    pub fn new(id: usize, batch: usize, sentences: usize) -> (worker: Self)
        requires
            sentences > 0,
        ensures
            worker.wf(),
            worker.batch() == batch,
            worker.sentences() == sentences,
            worker.cursor() == worker_start(id as int, 0, batch as int, sentences as int),
    {
        assert(0 <= id * batch <= usize::MAX * usize::MAX) by (nonlinear_arith)
            requires
                0 <= id <= usize::MAX,
                0 <= batch <= usize::MAX,
        ;
        assert(usize::MAX * usize::MAX <= u128::MAX) by (nonlinear_arith)
            requires
                0 <= usize::MAX <= u64::MAX,
        ;
        let position: u128 = (id as u128 * batch as u128) % sentences as u128;
        Worker { cursor: position as usize, batch, sentences }
    }

    /// Where the next batch starts. The one after it starts where it ends.
    pub fn next_start(&mut self) -> (start: usize)
        requires
            old(self).wf(),
        ensures
            start == old(self).cursor(),
            final(self).wf(),
            final(self).batch() == old(self).batch(),
            final(self).sentences() == old(self).sentences(),
            final(self).cursor() == (old(self).cursor() + old(self).batch()) % old(self).sentences(),
    {
        let start: usize = self.cursor;
        self.cursor = advance_cursor(start, self.batch, self.sentences);
        start
    }
}

/// Adds the latency of one batch to `latencies`, once for each of its vectors.
pub fn record_items(latencies: &mut Vec<Double>, outputs: usize, per_item_ms: Double)
    ensures
        final(latencies)@ == old(latencies)@ + Seq::new(outputs as nat, |i: int| per_item_ms),
{
    let mut taken: usize = 0;
    while taken < outputs
        invariant
            taken <= outputs,
            latencies@ =~= old(latencies)@ + Seq::new(taken as nat, |i: int| per_item_ms),
        decreases outputs - taken,
    {
        latencies.push(per_item_ms);
        taken += 1;
    }
}

/// The batches of worker `id` follow each other round-robin: each starts where
/// the one before it ended, the first one `id` batches after the beginning.
pub proof fn law_workers_go_round_robin(id: int, index: int, batch: int, sentences: int)
    requires
        0 <= id,
        0 <= index,
        0 <= batch,
        0 < sentences,
    ensures
        worker_start(id, 0, batch, sentences) == (id * batch) % sentences,
        worker_start(id, index + 1, batch, sentences) == (worker_start(id, index, batch, sentences) + batch)
            % sentences,
{
    let done = (id + index) * batch;
    assert((id + (index + 1)) * batch == done + batch) by (nonlinear_arith)
        requires
            done == (id + index) * batch,
    ;
    vstd::arithmetic::div_mod::lemma_add_mod_noop(done, batch, sentences);
    vstd::arithmetic::div_mod::lemma_add_mod_noop(done % sentences, batch, sentences);
    vstd::arithmetic::div_mod::lemma_mod_twice(done, sentences);
}

/// What [`Tickets`] hold after `claims` claims of `batch` embeddings each.
pub open spec fn claimed_after(claims: nat, batch: usize) -> usize
    decreases claims,
{
    if claims == 0 {
        0
    } else {
        claimed_after((claims - 1) as nat, batch).wrapping_add(batch)
    }
}

/// How many of the first `claims` claims are granted.
pub open spec fn granted(claims: nat, batch: usize, target: usize) -> nat
    decreases claims,
{
    if claims == 0 {
        0
    } else {
        let before = granted((claims - 1) as nat, batch, target);
        if claimed_after((claims - 1) as nat, batch) < target {
            before + 1
        } else {
            before
        }
    }
}

/// Claims are granted in order until the target is reached, whichever workers
/// they come from: of `claims` claims, all that are needed and no more. Once
/// one is refused, as many batches were granted as the target takes, rounded
/// up. The count must not have wrapped round.
pub proof fn law_workers_share_the_target(claims: nat, batch: usize, target: usize)
    requires
        batch > 0,
        claims * batch <= usize::MAX,
    ensures
        claimed_after(claims, batch) == claims * batch,
        granted(claims, batch, target) <= claims,
        granted(claims, batch, target) == claims || granted(claims, batch, target) == (target + batch - 1)
            / batch as int,
        granted(claims, batch, target) <= (target + batch - 1) / batch as int,
    decreases claims,
{
    let needed = (target + batch - 1) / batch as int;
    assert(needed * batch >= target && (needed - 1) * batch < target) by {
        vstd::arithmetic::div_mod::lemma_fundamental_div_mod(target + batch - 1, batch as int);
        let rest = (target + batch - 1) % batch as int;
        assert(needed * batch == batch * needed && (needed - 1) * batch == batch * needed - batch)
            by (nonlinear_arith);
    }
    if claims > 0 {
        let before = (claims - 1) as nat;
        assert(claims * batch == before * batch + batch) by (nonlinear_arith)
            requires
                claims == before + 1,
        ;
        law_workers_share_the_target(before, batch, target);
        if before * batch < target {
            assert(before < needed) by (nonlinear_arith)
                requires
                    before * batch < target,
                    needed * batch >= target,
                    batch > 0,
            ;
        } else {
            assert(before > needed - 1) by (nonlinear_arith)
                requires
                    before * batch >= target,
                    (needed - 1) * batch < target,
                    batch > 0,
            ;
        }
    } else {
        assert(claims * batch == 0) by (nonlinear_arith)
            requires
                claims == 0,
        ;
        assert(0 <= needed) by (nonlinear_arith)
            requires
                needed * batch >= target,
                batch > 0,
                target >= 0,
        ;
    }
}

/// Whole batches, as many as are granted for the target, hold as many
/// embeddings as were to be measured, and less than one batch more.
pub proof fn law_granted_batches_cover_the_target(batch: usize, target: usize)
    requires
        batch > 0,
    ensures
        target <= (target + batch - 1) / batch as int * batch < target + batch,
{
    let needed = (target + batch - 1) / batch as int;
    vstd::arithmetic::div_mod::lemma_fundamental_div_mod(target + batch - 1, batch as int);
    assert(needed * batch == batch * needed) by (nonlinear_arith);
}

/// There are as many workers as asked for, and at least one.
pub proof fn law_there_is_a_worker(concurrency: usize, count: usize)
    requires
        call_ensures(worker_count, (concurrency,), count),
    ensures
        count >= 1,
        count >= concurrency,
        concurrency >= 1 ==> count == concurrency,
        concurrency == 0 ==> count == 1,
{
}

/// A claim is granted if fewer than `target` embeddings were claimed before
/// it, and adds its batch to them, granted or not. Of new tickets none are
/// claimed.
pub proof fn law_claims_add_up(fresh: Tickets, tickets: &mut Tickets, batch: usize, target: usize, granted: bool)
    requires
        call_ensures(Tickets::new, (), fresh),
        call_ensures(Tickets::claim, (tickets, batch, target), granted),
    ensures
        fresh@ == 0,
        granted <==> old(tickets)@ < target,
        old(tickets)@ + batch <= usize::MAX ==> final(tickets)@ == old(tickets)@ + batch,
        old(tickets)@ + batch > usize::MAX ==> final(tickets)@ == old(tickets)@ + batch - usize::MAX - 1,
{
}

/// Once a claim is refused, so is the next, as long as the count has not
/// wrapped round.
pub proof fn law_refusal_is_final(
    first: &mut Tickets,
    second: &mut Tickets,
    batch: usize,
    target: usize,
    granted_first: bool,
    granted_second: bool,
)
    requires
        call_ensures(Tickets::claim, (first, batch, target), granted_first),
        call_ensures(Tickets::claim, (second, batch, target), granted_second),
        *final(first) == *old(second),
        old(first)@ + batch <= usize::MAX,
    ensures
        granted_second ==> granted_first,
        granted_second <==> old(first)@ + batch < target,
{
}

/// The `n`-th claim of batches of one size, on tickets that were new, is
/// granted exactly if the batches before it do not reach the target.
pub proof fn law_nth_claim(tickets: &mut Tickets, n: nat, batch: usize, target: usize, granted: bool)
    requires
        call_ensures(Tickets::claim, (tickets, batch, target), granted),
        old(tickets)@ == claimed_after(n, batch),
        batch > 0,
        (n + 1) * batch <= usize::MAX,
    ensures
        granted <==> n * batch < target,
        final(tickets)@ == claimed_after(n + 1, batch),
        final(tickets)@ == (n + 1) * batch,
{
    assert(n * batch <= (n + 1) * batch) by (nonlinear_arith)
        requires
            0 <= batch,
    ;
    law_workers_share_the_target(n, batch, target);
    law_workers_share_the_target(n + 1, batch, target);
}

/// Worker number `id` starts `id` batches after the first sentence, round the
/// list.
pub proof fn law_workers_start_apart(id: usize, batch: usize, sentences: usize, worker: Worker)
    requires
        call_ensures(Worker::new, (id, batch, sentences), worker),
        sentences > 0,
    ensures
        worker.cursor() == (id * batch) % sentences as int,
        worker.batch() == batch,
        worker.sentences() == sentences,
        worker.wf(),
{
}

/// Batch number `index` of worker number `id` starts `(id + index) * batch`
/// sentences after the first, round the list, and leaves the worker at the
/// next one.
pub proof fn law_nth_batch_of_a_worker(worker: &mut Worker, start: usize, id: int, index: int)
    requires
        call_ensures(Worker::next_start, (worker,), start),
        0 <= id,
        0 <= index,
        old(worker).wf(),
        old(worker).cursor() == ((id + index) * old(worker).batch()) % old(worker).sentences(),
    ensures
        start == ((id + index) * old(worker).batch()) % old(worker).sentences(),
        final(worker).cursor() == ((id + index + 1) * old(worker).batch()) % old(worker).sentences(),
        final(worker).batch() == old(worker).batch(),
        final(worker).sentences() == old(worker).sentences(),
        final(worker).wf(),
{
    law_workers_go_round_robin(id, index, old(worker).batch(), old(worker).sentences());
    assert(id + (index + 1) == id + index + 1);
}

/// A batch adds its latency once for every vector, behind what is there.
pub proof fn law_items_are_added_at_the_end(latencies: &mut Vec<Double>, outputs: usize, per_item_ms: Double, i: int)
    requires
        call_ensures(record_items, (latencies, outputs, per_item_ms), ()),
    ensures
        final(latencies)@.len() == old(latencies)@.len() + outputs,
        0 <= i < old(latencies)@.len() ==> final(latencies)@[i] == old(latencies)@[i],
        old(latencies)@.len() <= i < final(latencies)@.len() ==> final(latencies)@[i] == per_item_ms,
{
}

} // verus!
