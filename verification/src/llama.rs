//! What a llama.cpp context is set up with, and how a batch of tokenized
//! sentences is handed to it.
use crate::rows::{joined, lemma_joined_push};
use vstd::prelude::*;

verus! {

/// Tokens that one sentence may have.
pub const CONTEXT_TOKENS: u32 = 512;

/// Sentences that one batch may have.
pub const MAX_SEQUENCES: u32 = 64;

/// The size of a context.
#[derive(Debug, Clone, Copy, PartialEq, Eq, Structural)]
pub struct ContextPlan {
    /// Tokens per sentence.
    pub n_ctx: u32,
    /// Tokens per batch.
    pub n_batch: u32,
    /// Sentences per batch.
    pub n_seq_max: u32,
    pub n_threads: i32,
}

/// The context for a run: large enough for `batch` sentences of full length,
/// and for at least one.
pub fn context_plan(batch: usize, threads: usize) -> (plan: ContextPlan)
    requires
        (batch as u32) * CONTEXT_TOKENS <= u32::MAX,
    ensures
        plan.n_ctx == CONTEXT_TOKENS,
        plan.n_batch == (if batch as u32 == 0 {
            CONTEXT_TOKENS as int
        } else {
            (batch as u32) * CONTEXT_TOKENS
        }),
        plan.n_seq_max == MAX_SEQUENCES,
        plan.n_threads == threads as i32,
{
    let sentences: u32 = #[verifier::truncate] (batch as u32);
    let tokens: u32 = sentences * CONTEXT_TOKENS;
    let n_batch: u32 = if tokens < CONTEXT_TOKENS {
        CONTEXT_TOKENS
    } else {
        tokens
    };
    ContextPlan {
        n_ctx: CONTEXT_TOKENS,
        n_batch,
        n_seq_max: MAX_SEQUENCES,
        n_threads: #[verifier::truncate] (threads as i32),
    }
}

/// One token of a batch.
#[derive(Debug, Clone, Copy, PartialEq, Eq, Structural)]
pub struct BatchEntry {
    pub token: i32,
    /// Its position in the sentence.
    pub position: i32,
    /// The sentence that it belongs to.
    pub sequence: i32,
    /// Whether the output after this token is wanted.
    pub output: bool,
}

/// A batch of tokenized sentences.
#[derive(Debug)]
pub struct TokenBatch {
    /// Room for this many tokens; at least one.
    pub capacity: usize,
    pub sequences: i32,
    pub entries: Vec<BatchEntry>,
}

/// The entries of sentence number `sequence`: its tokens in order, the output
/// wanted after the last.
pub open spec fn sentence_entries(tokens: Seq<i32>, sequence: int) -> Seq<BatchEntry> {
    Seq::new(
        tokens.len(),
        |i: int|
            BatchEntry {
                token: tokens[i],
                position: i as i32,
                sequence: sequence as i32,
                output: i == tokens.len() - 1,
            },
    )
}

/// The entries of each sentence.
pub open spec fn all_entries(sentences: Seq<Vec<i32>>) -> Seq<Seq<BatchEntry>> {
    Seq::new(sentences.len(), |k: int| sentence_entries(sentences[k]@, k))
}

/// The batch of these tokenized sentences, one after the other.
pub fn token_batch(sentences: &[Vec<i32>]) -> (batch: TokenBatch)
    ensures
        batch.entries@ == joined(all_entries(sentences@)),
        batch.capacity == (if batch.entries@.len() == 0 {
            1
        } else {
            batch.entries@.len()
        }),
        batch.sequences == sentences@.len() as i32,
{
    let mut entries: Vec<BatchEntry> = Vec::new();
    let mut k: usize = 0;
    assert(all_entries(sentences@.take(0)) =~= Seq::empty());
    while k < sentences.len()
        invariant
            k <= sentences@.len(),
            entries@ =~= joined(all_entries(sentences@.take(k as int))),
        decreases sentences@.len() - k,
    {
        let tokens = &sentences[k];
        let ghost done = entries@;
        let mut i: usize = 0;
        while i < tokens.len()
            invariant
                i <= tokens@.len(),
                entries@ =~= done + sentence_entries(tokens@, k as int).take(i as int),
            decreases tokens@.len() - i,
        {
            entries.push(
                BatchEntry {
                    token: tokens[i],
                    position: #[verifier::truncate] (i as i32),
                    sequence: #[verifier::truncate] (k as i32),
                    output: i == tokens.len() - 1,
                },
            );
            i += 1;
        }
        proof {
            assert(sentence_entries(tokens@, k as int).take(i as int) =~= sentence_entries(tokens@, k as int));
            assert(all_entries(sentences@.take(k + 1)) =~= all_entries(sentences@.take(k as int)).push(
                sentence_entries(tokens@, k as int),
            ));
            lemma_joined_push(all_entries(sentences@.take(k as int)), sentence_entries(tokens@, k as int));
        }
        k += 1;
    }
    assert(sentences@.take(k as int) =~= sentences@);
    let capacity: usize = if entries.len() == 0 {
        1
    } else {
        entries.len()
    };
    TokenBatch { capacity, sequences: #[verifier::truncate] (sentences.len() as i32), entries }
}

/// How many outputs are wanted in all.
pub open spec fn outputs(entries: Seq<BatchEntry>) -> nat
    decreases entries.len(),
{
    if entries.len() == 0 {
        0
    } else {
        outputs(entries.drop_last()) + if entries.last().output {
            1nat
        } else {
            0nat
        }
    }
}

/// How many sentences have a token.
pub open spec fn nonempty(sentences: Seq<Vec<i32>>) -> nat
    decreases sentences.len(),
{
    if sentences.len() == 0 {
        0
    } else {
        nonempty(sentences.drop_last()) + if sentences.last()@.len() > 0 {
            1nat
        } else {
            0nat
        }
    }
}

/// One output is wanted for every sentence that has a token.
pub proof fn law_one_output_per_sentence(sentences: Seq<Vec<i32>>)
    ensures
        outputs(joined(all_entries(sentences))) == nonempty(sentences),
    decreases sentences.len(),
{
    if sentences.len() > 0 {
        let rest = sentences.drop_last();
        let last = sentences.len() - 1;
        let more = sentence_entries(sentences.last()@, last);
        law_one_output_per_sentence(rest);
        assert(all_entries(sentences) =~= all_entries(rest).push(more));
        lemma_joined_push(all_entries(rest), more);
        lemma_outputs_add(joined(all_entries(rest)), more);
        lemma_sentence_outputs(sentences.last()@, last, more.len() as int);
        assert(more.take(more.len() as int) =~= more);
    }
}

/// Outputs of two lists, one after the other.
proof fn lemma_outputs_add(first: Seq<BatchEntry>, second: Seq<BatchEntry>)
    ensures
        outputs(first + second) == outputs(first) + outputs(second),
    decreases second.len(),
{
    if second.len() == 0 {
        assert(first + second =~= first);
    } else {
        assert((first + second).drop_last() =~= first + second.drop_last());
        lemma_outputs_add(first, second.drop_last());
    }
}

/// Within a sentence only the last token's output is wanted.
proof fn lemma_sentence_outputs(tokens: Seq<i32>, sequence: int, upto: int)
    requires
        0 <= upto <= tokens.len(),
    ensures
        outputs(sentence_entries(tokens, sequence).take(upto)) == if upto == tokens.len() && upto > 0 {
            1nat
        } else {
            0nat
        },
    decreases upto,
{
    let entries = sentence_entries(tokens, sequence);
    if upto > 0 {
        assert(entries.take(upto).drop_last() =~= entries.take(upto - 1));
        lemma_sentence_outputs(tokens, sequence, upto - 1);
    }
}

/// Token `i` of sentence `k` goes into the batch behind all tokens before it,
/// with the position `i` and the sequence `k`, its output wanted if it is the
/// sentence's last. Nothing else goes in, and there is room for all of it.
pub proof fn law_tokens_keep_their_sentence(sentences: &[Vec<i32>], batch: TokenBatch, k: int, i: int)
    requires
        call_ensures(token_batch, (sentences,), batch),
        0 <= k < sentences@.len(),
        0 <= i < sentences@[k]@.len(),
    ensures
        ({
            let tokens = sentences@.map_values(|sentence: Vec<i32>| sentence@);
            let at = tokens.take(k).flatten().len() + i;
            &&& batch.entries@.len() == tokens.flatten().len()
            &&& 0 <= at < batch.entries@.len()
            &&& batch.entries@[at].token == sentences@[k]@[i]
            &&& batch.entries@[at].position == i as i32
            &&& i <= i32::MAX ==> batch.entries@[at].position == i
            &&& batch.entries@[at].sequence == k as i32
            &&& k <= i32::MAX ==> batch.entries@[at].sequence == k
            &&& batch.entries@[at].output <==> i + 1 == sentences@[k]@.len()
        }),
{
    lemma_entries_by_place(sentences@, k, i);
}

/// How a place in the batch is found.
proof fn lemma_entries_by_place(sentences: Seq<Vec<i32>>, k: int, i: int)
    requires
        0 <= k < sentences.len(),
        0 <= i < sentences[k]@.len(),
    ensures
        ({
            let tokens = sentences.map_values(|sentence: Vec<i32>| sentence@);
            let at = tokens.take(k).flatten().len() + i;
            &&& joined(all_entries(sentences)).len() == tokens.flatten().len()
            &&& 0 <= at < tokens.flatten().len()
            &&& joined(all_entries(sentences))[at] == sentence_entries(sentences[k]@, k)[i]
        }),
{
    let tokens = sentences.map_values(|sentence: Vec<i32>| sentence@);
    let entries = all_entries(sentences);
    lemma_same_lengths(tokens, entries);
    lemma_same_lengths(tokens.take(k), entries.take(k));
    crate::rows::law_joined_is_flat(entries);
    crate::rows::law_rows_follow_each_other(entries, k, i);
}

/// Rows of the same lengths are as long, laid end to end.
proof fn lemma_same_lengths(tokens: Seq<Seq<i32>>, entries: Seq<Seq<BatchEntry>>)
    requires
        tokens.len() == entries.len(),
        forall|k: int| 0 <= k < tokens.len() ==> (#[trigger] tokens[k]).len() == entries[k].len(),
    ensures
        tokens.flatten().len() == entries.flatten().len(),
    decreases tokens.len(),
{
    crate::rows::law_joined_is_flat(tokens);
    crate::rows::law_joined_is_flat(entries);
    if tokens.len() > 0 {
        lemma_same_lengths(tokens.drop_last(), entries.drop_last());
        crate::rows::law_joined_is_flat(tokens.drop_last());
        crate::rows::law_joined_is_flat(entries.drop_last());
        assert(tokens[tokens.len() - 1].len() == entries[tokens.len() - 1].len());
    }
}

/// The entries of one sequence, read by their positions, are the sentence of
/// that number: each entry names the token that it holds, and no two entries
/// name the same. Sequences and positions must fit their type.
pub proof fn law_sequences_are_the_sentences(sentences: &[Vec<i32>], batch: TokenBatch)
    requires
        call_ensures(token_batch, (sentences,), batch),
        sentences@.len() <= i32::MAX,
        forall|k: int| 0 <= k < sentences@.len() ==> (#[trigger] sentences@[k])@.len() <= i32::MAX,
    ensures
        batch.sequences == sentences@.len(),
        batch.capacity >= 1,
        batch.capacity >= batch.entries@.len(),
        batch.entries@.len() > 0 ==> batch.capacity == batch.entries@.len(),
        batch.entries@.len() == 0 ==> batch.capacity == 1,
        forall|a: int|
            0 <= a < batch.entries@.len() ==> {
                let entry = #[trigger] batch.entries@[a];
                &&& 0 <= entry.sequence < sentences@.len()
                &&& 0 <= entry.position < sentences@[entry.sequence as int]@.len()
                &&& entry.token == sentences@[entry.sequence as int]@[entry.position as int]
                &&& entry.output <==> entry.position + 1 == sentences@[entry.sequence as int]@.len()
            },
        forall|a: int, b: int|
            0 <= a < b < batch.entries@.len() ==> {
                ||| (#[trigger] batch.entries@[a]).sequence < (#[trigger] batch.entries@[b]).sequence
                ||| (batch.entries@[a].sequence == batch.entries@[b].sequence && batch.entries@[a].position
                    < batch.entries@[b].position)
            },
{
    let tokens = sentences@.map_values(|sentence: Vec<i32>| sentence@);
    let entries = all_entries(sentences@);
    lemma_same_lengths(tokens, entries);
    crate::rows::law_joined_is_flat(entries);
    assert forall|a: int| 0 <= a < batch.entries@.len() implies {
        let entry = #[trigger] batch.entries@[a];
        &&& 0 <= entry.sequence < sentences@.len()
        &&& 0 <= entry.position < sentences@[entry.sequence as int]@.len()
        &&& entry.token == sentences@[entry.sequence as int]@[entry.position as int]
        &&& entry.output <==> entry.position + 1 == sentences@[entry.sequence as int]@.len()
    } by {
        let (k, i) = crate::rows::law_places_come_from_rows(tokens, a);
        assert(sentences@[k]@.len() <= i32::MAX);
        lemma_entries_by_place(sentences@, k, i);
    }
    assert forall|a: int, b: int| 0 <= a < b < batch.entries@.len() implies {
        ||| (#[trigger] batch.entries@[a]).sequence < (#[trigger] batch.entries@[b]).sequence
        ||| (batch.entries@[a].sequence == batch.entries@[b].sequence && batch.entries@[a].position
            < batch.entries@[b].position)
    } by {
        let (k, i) = crate::rows::law_places_come_from_rows(tokens, a);
        let (l, j) = crate::rows::law_places_come_from_rows(tokens, b);
        assert(sentences@[k]@.len() <= i32::MAX);
        assert(sentences@[l]@.len() <= i32::MAX);
        lemma_entries_by_place(sentences@, k, i);
        lemma_entries_by_place(sentences@, l, j);
        if l < k {
            lemma_rows_before(tokens, l, k);
        }
    }
}

/// The rows before row `k` hold row `l` too, where it comes earlier.
proof fn lemma_rows_before(rows: Seq<Seq<i32>>, l: int, k: int)
    requires
        0 <= l < k <= rows.len(),
    ensures
        rows.take(l).flatten().len() + rows[l].len() <= rows.take(k).flatten().len(),
    decreases k,
{
    assert(rows.take(k).drop_last() =~= rows.take(k - 1));
    crate::rows::law_joined_is_flat(rows.take(k));
    crate::rows::law_joined_is_flat(rows.take(k - 1));
    if l < k - 1 {
        lemma_rows_before(rows, l, k - 1);
    }
}

/// A context takes 512 tokens per sentence and 64 sentences; a batch holds as
/// many tokens as `batch` sentences can have, and one sentence at least.
pub proof fn law_context_holds_the_batch(batch: usize, threads: usize, plan: ContextPlan)
    requires
        call_ensures(context_plan, (batch, threads), plan),
    ensures
        plan.n_ctx == 512,
        plan.n_seq_max == 64,
        plan.n_batch >= 512,
        batch == 0 ==> plan.n_batch == 512,
        1 <= batch <= u32::MAX ==> plan.n_batch == 512 * batch,
        batch as u32 > 0 ==> plan.n_batch == 512 * (batch as u32),
        threads <= i32::MAX ==> plan.n_threads == threads,
        plan.n_threads == threads as i32,
{
}

} // verus!
