//! Which rows of a model's output make up the vector of each sentence.
//!
//! The output has one row per token, padding included. A sentence's vector is
//! the mean of the rows of its own tokens: those where the attention mask is 1.
use vstd::prelude::*;

verus! {

/// The output has fewer dimensions than batch, token and component.
#[derive(Debug)]
pub struct ShapeError {
    pub shape: Vec<i64>,
}

/// How many tokens per sentence the output has, and how long a row is.
#[derive(Debug, Clone, Copy, PartialEq, Eq, Structural)]
pub struct OutputShape {
    pub tokens: usize,
    pub width: usize,
}

/// Reads the last two dimensions of an output, which must have at least three.
pub fn output_shape(shape: &[i64]) -> (result: Result<OutputShape, ShapeError>)
    ensures
        result is Ok <==> shape@.len() >= 3,
        match result {
            Ok(output) => output.tokens == shape@[shape@.len() - 2] as usize && output.width
                == shape@[shape@.len() - 1] as usize,
            Err(error) => error.shape@ == shape@,
        },
{
    if shape.len() < 3 {
        let mut copy: Vec<i64> = Vec::new();
        let mut i: usize = 0;
        while i < shape.len()
            invariant
                i <= shape@.len(),
                copy@ =~= shape@.take(i as int),
            decreases shape@.len() - i,
        {
            copy.push(shape[i]);
            i += 1;
        }
        assert(copy@ =~= shape@);
        return Err(ShapeError { shape: copy });
    }
    Ok(
        OutputShape {
            tokens: #[verifier::truncate] (shape[shape.len() - 2] as usize),
            width: #[verifier::truncate] (shape[shape.len() - 1] as usize),
        },
    )
}

/// The tokens of a sentence that are no padding: the positions below `tokens`
/// where the mask, read from `base` on, is 1.
pub open spec fn own_tokens(mask: Seq<i64>, base: int, tokens: int) -> Seq<int>
    decreases tokens,
{
    if tokens <= 0 {
        Seq::empty()
    } else if mask[base + tokens - 1] == 1 {
        own_tokens(mask, base, tokens - 1).push(tokens - 1)
    } else {
        own_tokens(mask, base, tokens - 1)
    }
}

/// Where the row of token `token` of sentence `sentence` starts in the output.
pub open spec fn row_start(sentence: int, token: int, tokens: int, width: int) -> int {
    (sentence * tokens + token) * width
}

/// Whether `starts` are the starts of the rows that make up the vector of
/// sentence `sentence`.
pub open spec fn pools(
    starts: Seq<usize>,
    mask: Seq<i64>,
    sentence: int,
    len: int,
    tokens: int,
    width: int,
) -> bool {
    let own = own_tokens(mask, sentence * len, tokens);
    &&& starts.len() == own.len()
    &&& forall|i: int| 0 <= i < starts.len() ==> #[trigger] starts[i] == row_start(sentence, own[i], tokens, width)
}

/// Whether the mask has an entry for every token of the output.
pub open spec fn mask_covers(mask_len: int, batch: int, len: int, tokens: int) -> bool {
    batch > 0 && tokens > 0 ==> (batch - 1) * len + tokens <= mask_len
}

/// Whether the start of every row that is asked for can be written down.
pub open spec fn starts_fit(mask: Seq<i64>, batch: int, len: int, output: OutputShape) -> bool {
    forall|sentence: int, token: int|
        0 <= sentence < batch && 0 <= token < output.tokens && mask[sentence * len + token] == 1
            ==> #[trigger] row_start(sentence, token, output.tokens as int, output.width as int) <= usize::MAX
}

/// For each of `batch` sentences, where the rows that make up its vector start
/// in the output. The mask has `len` entries per sentence.
pub fn pooled_rows(mask: &[i64], batch: usize, len: usize, output: OutputShape) -> (rows: Vec<Vec<usize>>)
    requires
        mask_covers(mask@.len() as int, batch as int, len as int, output.tokens as int),
        starts_fit(mask@, batch as int, len as int, output),
    ensures
        rows@.len() == batch,
        forall|sentence: int|
            0 <= sentence < batch ==> pools(
                #[trigger] rows@[sentence]@,
                mask@,
                sentence,
                len as int,
                output.tokens as int,
                output.width as int,
            ),
{
    let mut rows: Vec<Vec<usize>> = Vec::new();
    let mut sentence: usize = 0;
    while sentence < batch
        invariant
            mask_covers(mask@.len() as int, batch as int, len as int, output.tokens as int),
            starts_fit(mask@, batch as int, len as int, output),
            sentence <= batch,
            rows@.len() == sentence,
            forall|s: int|
                0 <= s < sentence ==> pools(
                    #[trigger] rows@[s]@,
                    mask@,
                    s,
                    len as int,
                    output.tokens as int,
                    output.width as int,
                ),
        decreases batch - sentence,
    {
        rows.push(sentence_rows(mask, sentence, batch, len, output));
        sentence += 1;
    }
    rows
}

/// Where the rows of one sentence's own tokens start in the output.
fn sentence_rows(mask: &[i64], sentence: usize, batch: usize, len: usize, output: OutputShape) -> (starts: Vec<usize>)
    requires
        sentence < batch,
        mask_covers(mask@.len() as int, batch as int, len as int, output.tokens as int),
        starts_fit(mask@, batch as int, len as int, output),
    ensures
        pools(starts@, mask@, sentence as int, len as int, output.tokens as int, output.width as int),
{
    let mut starts: Vec<usize> = Vec::new();
    let mut token: usize = 0;
    while token < output.tokens
        invariant
            sentence < batch,
            token <= output.tokens,
            mask_covers(mask@.len() as int, batch as int, len as int, output.tokens as int),
            starts_fit(mask@, batch as int, len as int, output),
            starts@.len() == own_tokens(mask@, sentence * len, token as int).len(),
            forall|i: int|
                0 <= i < starts@.len() ==> #[trigger] starts@[i] == row_start(
                    sentence as int,
                    own_tokens(mask@, sentence * len, token as int)[i],
                    output.tokens as int,
                    output.width as int,
                ),
        decreases output.tokens - token,
    {
        assert(0 <= sentence * len <= (batch - 1) * len) by (nonlinear_arith)
            requires
                0 <= sentence <= batch - 1,
                0 <= len,
        ;
        assert(mask.len() == mask@.len());
        if mask[sentence * len + token] == 1 {
            let start: usize = if output.width == 0 {
                0
            } else {
                proof {
                    lemma_row_start_parts(
                        sentence as int,
                        token as int,
                        output.tokens as int,
                        output.width as int,
                    );
                }
                (sentence * output.tokens + token) * output.width
            };
            assert(start == row_start(sentence as int, token as int, output.tokens as int, output.width as int))
                by (nonlinear_arith)
                requires
                    output.width == 0 ==> start == 0,
                    output.width != 0 ==> start == (sentence * output.tokens + token) * output.width,
            ;
            starts.push(start);
        }
        token += 1;
    }
    starts
}

/// The parts of a row's start are no larger than the start.
proof fn lemma_row_start_parts(sentence: int, token: int, tokens: int, width: int)
    requires
        0 <= sentence,
        0 <= token,
        0 <= tokens,
        0 < width,
    ensures
        0 <= sentence * tokens <= sentence * tokens + token <= row_start(sentence, token, tokens, width),
{
    let place = sentence * tokens + token;
    assert(0 <= sentence * tokens) by (nonlinear_arith)
        requires
            0 <= sentence,
            0 <= tokens,
    ;
    assert(place <= place * width) by (nonlinear_arith)
        requires
            0 <= place,
            0 < width,
    ;
}

/// The tokens that make up a sentence's vector come in order, each once, and
/// they are exactly the tokens with a mask of 1.
pub proof fn law_own_tokens_are_the_unmasked_ones(mask: Seq<i64>, base: int, tokens: int)
    requires
        0 <= tokens,
    ensures
        forall|i: int, k: int|
            0 <= i < k < own_tokens(mask, base, tokens).len() ==> #[trigger] own_tokens(mask, base, tokens)[i]
                < #[trigger] own_tokens(mask, base, tokens)[k],
        forall|token: int|
            #[trigger] own_tokens(mask, base, tokens).contains(token) <==> 0 <= token < tokens && mask[base + token]
                == 1,
    decreases tokens,
{
    if tokens > 0 {
        let before = own_tokens(mask, base, tokens - 1);
        let own = own_tokens(mask, base, tokens);
        law_own_tokens_are_the_unmasked_ones(mask, base, tokens - 1);
        assert forall|i: int, k: int| 0 <= i < k < own.len() implies #[trigger] own[i] < #[trigger] own[k] by {
            if own.len() > before.len() && k == own.len() - 1 {
                assert(before.contains(before[i]));
            }
        }
        assert forall|token: int| #[trigger] own.contains(token) <==> 0 <= token < tokens && mask[base + token]
            == 1 by {
            if own.contains(token) {
                let i = choose|i: int| 0 <= i < own.len() && own[i] == token;
                if i < before.len() {
                    assert(before.contains(before[i]));
                }
            }
            if 0 <= token < tokens - 1 && mask[base + token] == 1 {
                assert(before.contains(token));
                let i = choose|i: int| 0 <= i < before.len() && before[i] == token;
                assert(own[i] == token);
            }
            if token == tokens - 1 && mask[base + token] == 1 {
                assert(own[own.len() - 1] == token);
            }
        }
    }
}

/// The rows lie within the output, and no two of them overlap.
pub proof fn law_rows_lie_apart(
    sentence: int,
    token: int,
    other_sentence: int,
    other_token: int,
    batch: int,
    tokens: int,
    width: int,
)
    requires
        0 <= sentence < batch,
        0 <= other_sentence < batch,
        0 <= token < tokens,
        0 <= other_token < tokens,
        0 <= width,
        (sentence, token) != (other_sentence, other_token),
    ensures
        0 <= row_start(sentence, token, tokens, width),
        row_start(sentence, token, tokens, width) + width <= batch * tokens * width,
        row_start(sentence, token, tokens, width) + width <= row_start(other_sentence, other_token, tokens, width)
            || row_start(other_sentence, other_token, tokens, width) + width <= row_start(
            sentence,
            token,
            tokens,
            width,
        ),
{
    let here = sentence * tokens + token;
    let there = other_sentence * tokens + other_token;
    assert(0 <= here && here + 1 <= batch * tokens) by (nonlinear_arith)
        requires
            here == sentence * tokens + token,
            0 <= sentence < batch,
            0 <= token < tokens,
    ;
    assert((here + 1) * width <= batch * tokens * width && 0 <= here * width) by (nonlinear_arith)
        requires
            0 <= here,
            here + 1 <= batch * tokens,
            0 <= width,
    ;
    assert((here + 1) * width == here * width + width && (there + 1) * width == there * width + width)
        by (nonlinear_arith);
    assert(here != there) by (nonlinear_arith)
        requires
            here == sentence * tokens + token,
            there == other_sentence * tokens + other_token,
            0 <= token < tokens,
            0 <= other_token < tokens,
            sentence != other_sentence || token != other_token,
    ;
    if here < there {
        assert((here + 1) * width <= there * width) by (nonlinear_arith)
            requires
                here + 1 <= there,
                0 <= width,
        ;
    } else {
        assert((there + 1) * width <= here * width) by (nonlinear_arith)
            requires
                there + 1 <= here,
                0 <= width,
        ;
    }
}

/// The list of a sentence has one row start for each token whose mask is 1, in
/// the order of the tokens and none for any other: of the tokens `0..tokens`,
/// those with a mask of 1, each as `(sentence * tokens + token) * width`.
pub proof fn law_pool_is_every_unmasked_token(
    mask: &[i64],
    batch: usize,
    len: usize,
    output: OutputShape,
    rows: Vec<Vec<usize>>,
    sentence: int,
)
    requires
        call_ensures(pooled_rows, (mask, batch, len, output), rows),
        0 <= sentence < batch,
    ensures
        rows@.len() == batch,
        rows@[sentence]@.map_values(|start: usize| start as int) == Seq::new(
            output.tokens as nat,
            |token: int| token,
        ).filter(|token: int| mask@[sentence * len + token] == 1).map_values(
            |token: int| (sentence * output.tokens + token) * output.width,
        ),
{
    let own = own_tokens(mask@, sentence * len, output.tokens as int);
    let wanted = |token: int| mask@[sentence * len + token] == 1;
    let starts = rows@[sentence]@;
    lemma_own_tokens_filter(mask@, sentence * len, output.tokens as int, wanted);
    assert(pools(starts, mask@, sentence, len as int, output.tokens as int, output.width as int));
    assert forall|i: int| 0 <= i < starts.len() implies starts[i] as int == (sentence * output.tokens + own[i])
        * output.width by {
        assert(starts[i] == row_start(sentence, own[i], output.tokens as int, output.width as int));
    }
    assert(starts.map_values(|start: usize| start as int) =~= own.map_values(
        |token: int| (sentence * output.tokens + token) * output.width,
    ));
}

/// The own tokens are those that a filter keeps.
proof fn lemma_own_tokens_filter(mask: Seq<i64>, base: int, tokens: int, wanted: spec_fn(int) -> bool)
    requires
        0 <= tokens,
        forall|token: int| #[trigger] wanted(token) <==> mask[base + token] == 1,
    ensures
        own_tokens(mask, base, tokens) == Seq::new(tokens as nat, |token: int| token).filter(wanted),
    decreases tokens,
{
    reveal(Seq::filter);
    let all = Seq::new(tokens as nat, |token: int| token);
    if tokens > 0 {
        lemma_own_tokens_filter(mask, base, tokens - 1, wanted);
        assert(all.drop_last() =~= Seq::new((tokens - 1) as nat, |token: int| token));
        assert(wanted(tokens - 1) <==> mask[base + (tokens - 1)] == 1);
    }
}

/// A row start is in the list of a sentence exactly if it is that of one of
/// its tokens with a mask of 1, and the list is as long as there are such
/// tokens.
pub proof fn law_pool_holds_a_row_iff_unmasked(
    mask: &[i64],
    batch: usize,
    len: usize,
    output: OutputShape,
    rows: Vec<Vec<usize>>,
    sentence: int,
    start: usize,
)
    requires
        call_ensures(pooled_rows, (mask, batch, len, output), rows),
        0 <= sentence < batch,
    ensures
        rows@[sentence]@.contains(start) <==> exists|token: int|
            0 <= token < output.tokens && #[trigger] mask@[sentence * len + token] == 1 && start == (sentence
                * output.tokens + token) * output.width,
        Set::new(|token: int| 0 <= token < output.tokens && mask@[sentence * len + token] == 1).finite(),
        rows@[sentence]@.len() == Set::new(
            |token: int| 0 <= token < output.tokens && mask@[sentence * len + token] == 1,
        ).len(),
{
    let tokens = output.tokens as int;
    let own = own_tokens(mask@, sentence * len, tokens);
    let ones = Set::new(|token: int| 0 <= token < output.tokens && mask@[sentence * len + token] == 1);
    let starts = rows@[sentence]@;
    law_own_tokens_are_the_unmasked_ones(mask@, sentence * len, tokens);
    assert(pools(starts, mask@, sentence, len as int, tokens, output.width as int));
    assert(own.no_duplicates());
    own.unique_seq_to_set();
    assert(own.to_set() =~= ones) by {
        assert forall|token: int| own.to_set().contains(token) == ones.contains(token) by {
            assert(own.contains(token) == ones.contains(token));
        }
    }
    if starts.contains(start) {
        let i = choose|i: int| 0 <= i < starts.len() && starts[i] == start;
        assert(own.contains(own[i]));
        assert(mask@[sentence * len + own[i]] == 1);
    }
    if exists|token: int|
        0 <= token < output.tokens && #[trigger] mask@[sentence * len + token] == 1 && start == (sentence
            * output.tokens + token) * output.width {
        let token = choose|token: int|
            0 <= token < output.tokens && #[trigger] mask@[sentence * len + token] == 1 && start == (sentence
                * output.tokens + token) * output.width;
        assert(own.contains(token));
        let i = choose|i: int| 0 <= i < own.len() && own[i] == token;
        assert(starts[i] == row_start(sentence, own[i], tokens, output.width as int));
        assert(starts[i] == start);
    }
}

/// The last two dimensions of an output of three or more are its tokens and
/// its width; one of fewer is refused as it is.
pub proof fn law_shapes_end_in_tokens_and_width(shape: &[i64], result: Result<OutputShape, ShapeError>)
    requires
        call_ensures(output_shape, (shape,), result),
    ensures
        match result {
            Ok(output) => {
                let tokens = shape@[shape@.len() - 2];
                let width = shape@[shape@.len() - 1];
                &&& shape@.len() >= 3
                &&& output.tokens == tokens as usize
                &&& output.width == width as usize
                &&& 0 <= tokens <= usize::MAX ==> output.tokens == tokens
                &&& 0 <= width <= usize::MAX ==> output.width == width
            },
            Err(error) => shape@.len() < 3 && error.shape@ == shape@,
        },
{
}

} // verus!
