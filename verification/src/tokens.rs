//! Sentences as token matrices: what a batch looks like to a model.
use crate::corpus::texts;
use crate::rows::{joined, lemma_joined_push, uniform};
use tokenizers::{Encoding, PaddingDirection, PaddingParams, PaddingStrategy, Tokenizer};
use vstd::prelude::*;
use vstd::string::StringExecFns;

verus! {

/// `tokenizers::Tokenizer`, the tokenizer of a model.
#[verifier::external_type_specification]
#[verifier::external_body]
pub struct ExTokenizer(tokenizers::Tokenizer);

/// `tokenizers::Encoding`, the tokens of one sentence.
#[verifier::external_type_specification]
#[verifier::external_body]
pub struct ExEncoding(tokenizers::Encoding);

/// The token ids that an encoding holds.
pub uninterp spec fn encoding_ids(encoding: Encoding) -> Seq<u32>;

/// The attention mask that an encoding holds.
pub uninterp spec fn encoding_mask(encoding: Encoding) -> Seq<u32>;

/// How a tokenizer fills up the sentences of a batch, if it does.
pub uninterp spec fn padding_of(tokenizer: Tokenizer) -> Option<PaddingModel>;

/// Whether a tokenizer cuts off long sentences.
pub uninterp spec fn truncates(tokenizer: Tokenizer) -> bool;

/// Whether the steps of a tokenizer other than filling up and cutting off
/// return on every sentence, with tokens or with an error.
///
/// They do not where a post-processing template for one sentence names a
/// second sentence or a special token that it does not define, where two
/// templates follow each other, or where sentences are split into pieces of
/// length 0: a tokenizer can be loaded with such rules, and panics when it
/// encodes.
pub uninterp spec fn encodes_safely(tokenizer: Tokenizer) -> bool;

/// The tokenizer that fills up sentences by `padding`, and is else as
/// `tokenizer` is.
pub uninterp spec fn padded(tokenizer: Tokenizer, padding: PaddingModel) -> Tokenizer;

/// The tokenizer that cuts off no sentence, and is else as `tokenizer` is.
pub uninterp spec fn untruncated(tokenizer: Tokenizer) -> Tokenizer;

/// Whether `ids` and `masks`, one of each per sentence, are a possible outcome
/// of encoding the batch `inputs`.
pub uninterp spec fn can_encode_as(
    tokenizer: Tokenizer,
    inputs: Seq<Seq<char>>,
    add_special_tokens: bool,
    ids: Seq<Seq<u32>>,
    masks: Seq<Seq<u32>>,
) -> bool;

/// Whether `error` is a possible error text of encoding the batch `inputs`.
pub uninterp spec fn can_fail_with(
    tokenizer: Tokenizer,
    inputs: Seq<Seq<char>>,
    add_special_tokens: bool,
    error: Seq<char>,
) -> bool;

/// `tokenizers::Encoding::get_ids`: the token ids, as they are held.
pub assume_specification[ tokenizers::Encoding::get_ids ](encoding: &Encoding) -> (ids: &[u32])
    ensures
        ids@ == encoding_ids(*encoding),
;

/// `tokenizers::Encoding::get_attention_mask`: the attention mask, as it is held.
pub assume_specification[ tokenizers::Encoding::get_attention_mask ](encoding: &Encoding) -> (mask: &[u32])
    ensures
        mask@ == encoding_mask(*encoding),
;

/// `tokenizers::TokenizerImpl::with_padding`: sets how sentences are filled
/// up, and nothing else.
#[verifier::external_body]
fn set_padding(tokenizer: &mut Tokenizer, padding: Padding)
    ensures
        *final(tokenizer) == padded(*old(tokenizer), padding@),
        padding_of(*final(tokenizer)) == Some(padding@),
        truncates(*final(tokenizer)) == truncates(*old(tokenizer)),
        encodes_safely(*final(tokenizer)) == encodes_safely(*old(tokenizer)),
{
    let strategy = match padding.to {
        PadTo::Longest => PaddingStrategy::BatchLongest,
        PadTo::Fixed(len) => PaddingStrategy::Fixed(len),
    };
    let direction = match padding.side {
        PadSide::Left => PaddingDirection::Left,
        PadSide::Right => PaddingDirection::Right,
    };
    let (pad_to_multiple_of, pad_token) = (padding.multiple, padding.token);
    let (pad_id, pad_type_id) = (padding.id, padding.type_id);
    let params = PaddingParams { strategy, direction, pad_to_multiple_of, pad_id, pad_type_id, pad_token };
    tokenizer.with_padding(Some(params));
}

/// `tokenizers::TokenizerImpl::with_truncation`, with no truncation, which
/// always succeeds. It sets the truncation and nothing else.
#[verifier::external_body]
fn clear_truncation(tokenizer: &mut Tokenizer) -> (result: Result<(), String>)
    ensures
        result is Ok,
        *final(tokenizer) == untruncated(*old(tokenizer)),
        !truncates(*final(tokenizer)),
        padding_of(*final(tokenizer)) == padding_of(*old(tokenizer)),
        encodes_safely(*final(tokenizer)) == encodes_safely(*old(tokenizer)),
{
    match tokenizer.with_truncation(None) {
        Ok(_) => Ok(()),
        Err(error) => Err(error.to_string()),
    }
}

/// `tokenizers::TokenizerImpl::encode_batch`: one encoding per sentence, in
/// order, or the text of the error. With sentences filled up to the longest,
/// all encodings of a batch have as many ids, and each has as many mask entries
/// as ids. A batch of no sentences is always encoded.
///
/// Which ids a sentence has is left open, and whether it can be encoded: both
/// follow from the vocabulary and the rules that the tokenizer was loaded with,
/// and some of these rules draw random numbers.
#[verifier::external_body]
fn encode_batch(tokenizer: &Tokenizer, inputs: Vec<&str>, add_special_tokens: bool) -> (result: Result<
    Vec<Encoding>,
    String,
>)
    requires
        !truncates(*tokenizer),
        fills_to_longest(padding_of(*tokenizer)),
        encodes_safely(*tokenizer),
    ensures
        inputs@.len() == 0 ==> result is Ok,
        match result {
            Ok(encodings) => {
                &&& encodings@.len() == inputs@.len()
                &&& can_encode_as(
                    *tokenizer,
                    texts(inputs@),
                    add_special_tokens,
                    encodings@.map_values(|encoding: Encoding| encoding_ids(encoding)),
                    encodings@.map_values(|encoding: Encoding| encoding_mask(encoding)),
                )
                &&& forall|i: int, k: int|
                    0 <= i < encodings@.len() && 0 <= k < encodings@.len() ==> encoding_ids(
                        #[trigger] encodings@[i],
                    ).len() == encoding_ids(#[trigger] encodings@[k]).len()
                &&& forall|i: int|
                    0 <= i < encodings@.len() ==> encoding_mask(#[trigger] encodings@[i]).len() == encoding_ids(
                        encodings@[i],
                    ).len()
            },
            Err(error) => can_fail_with(*tokenizer, texts(inputs@), add_special_tokens, error@),
        },
{
    tokenizer.encode_batch(inputs, add_special_tokens).map_err(|error| error.to_string())
}

/// How far sentences are filled up.
#[derive(Debug, Clone, Copy, PartialEq, Eq, Structural)]
pub enum PadTo {
    /// To the longest sentence of the batch.
    Longest,
    /// To this many tokens.
    Fixed(usize),
}

/// At which end sentences are filled up.
#[derive(Debug, Clone, Copy, PartialEq, Eq, Structural)]
pub enum PadSide {
    Left,
    Right,
}

/// How sentences are filled up.
#[derive(Debug)]
pub struct Padding {
    pub to: PadTo,
    pub side: PadSide,
    /// The length is rounded up to a multiple of this.
    pub multiple: Option<usize>,
    pub id: u32,
    pub type_id: u32,
    pub token: String,
}

/// How sentences are filled up, with the token as its characters.
pub struct PaddingModel {
    pub to: PadTo,
    pub side: PadSide,
    pub multiple: Option<usize>,
    pub id: u32,
    pub type_id: u32,
    pub token: Seq<char>,
}

impl View for Padding {
    type V = PaddingModel;

    open spec fn view(&self) -> PaddingModel {
        PaddingModel {
            to: self.to,
            side: self.side,
            multiple: self.multiple,
            id: self.id,
            type_id: self.type_id,
            token: self.token@,
        }
    }
}

/// Whether sentences are filled up to the longest of the batch, and no further.
pub open spec fn fills_to_longest(padding: Option<PaddingModel>) -> bool {
    padding matches Some(padding) && padding.to is Longest && padding.multiple is None
}

/// The padding of the model: `[PAD]`, id 0 and type 0, at the right, up to the
/// longest sentence.
pub open spec fn model_padding() -> PaddingModel {
    PaddingModel { to: PadTo::Longest, side: PadSide::Right, multiple: None, id: 0, type_id: 0, token: "[PAD]"@ }
}

/// The tokens of one sentence.
#[derive(Debug)]
pub struct TokenRow {
    pub ids: Vec<u32>,
    pub mask: Vec<u32>,
}

/// The tokens of a batch: `batch` rows of `len`, laid end to end.
#[derive(Debug)]
pub struct TokenMatrix {
    pub batch: usize,
    pub len: usize,
    pub ids: Vec<u32>,
    pub mask: Vec<u32>,
}

/// What a model takes in: the tokens of a batch as 64-bit numbers, and a type
/// for each of them.
#[derive(Debug)]
pub struct ModelInputs {
    pub ids: Vec<i64>,
    pub mask: Vec<i64>,
    pub type_ids: Vec<i64>,
}

/// The ids of each row.
pub open spec fn row_ids(rows: Seq<TokenRow>) -> Seq<Seq<u32>> {
    rows.map_values(|row: TokenRow| row.ids@)
}

/// The masks of each row.
pub open spec fn row_masks(rows: Seq<TokenRow>) -> Seq<Seq<u32>> {
    rows.map_values(|row: TokenRow| row.mask@)
}

/// How many ids the first row has.
pub open spec fn first_len(rows: Seq<TokenRow>) -> nat {
    if rows.len() == 0 {
        0
    } else {
        rows[0].ids@.len()
    }
}

/// Whether `matrix` is made of `rows`.
pub open spec fn made_of(matrix: TokenMatrix, rows: Seq<TokenRow>) -> bool {
    &&& matrix.batch == rows.len()
    &&& matrix.len == first_len(rows)
    &&& matrix.ids@ == joined(row_ids(rows))
    &&& matrix.mask@ == joined(row_masks(rows))
}

/// The same numbers, as 64-bit numbers.
pub open spec fn widened(numbers: Seq<u32>) -> Seq<i64> {
    Seq::new(numbers.len(), |i: int| numbers[i] as i64)
}

/// Lays the rows of a batch end to end. The length of the batch is that of its
/// first row.
pub fn flatten(rows: &[TokenRow]) -> (matrix: TokenMatrix)
    ensures
        made_of(matrix, rows@),
{
    let len: usize = if rows.len() == 0 {
        0
    } else {
        rows[0].ids.len()
    };
    let mut ids: Vec<u32> = Vec::new();
    let mut mask: Vec<u32> = Vec::new();
    let mut k: usize = 0;
    assert(row_ids(rows@.take(0)) =~= Seq::empty());
    assert(row_masks(rows@.take(0)) =~= Seq::empty());
    while k < rows.len()
        invariant
            k <= rows@.len(),
            ids@ == joined(row_ids(rows@.take(k as int))),
            mask@ == joined(row_masks(rows@.take(k as int))),
        decreases rows@.len() - k,
    {
        let row = &rows[k];
        append_all(&mut ids, row.ids.as_slice());
        append_all(&mut mask, row.mask.as_slice());
        proof {
            assert(row_ids(rows@.take(k + 1)) =~= row_ids(rows@.take(k as int)).push(row.ids@));
            assert(row_masks(rows@.take(k + 1)) =~= row_masks(rows@.take(k as int)).push(row.mask@));
            lemma_joined_push(row_ids(rows@.take(k as int)), row.ids@);
            lemma_joined_push(row_masks(rows@.take(k as int)), row.mask@);
        }
        k += 1;
    }
    assert(rows@.take(k as int) =~= rows@);
    TokenMatrix { batch: rows.len(), len, ids, mask }
}

/// Appends `more` to `numbers`.
fn append_all(numbers: &mut Vec<u32>, more: &[u32])
    ensures
        final(numbers)@ == old(numbers)@ + more@,
{
    let mut i: usize = 0;
    while i < more.len()
        invariant
            i <= more@.len(),
            numbers@ =~= old(numbers)@ + more@.take(i as int),
        decreases more@.len() - i,
    {
        numbers.push(more[i]);
        i += 1;
    }
    assert(more@.take(i as int) =~= more@);
}

/// A copy of `numbers`.
fn copied(numbers: &[u32]) -> (copy: Vec<u32>)
    ensures
        copy@ == numbers@,
{
    let mut copy: Vec<u32> = Vec::new();
    append_all(&mut copy, numbers);
    assert(copy@ =~= numbers@);
    copy
}

/// `numbers` as 64-bit numbers.
fn widen(numbers: &[u32]) -> (wide: Vec<i64>)
    ensures
        wide@ == widened(numbers@),
{
    let mut wide: Vec<i64> = Vec::new();
    let mut i: usize = 0;
    while i < numbers.len()
        invariant
            i <= numbers@.len(),
            wide@ =~= widened(numbers@.take(i as int)),
        decreases numbers@.len() - i,
    {
        wide.push(numbers[i] as i64);
        i += 1;
    }
    assert(numbers@.take(i as int) =~= numbers@);
    wide
}

impl TokenMatrix {
    /// What a model takes in for this batch: ids and mask as they are, and the
    /// type 0 for each of the `batch * len` tokens.
    pub fn model_inputs(&self) -> (inputs: ModelInputs)
        requires
            self.batch * self.len <= usize::MAX,
        ensures
            inputs.ids@ == widened(self.ids@),
            inputs.mask@ == widened(self.mask@),
            inputs.type_ids@ == Seq::new((self.batch * self.len) as nat, |i: int| 0i64),
    {
        let count: usize = self.batch * self.len;
        let mut type_ids: Vec<i64> = Vec::new();
        let mut i: usize = 0;
        while i < count
            invariant
                i <= count,
                type_ids@ =~= Seq::new(i as nat, |k: int| 0i64),
            decreases count - i,
        {
            type_ids.push(0);
            i += 1;
        }
        ModelInputs { ids: widen(self.ids.as_slice()), mask: widen(self.mask.as_slice()), type_ids }
    }
}

/// A tokenizer that fills up shorter sentences and cuts off none.
pub struct BatchTokenizer {
    inner: Tokenizer,
}

impl BatchTokenizer {
    /// Shorter sentences are filled up, long ones are not cut off, and encoding
    /// returns.
    #[verifier::type_invariant]
    spec fn ready(self) -> bool {
        &&& padding_of(self.inner) == Some(model_padding())
        &&& !truncates(self.inner)
        &&& encodes_safely(self.inner)
    }

    /// The tokenizer itself.
    pub closed spec fn tokenizer(self) -> Tokenizer {
        self.inner
    }

    /// Makes `tokenizer` fill up shorter sentences and cut off none, whatever
    /// it did before, and changes nothing else of it.
    pub fn new(tokenizer: Tokenizer) -> (result: Result<BatchTokenizer, String>)
        requires
            encodes_safely(tokenizer),
        ensures
            result matches Ok(ready) && {
                &&& ready.tokenizer() == untruncated(padded(tokenizer, model_padding()))
                &&& padding_of(ready.tokenizer()) == Some(model_padding())
                &&& !truncates(ready.tokenizer())
                &&& encodes_safely(ready.tokenizer())
            },
    {
        let mut inner = tokenizer;
        let padding = Padding {
            to: PadTo::Longest,
            side: PadSide::Right,
            multiple: None,
            id: 0,
            type_id: 0,
            token: "[PAD]".to_owned(),
        };
        set_padding(&mut inner, padding);
        match clear_truncation(&mut inner) {
            Ok(()) => Ok(BatchTokenizer { inner }),
            Err(error) => {
                let mut text = "tokenizer: ".to_owned();
                text.append(error.as_str());
                Err(text)
            },
        }
    }

    /// Encodes a batch, with the special tokens of the model: one row per
    /// sentence, all of one length, laid end to end. A batch of no sentences is
    /// always encoded.
    ///
    /// Which ids a sentence has, and whether it can be encoded, follows from the
    /// vocabulary and the rules of the tokenizer.
    pub fn encode(&self, inputs: &[&str]) -> (result: Result<TokenMatrix, String>)
        ensures
            inputs@.len() == 0 ==> result is Ok,
            match result {
                Ok(matrix) => {
                    &&& matrix.batch == inputs@.len()
                    &&& matrix.ids@.len() == matrix.batch * matrix.len
                    &&& matrix.mask@.len() == matrix.batch * matrix.len
                    &&& exists|rows: Seq<TokenRow>| #[trigger]
                        made_of(matrix, rows) && uniform(row_ids(rows), matrix.len as nat) && uniform(
                            row_masks(rows),
                            matrix.len as nat,
                        ) && can_encode_as(
                            self.tokenizer(),
                            texts(inputs@),
                            true,
                            row_ids(rows),
                            row_masks(rows),
                        )
                },
                Err(text) => exists|error: Seq<char>| #[trigger]
                    can_fail_with(self.tokenizer(), texts(inputs@), true, error) && text@ == "encode: "@ + error,
            },
    {
        proof {
            use_type_invariant(self);
        }
        let mut copy: Vec<&str> = Vec::new();
        let mut i: usize = 0;
        while i < inputs.len()
            invariant
                i <= inputs@.len(),
                copy@ =~= inputs@.take(i as int),
            decreases inputs@.len() - i,
        {
            copy.push(inputs[i]);
            i += 1;
        }
        assert(copy@ =~= inputs@);
        match encode_batch(&self.inner, copy, true) {
            Ok(encodings) => {
                let rows = rows_of(&encodings);
                let matrix = flatten(rows.as_slice());
                proof {
                    assert forall|k: int| 0 <= k < row_ids(rows@).len() implies (#[trigger] row_ids(rows@)[k]).len()
                        == matrix.len as nat by {
                        assert(rows@[k].ids@ == encoding_ids(encodings@[k]));
                        assert(rows@[0].ids@ == encoding_ids(encodings@[0]));
                    }
                    assert forall|k: int| 0 <= k < row_masks(rows@).len() implies (#[trigger] row_masks(rows@)[k]).len()
                        == matrix.len as nat by {
                        assert(rows@[k].mask@ == encoding_mask(encodings@[k]));
                        assert(row_ids(rows@)[k].len() == matrix.len as nat);
                    }
                    crate::rows::law_uniform_rows_fill_a_matrix(row_ids(rows@), matrix.len as nat);
                    crate::rows::law_uniform_rows_fill_a_matrix(row_masks(rows@), matrix.len as nat);
                    assert(row_ids(rows@) =~= encodings@.map_values(|e: Encoding| encoding_ids(e)));
                    assert(row_masks(rows@) =~= encodings@.map_values(|e: Encoding| encoding_mask(e)));
                    assert(made_of(matrix, rows@));
                }
                Ok(matrix)
            },
            Err(error) => {
                let mut text = "encode: ".to_owned();
                text.append(error.as_str());
                assert(can_fail_with(self.tokenizer(), texts(inputs@), true, error@));
                Err(text)
            },
        }
    }
}

/// The tokens of each sentence of a batch.
fn rows_of(encodings: &Vec<Encoding>) -> (rows: Vec<TokenRow>)
    ensures
        rows@.len() == encodings@.len(),
        forall|k: int|
            0 <= k < rows@.len() ==> (#[trigger] rows@[k]).ids@ == encoding_ids(encodings@[k]) && rows@[k].mask@
                == encoding_mask(encodings@[k]),
{
    let mut rows: Vec<TokenRow> = Vec::new();
    let mut k: usize = 0;
    while k < encodings.len()
        invariant
            k <= encodings@.len(),
            rows@.len() == k,
            forall|j: int|
                0 <= j < k ==> (#[trigger] rows@[j]).ids@ == encoding_ids(encodings@[j]) && rows@[j].mask@
                    == encoding_mask(encodings@[j]),
        decreases encodings@.len() - k,
    {
        let encoding = &encodings[k];
        rows.push(TokenRow { ids: copied(encoding.get_ids()), mask: copied(encoding.get_attention_mask()) });
        k += 1;
    }
    rows
}

/// The rows of a batch are laid end to end, ids and masks alike, each of them
/// whole and in order.
pub proof fn law_matrix_is_the_rows(rows: &[TokenRow], matrix: TokenMatrix)
    requires
        call_ensures(flatten, (rows,), matrix),
    ensures
        matrix.batch == rows@.len(),
        rows@.len() == 0 ==> matrix.len == 0,
        rows@.len() > 0 ==> matrix.len == rows@[0].ids@.len(),
        matrix.ids@ == rows@.map_values(|row: TokenRow| row.ids@).flatten(),
        matrix.mask@ == rows@.map_values(|row: TokenRow| row.mask@).flatten(),
{
    let ids = rows@.map_values(|row: TokenRow| row.ids@);
    let masks = rows@.map_values(|row: TokenRow| row.mask@);
    assert(row_ids(rows@) =~= ids);
    assert(row_masks(rows@) =~= masks);
    crate::rows::law_joined_is_flat(ids);
    crate::rows::law_joined_is_flat(masks);
}

/// Where all rows are as long as the matrix, token `j` of sentence `k` is at
/// `k * len + j`, and so is its mask.
pub proof fn law_matrix_is_read_by_row(rows: &[TokenRow], matrix: TokenMatrix, k: int, j: int)
    requires
        call_ensures(flatten, (rows,), matrix),
        forall|i: int|
            0 <= i < rows@.len() ==> (#[trigger] rows@[i]).ids@.len() == matrix.len && rows@[i].mask@.len()
                == matrix.len,
        0 <= k < rows@.len(),
        0 <= j < matrix.len,
    ensures
        matrix.ids@.len() == rows@.len() * matrix.len,
        matrix.mask@.len() == rows@.len() * matrix.len,
        matrix.ids@[k * matrix.len + j] == rows@[k].ids@[j],
        matrix.mask@[k * matrix.len + j] == rows@[k].mask@[j],
{
    let len = matrix.len as nat;
    assert forall|i: int| 0 <= i < rows@.len() implies (#[trigger] row_ids(rows@)[i]).len() == len by {
        assert(rows@[i].ids@.len() == matrix.len);
    }
    assert forall|i: int| 0 <= i < rows@.len() implies (#[trigger] row_masks(rows@)[i]).len() == len by {
        assert(rows@[i].mask@.len() == matrix.len);
    }
    crate::rows::law_uniform_rows_fill_a_matrix(row_ids(rows@), len);
    crate::rows::law_uniform_rows_fill_a_matrix(row_masks(rows@), len);
    crate::rows::law_uniform_rows_are_a_matrix(row_ids(rows@), len, k, j);
    crate::rows::law_uniform_rows_are_a_matrix(row_masks(rows@), len, k, j);
}

/// A model takes in every id and every mask entry as the number that it is,
/// and the type 0 for each of the `batch * len` tokens.
pub proof fn law_model_inputs_keep_the_numbers(matrix: TokenMatrix, inputs: ModelInputs, i: int)
    requires
        call_ensures(TokenMatrix::model_inputs, (&matrix,), inputs),
    ensures
        inputs.ids@.len() == matrix.ids@.len(),
        inputs.mask@.len() == matrix.mask@.len(),
        inputs.type_ids@.len() == matrix.batch * matrix.len,
        0 <= i < matrix.ids@.len() ==> inputs.ids@[i] == matrix.ids@[i],
        0 <= i < matrix.mask@.len() ==> inputs.mask@[i] == matrix.mask@[i],
        0 <= i < matrix.batch * matrix.len ==> inputs.type_ids@[i] == 0,
{
    assert(0 <= matrix.batch * matrix.len) by (nonlinear_arith)
        requires
            0 <= matrix.batch,
            0 <= matrix.len,
    ;
}

/// A prepared tokenizer is the given one, filling up to the longest sentence,
/// at the right, with `[PAD]`, id 0 and type 0, and cutting off none.
pub proof fn law_prepared_tokenizer_only_pads(tokenizer: Tokenizer, result: Result<BatchTokenizer, String>)
    requires
        call_ensures(BatchTokenizer::new, (tokenizer,), result),
    ensures
        result matches Ok(ready) && {
            &&& !truncates(ready.tokenizer())
            &&& padding_of(ready.tokenizer()) matches Some(padding) && {
                &&& padding.to == PadTo::Longest
                &&& padding.side == PadSide::Right
                &&& padding.multiple is None
                &&& padding.id == 0
                &&& padding.type_id == 0
                &&& padding.token == "[PAD]"@
                &&& ready.tokenizer() == untruncated(padded(tokenizer, padding))
            }
        },
{
}

/// An encoded batch holds one row of ids and one of mask entries for each of
/// its sentences, in order, all of one length and laid end to end, as the
/// tokenizer gave them for `given`, the texts of `inputs`, with its special
/// tokens.
pub proof fn law_encoded_batch_is_what_the_tokenizer_gave(
    tokenizer: &BatchTokenizer,
    inputs: &[&str],
    given: Seq<Seq<char>>,
    result: Result<TokenMatrix, String>,
)
    requires
        call_ensures(BatchTokenizer::encode, (tokenizer, inputs), result),
        given.len() == inputs@.len(),
        forall|k: int| 0 <= k < inputs@.len() ==> #[trigger] given[k] == inputs@[k]@,
    ensures
        inputs@.len() == 0 ==> result is Ok,
        match result {
            Ok(matrix) => exists|ids: Seq<Seq<u32>>, masks: Seq<Seq<u32>>|
                {
                    &&& #[trigger] can_encode_as(
                        tokenizer.tokenizer(),
                        given,
                        true,
                        ids,
                        masks,
                    )
                    &&& matrix.batch == inputs@.len()
                    &&& ids.len() == inputs@.len()
                    &&& masks.len() == inputs@.len()
                    &&& forall|k: int| 0 <= k < ids.len() ==> (#[trigger] ids[k]).len() == matrix.len
                    &&& forall|k: int| 0 <= k < masks.len() ==> (#[trigger] masks[k]).len() == matrix.len
                    &&& matrix.ids@ == ids.flatten()
                    &&& matrix.mask@ == masks.flatten()
                },
            Err(text) => exists|error: Seq<char>|
                {
                    &&& #[trigger] can_fail_with(
                        tokenizer.tokenizer(),
                        given,
                        true,
                        error,
                    )
                    &&& text@ == "encode: "@ + error
                },
        },
{
    assert(texts(inputs@) =~= given);
    if let Ok(matrix) = result {
        let rows = choose|rows: Seq<TokenRow>| #[trigger]
            made_of(matrix, rows) && uniform(row_ids(rows), matrix.len as nat) && uniform(
                row_masks(rows),
                matrix.len as nat,
            ) && can_encode_as(tokenizer.tokenizer(), texts(inputs@), true, row_ids(rows), row_masks(rows));
        crate::rows::law_joined_is_flat(row_ids(rows));
        crate::rows::law_joined_is_flat(row_masks(rows));
        assert(can_encode_as(
            tokenizer.tokenizer(),
            given,
            true,
            row_ids(rows),
            row_masks(rows),
        ));
    }
}

} // verus!
