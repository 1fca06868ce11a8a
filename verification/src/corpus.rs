//! The test sentences, in named buckets, and the batches drawn from a bucket.
use vstd::hash_map::StringHashMap;
use vstd::prelude::*;
use vstd::string::StringExecFns;

verus! {

/// The corpus: sentences by the name of their bucket.
pub struct Corpus {
    pub buckets: StringHashMap<Vec<String>>,
}

/// Why no sentences can be drawn from a bucket.
#[derive(Debug)]
pub enum CorpusError {
    /// The corpus has no bucket of this name.
    NotInCorpus { bucket: String },
    /// The bucket of this name holds no sentence.
    EmptyBucket { bucket: String },
}

impl View for Corpus {
    type V = Map<Seq<char>, Vec<String>>;

    open spec fn view(&self) -> Map<Seq<char>, Vec<String>> {
        self.buckets@
    }
}

impl Corpus {
    /// A corpus without buckets.
    pub fn new() -> (corpus: Self)
        ensures
            corpus@ == Map::<Seq<char>, Vec<String>>::empty(),
    {
        Corpus { buckets: StringHashMap::new() }
    }

    /// Sets the bucket `name` to `sentences`, in place of what it held before.
    pub fn set_bucket(&mut self, name: String, sentences: Vec<String>)
        ensures
            final(self)@ == old(self)@.insert(name@, sentences),
    {
        self.buckets.insert(name, sentences);
    }

    /// The sentences of one bucket, or the error that names the missing bucket.
    pub fn sentences(&self, bucket: &str) -> (result: Result<&[String], CorpusError>)
        ensures
            match result {
                Ok(sentences) => self@.contains_key(bucket@) && sentences@ == self@[bucket@]@,
                Err(error) => !self@.contains_key(bucket@)
                    && (error matches CorpusError::NotInCorpus { bucket: name } && name@ == bucket@),
            },
    {
        match self.buckets.get(bucket) {
            Some(sentences) => Ok(sentences.as_slice()),
            None => Err(CorpusError::NotInCorpus { bucket: bucket.to_owned() }),
        }
    }

    /// The sentences that a run draws from: those of one bucket, which must
    /// not be empty.
    pub fn run_sentences(&self, bucket: &str) -> (result: Result<&[String], CorpusError>)
        ensures
            match result {
                Ok(sentences) => self@.contains_key(bucket@) && sentences@ == self@[bucket@]@
                    && sentences@.len() > 0,
                Err(CorpusError::NotInCorpus { bucket: name }) => !self@.contains_key(bucket@)
                    && name@ == bucket@,
                Err(CorpusError::EmptyBucket { bucket: name }) => self@.contains_key(bucket@)
                    && self@[bucket@]@.len() == 0 && name@ == bucket@,
            },
    {
        match self.sentences(bucket) {
            Ok(sentences) => {
                if sentences.len() == 0 {
                    Err(CorpusError::EmptyBucket { bucket: bucket.to_owned() })
                } else {
                    Ok(sentences)
                }
            },
            Err(error) => Err(error),
        }
    }
}

impl CorpusError {
    /// The error's text.
    pub open spec fn spec_message(self) -> Seq<char> {
        match self {
            CorpusError::NotInCorpus { bucket } => "bucket not in corpus: "@ + bucket@,
            CorpusError::EmptyBucket { bucket } => "corpus bucket "@ + bucket@ + " is empty"@,
        }
    }

    /// The error's text.
    pub fn message(&self) -> (text: String)
        ensures
            text@ == self.spec_message(),
    {
        match self {
            CorpusError::NotInCorpus { bucket } => {
                let mut text = "bucket not in corpus: ".to_owned();
                text.append(bucket.as_str());
                text
            },
            CorpusError::EmptyBucket { bucket } => {
                let mut text = "corpus bucket ".to_owned();
                text.append(bucket.as_str());
                text.append(" is empty");
                text
            },
        }
    }
}

/// The texts of `count` sentences, drawn round-robin from position `start`.
pub open spec fn round_robin(sentences: Seq<String>, start: int, count: nat) -> Seq<Seq<char>> {
    Seq::new(count, |k: int| sentences[(start + k) % (sentences.len() as int)]@)
}

/// The texts that a list of string slices holds.
pub open spec fn texts(inputs: Seq<&str>) -> Seq<Seq<char>> {
    Seq::new(inputs.len(), |k: int| inputs[k]@)
}

/// Draws `count` sentences round-robin: the one at position `start` first, and
/// after the last one the first one again.
pub fn draw<'a>(sentences: &'a [String], start: usize, count: usize) -> (inputs: Vec<&'a str>)
    requires
        sentences@.len() > 0,
    ensures
        texts(inputs@) == round_robin(sentences@, start as int, count as nat),
{
    let mut inputs: Vec<&'a str> = Vec::new();
    let mut at: usize = start % sentences.len();
    let mut k: usize = 0;
    while k < count
        invariant
            k <= count,
            k == inputs@.len(),
            at < sentences@.len(),
            at == (start + k) % (sentences@.len() as int),
            forall|j: int| 0 <= j < k ==> (#[trigger] inputs@[j])@
                == sentences@[(start + j) % (sentences@.len() as int)]@,
        decreases count - k,
    {
        inputs.push(sentences[at].as_str());
        proof {
            lemma_next_position(start + k, sentences@.len() as int);
        }
        at = if at + 1 == sentences.len() { 0 } else { at + 1 };
        k += 1;
    }
    assert(texts(inputs@) =~= round_robin(sentences@, start as int, count as nat));
    inputs
}

/// A bucket reads back as it was set last, and setting it leaves the other
/// buckets as they were.
pub proof fn law_set_bucket_reads_back(
    corpus: Map<Seq<char>, Vec<String>>,
    name: Seq<char>,
    sentences: Vec<String>,
    other: Seq<char>,
)
    ensures
        corpus.insert(name, sentences).contains_key(name),
        corpus.insert(name, sentences)[name] == sentences,
        other != name ==> corpus.insert(name, sentences).contains_key(other) == corpus.contains_key(other),
        other != name && corpus.contains_key(other) ==> corpus.insert(name, sentences)[other] == corpus[other],
{
}

/// Two draws, the second from where the first ended, give what one draw of
/// both lengths gives.
pub proof fn law_draws_continue(sentences: Seq<String>, start: int, first: nat, second: nat)
    requires
        sentences.len() > 0,
        0 <= start,
    ensures
        round_robin(sentences, start, first + second) == round_robin(sentences, start, first) + round_robin(
            sentences,
            (start + first) % (sentences.len() as int),
            second,
        ),
{
    let n = sentences.len() as int;
    let whole = round_robin(sentences, start, first + second);
    let parts = round_robin(sentences, start, first) + round_robin(sentences, (start + first) % n, second);
    assert forall|k: int| 0 <= k < whole.len() implies whole[k] == parts[k] by {
        if k >= first {
            vstd::arithmetic::div_mod::lemma_add_mod_noop(start + first, k - first, n);
            vstd::arithmetic::div_mod::lemma_add_mod_noop((start + first) % n, k - first, n);
            vstd::arithmetic::div_mod::lemma_mod_twice(start + first, n);
        }
    }
    assert(whole =~= parts);
}

/// A draw of as many sentences as there are, from the first, gives every
/// sentence once and in order.
pub proof fn law_full_draw_is_every_sentence(sentences: Seq<String>)
    ensures
        round_robin(sentences, 0, sentences.len()) == sentences.map_values(|sentence: String| sentence@),
{
    assert forall|k: int| 0 <= k < sentences.len() implies round_robin(sentences, 0, sentences.len())[k]
        == sentences[k]@ by {
        vstd::arithmetic::div_mod::lemma_small_mod(k as nat, sentences.len());
    }
    assert(round_robin(sentences, 0, sentences.len()) =~= sentences.map_values(|sentence: String| sentence@));
}

/// Stepping a position modulo `n` by one.
pub(crate) proof fn lemma_next_position(i: int, n: int)
    requires
        0 <= i,
        0 < n,
    ensures
        (i + 1) % n == if i % n + 1 == n { 0 } else { i % n + 1 },
{
    vstd::arithmetic::div_mod::lemma_fundamental_div_mod(i, n);
    if i % n + 1 == n {
        assert(i + 1 == (i / n + 1) * n + 0) by (nonlinear_arith)
            requires
                i == n * (i / n) + i % n,
                i % n + 1 == n,
        ;
        vstd::arithmetic::div_mod::lemma_fundamental_div_mod_converse(i + 1, n, i / n + 1, 0);
    } else {
        assert(i + 1 == (i / n) * n + (i % n + 1)) by (nonlinear_arith)
            requires
                i == n * (i / n) + i % n,
        ;
        vstd::arithmetic::div_mod::lemma_fundamental_div_mod_converse(i + 1, n, i / n, i % n + 1);
    }
}

/// A draw holds `count` sentences; number `k` of them is the one at
/// `start + k`, counted round and round the list.
pub proof fn law_draw_goes_round<'a>(
    sentences: &'a [String],
    start: usize,
    count: usize,
    inputs: Vec<&'a str>,
    k: int,
)
    requires
        call_ensures(draw, (sentences, start, count), inputs),
        sentences@.len() > 0,
        0 <= k < count,
    ensures
        inputs@.len() == count,
        inputs@[k]@ == sentences@[(start + k) % sentences@.len() as int]@,
        k == 0 && start < sentences@.len() ==> inputs@[0]@ == sentences@[start as int]@,
{
    assert(texts(inputs@).len() == count);
    assert(texts(inputs@)[k] == inputs@[k]@);
    if start < sentences@.len() {
        vstd::arithmetic::div_mod::lemma_small_mod(start as nat, sentences@.len());
    }
}

/// A draw of nothing is empty.
pub proof fn law_empty_draw<'a>(sentences: &'a [String], start: usize, inputs: Vec<&'a str>)
    requires
        call_ensures(draw, (sentences, start, 0), inputs),
    ensures
        inputs@.len() == 0,
{
    assert(texts(inputs@).len() == 0);
}

/// A bucket that was set is read back as it was set; the others are read as
/// before, and a bucket that was never set is reported as missing by its name.
pub proof fn law_buckets_read_back(
    corpus: &mut Corpus,
    name: String,
    sentences: Vec<String>,
    bucket: &str,
    before: Result<&[String], CorpusError>,
    after: Result<&[String], CorpusError>,
)
    requires
        call_ensures(Corpus::set_bucket, (corpus, name, sentences), ()),
        call_ensures(Corpus::sentences, (&*old(corpus), bucket), before),
        call_ensures(Corpus::sentences, (&*final(corpus), bucket), after),
    ensures
        bucket@ == name@ ==> (after matches Ok(found) && found@ == sentences@),
        bucket@ != name@ ==> match before {
            Ok(held) => (after matches Ok(found) && found@ == held@),
            Err(_) => (after matches Err(CorpusError::NotInCorpus { bucket: missing }) && missing@ == bucket@),
        },
{
}

/// A corpus without buckets has none to read, whatever its name.
pub proof fn law_new_corpus_is_empty(corpus: Corpus, bucket: &str, result: Result<&[String], CorpusError>)
    requires
        call_ensures(Corpus::new, (), corpus),
        call_ensures(Corpus::sentences, (&corpus, bucket), result),
    ensures
        result matches Err(CorpusError::NotInCorpus { bucket: missing }) && missing@ == bucket@,
{
}

/// A run draws from the bucket as it is read, and refuses it if it is missing
/// or empty, by its name.
pub proof fn law_runs_need_a_sentence(
    corpus: &Corpus,
    bucket: &str,
    read: Result<&[String], CorpusError>,
    result: Result<&[String], CorpusError>,
)
    requires
        call_ensures(Corpus::sentences, (corpus, bucket), read),
        call_ensures(Corpus::run_sentences, (corpus, bucket), result),
    ensures
        match read {
            Ok(held) => if held@.len() == 0 {
                result matches Err(CorpusError::EmptyBucket { bucket: name }) && name@ == bucket@
            } else {
                result matches Ok(found) && found@ == held@
            },
            Err(_) => (result matches Err(CorpusError::NotInCorpus { bucket: name }) && name@ == bucket@),
        },
{
}

/// The text of an error names the bucket.
pub proof fn law_errors_name_the_bucket(error: CorpusError, text: String)
    requires
        call_ensures(CorpusError::message, (&error,), text),
    ensures
        match error {
            CorpusError::NotInCorpus { bucket } => text@ == "bucket not in corpus: "@ + bucket@,
            CorpusError::EmptyBucket { bucket } => text@ == "corpus bucket "@ + bucket@ + " is empty"@,
        },
{
}

} // verus!
