//! Embedding a batch of chunks when the embedder refuses some of them: a batch
//! that fails is halved until the chunks that cannot be embedded stand alone,
//! and those are skipped with a warning.

use crate::engine::batch::{flat, law_pieces_lose_nothing, pieces};
use crate::text::{decimal, push_decimal, views};
use crate::types::{CodeChunk, EmbeddingVector};
use vstd::prelude::*;
use vstd::string::StringExecFns;

verus! {

/// What an embedder answers to the texts of a batch.
pub type Answer = Result<Seq<EmbeddingVector>, Seq<char>>;

/// Why an answer to a batch of `size` texts cannot be used; nothing when it can.
pub open spec fn complaint(answer: Answer, size: nat) -> Option<Seq<char>> {
    match answer {
        Ok(embeddings) => if embeddings.len() == size {
            None
        } else {
            Some(
                "embedding API returned "@ + decimal(embeddings.len()) + " results for "@ + decimal(
                    size,
                ) + " inputs"@,
            )
        },
        Err(text) => Some(text),
    }
}

/// The warning for a chunk that is skipped.
pub open spec fn skip_warning(chunk: CodeChunk, reason: Seq<char>) -> Seq<char> {
    "Skipped embedding for "@ + chunk.relative_path@ + ":"@ + decimal(chunk.start_line as nat)
        + "-"@ + decimal(chunk.end_line as nat) + ": "@ + reason
}

/// What becomes of a chunk: an embedding, or the warning under which it is
/// skipped.
pub type Verdict = Result<EmbeddingVector, Seq<char>>;

/// What becomes of every chunk of a batch, given what the embedder answers to any
/// batch: all get their embeddings if the answer can be used; otherwise a chunk
/// alone is skipped, and each half of a larger batch is tried by itself.
pub open spec fn verdicts(chunks: Seq<CodeChunk>, embedder: spec_fn(Seq<CodeChunk>) -> Answer) -> Seq<
    Verdict,
>
    decreases chunks.len(),
{
    if chunks.len() == 0 {
        Seq::empty()
    } else {
        match complaint(embedder(chunks), chunks.len()) {
            None => Seq::new(chunks.len(), |i: int| Ok(embedder(chunks)->Ok_0[i])),
            Some(reason) => if chunks.len() == 1 {
                seq![Err(skip_warning(chunks[0], reason))]
            } else {
                let half = chunks.len() as int / 2;
                verdicts(chunks.take(half), embedder) + verdicts(chunks.skip(half), embedder)
            },
        }
    }
}

/// The chunks that got embeddings, with them, in order.
pub open spec fn embedded_of(chunks: Seq<CodeChunk>, fates: Seq<Verdict>) -> Seq<
    (CodeChunk, EmbeddingVector),
>
    decreases fates.len(),
{
    if fates.len() == 0 {
        Seq::empty()
    } else {
        let before = embedded_of(chunks, fates.drop_last());
        match fates.last() {
            Ok(embedding) => before.push((chunks[fates.len() - 1], embedding)),
            Err(_) => before,
        }
    }
}

/// The warnings, in order.
pub open spec fn warnings_of(fates: Seq<Verdict>) -> Seq<Seq<char>>
    decreases fates.len(),
{
    if fates.len() == 0 {
        Seq::empty()
    } else {
        let before = warnings_of(fates.drop_last());
        match fates.last() {
            Ok(_) => before,
            Err(warning) => before.push(warning),
        }
    }
}

/// Chunks on their way to an embedder.
#[derive(Debug)]
pub struct LossyEmbedding {
    pending: Vec<Vec<CodeChunk>>,
    embedded: Vec<(CodeChunk, EmbeddingVector)>,
    warnings: Vec<String>,
}

/// A state of `LossyEmbedding`. The last pending batch is tried first.
#[verifier::ext_equal]
pub struct EmbeddingState {
    pub pending: Seq<Seq<CodeChunk>>,
    pub embedded: Seq<(CodeChunk, EmbeddingVector)>,
    pub warnings: Seq<Seq<char>>,
}

impl View for LossyEmbedding {
    type V = EmbeddingState;

    closed spec fn view(&self) -> EmbeddingState {
        EmbeddingState {
            pending: views(self.pending@),
            embedded: self.embedded@,
            warnings: views(self.warnings@),
        }
    }
}

/// `pending` without the empty batches at its end.
pub open spec fn without_empty(pending: Seq<Seq<CodeChunk>>) -> Seq<Seq<CodeChunk>>
    decreases pending.len(),
{
    if pending.len() > 0 && pending.last().len() == 0 {
        without_empty(pending.drop_last())
    } else {
        pending
    }
}

/// The chunks that are still to be embedded, in the order in which they will be.
pub open spec fn outstanding(pending: Seq<Seq<CodeChunk>>) -> Seq<CodeChunk>
    decreases pending.len(),
{
    if pending.len() == 0 {
        Seq::empty()
    } else {
        pending.last() + outstanding(pending.drop_last())
    }
}

/// What will become of the outstanding chunks.
pub open spec fn fates(
    pending: Seq<Seq<CodeChunk>>,
    embedder: spec_fn(Seq<CodeChunk>) -> Answer,
) -> Seq<Verdict>
    decreases pending.len(),
{
    if pending.len() == 0 {
        Seq::empty()
    } else {
        verdicts(pending.last(), embedder) + fates(pending.drop_last(), embedder)
    }
}

/// The state after `batch`, taken out of `state`, was answered with `answer`.
pub open spec fn answered(
    state: EmbeddingState,
    batch: Seq<CodeChunk>,
    answer: Answer,
) -> EmbeddingState {
    match complaint(answer, batch.len()) {
        None => EmbeddingState {
            embedded: state.embedded + Seq::new(
                batch.len(),
                |i: int| (batch[i], answer->Ok_0[i]),
            ),
            ..state
        },
        Some(reason) => if batch.len() == 1 {
            EmbeddingState {
                warnings: state.warnings.push(skip_warning(batch[0], reason)),
                ..state
            }
        } else {
            let half = batch.len() as int / 2;
            EmbeddingState {
                pending: state.pending.push(batch.skip(half)).push(batch.take(half)),
                ..state
            }
        },
    }
}

/// The result that a state leads to: what is there, and what will become of the
/// outstanding chunks.
pub open spec fn result_of(
    state: EmbeddingState,
    embedder: spec_fn(Seq<CodeChunk>) -> Answer,
) -> (Seq<(CodeChunk, EmbeddingVector)>, Seq<Seq<char>>) {
    let rest = fates(state.pending, embedder);
    (
        state.embedded + embedded_of(outstanding(state.pending), rest),
        state.warnings + warnings_of(rest),
    )
}

/// How many answers are needed at most for the pending batches.
pub open spec fn answers_needed(pending: Seq<Seq<CodeChunk>>) -> nat
    decreases pending.len(),
{
    if pending.len() == 0 {
        0
    } else {
        batch_answers(pending.last().len()) + answers_needed(pending.drop_last())
    }
}

pub open spec fn batch_answers(size: nat) -> nat {
    if size == 0 {
        0
    } else {
        (2 * size - 1) as nat
    }
}

/// The texts that stand for a batch at the embedder: the contents of its chunks.
pub fn texts_of(batch: &[CodeChunk]) -> (r: Vec<String>)
    ensures
        views(r@) == Seq::new(batch@.len(), |i: int| batch@[i].content@),
{
    let mut texts: Vec<String> = Vec::new();
    let mut i: usize = 0;
    while i < batch.len()
        invariant
            i <= batch@.len(),
            texts@.len() == i,
            forall|k: int| 0 <= k < i ==> (#[trigger] texts@[k])@ == batch@[k].content@,
        decreases batch@.len() - i,
    {
        texts.push(batch[i].content.clone());
        i += 1;
    }
    assert(views(texts@) =~= Seq::new(batch@.len(), |k: int| batch@[k].content@));
    texts
}

/// Puts a batch that failed back as its halves, or skips its only chunk with a
/// warning.
pub fn split_or_skip_embedding_batch(
    batch: Vec<CodeChunk>,
    err: &str,
    pending: &mut Vec<Vec<CodeChunk>>,
    warnings: &mut Vec<String>,
)
    ensures
        batch@.len() == 1 ==> final(pending)@ == old(pending)@ && views(final(warnings)@) == views(
            old(warnings)@,
        ).push(skip_warning(batch@[0], err@)),
        batch@.len() != 1 ==> final(warnings)@ == old(warnings)@ && views(final(pending)@) == views(
            old(pending)@,
        ).push(batch@.skip(batch@.len() as int / 2)).push(batch@.take(batch@.len() as int / 2)),
{
    if batch.len() == 1 {
        let chunk = &batch[0];
        let mut warning = "Skipped embedding for ".to_owned();
        warning.append(chunk.relative_path.as_str());
        warning.append(":");
        push_decimal(&mut warning, chunk.start_line as u64);
        warning.append("-");
        push_decimal(&mut warning, chunk.end_line as u64);
        warning.append(": ");
        warning.append(err);
        proof {
            crate::text::lemma_views_push(warnings@, warning);
        }
        warnings.push(warning);
        return;
    }
    let ghost whole = batch@;
    let half = batch.len() / 2;
    let mut left = batch;
    let right = left.split_off(half);
    assert(right@ =~= whole.skip(half as int));
    assert(left@ =~= whole.take(half as int));
    proof {
        crate::text::lemma_views_push(pending@, right);
        crate::text::lemma_views_push(pending@.push(right), left);
    }
    pending.push(right);
    pending.push(left);
}

impl LossyEmbedding {
    /// Starts with all chunks in one batch.
    pub fn new(chunks: Vec<CodeChunk>) -> (r: Self)
        ensures
            r@ == (EmbeddingState {
                pending: seq![chunks@],
                embedded: Seq::empty(),
                warnings: Seq::empty(),
            }),
    {
        let mut pending: Vec<Vec<CodeChunk>> = Vec::new();
        pending.push(chunks);
        let r = LossyEmbedding { pending, embedded: Vec::new(), warnings: Vec::new() };
        assert(r@ =~= (EmbeddingState {
            pending: seq![chunks@],
            embedded: Seq::empty(),
            warnings: Seq::empty(),
        }));
        r
    }

    /// Takes out the batch to try next; nothing when all chunks are settled.
    pub fn next_batch(&mut self) -> (r: Option<Vec<CodeChunk>>)
        ensures
            ({
                let pending = without_empty(old(self)@.pending);
                match r {
                    Some(batch) => pending.len() > 0 && batch@.len() > 0 && batch@ == pending.last()
                        && final(self)@ == (EmbeddingState {
                        pending: pending.drop_last(),
                        ..old(self)@
                    }),
                    None => pending.len() == 0 && final(self)@ == (EmbeddingState {
                        pending,
                        ..old(self)@
                    }),
                }
            }),
    {
        let ghost start = self@;
        loop
            invariant
                self@.embedded == start.embedded,
                self@.warnings == start.warnings,
                without_empty(self@.pending) == without_empty(start.pending),
                start == old(self)@,
            decreases self.pending@.len(),
        {
            let ghost before = self@.pending;
            match self.pending.pop() {
                None => {
                    assert(self@.pending =~= without_empty(start.pending));
                    return None;
                },
                Some(batch) => {
                    proof {
                        assert(before.last() == batch@);
                        assert(before.drop_last() =~= self@.pending);
                    }
                    if batch.len() > 0 {
                        return Some(batch);
                    }
                },
            }
        }
    }

    /// Takes in what the embedder answered to a batch.
    pub fn record(&mut self, batch: Vec<CodeChunk>, answer: Result<Vec<EmbeddingVector>, String>)
        ensures
            final(self)@ == answered(
                old(self)@,
                batch@,
                match answer {
                    Ok(embeddings) => Ok(embeddings@),
                    Err(text) => Err(text@),
                },
            ),
    {
        let size = batch.len();
        let ghost start = self@;
        let ghost whole = batch@;
        match answer {
            Ok(embeddings) => {
                if embeddings.len() == size {
                    let ghost given = embeddings@;
                    let ghost pairs = Seq::new(whole.len(), |i: int| (whole[i], given[i]));
                    let mut chunks = batch;
                    let mut vectors = embeddings;
                    // Both lists are emptied from the end, so the pairs come in reverse.
                    let mut reversed: Vec<(CodeChunk, EmbeddingVector)> = Vec::new();
                    while chunks.len() > 0
                        invariant
                            chunks@.len() == vectors@.len(),
                            chunks@.len() <= whole.len(),
                            whole.len() == given.len(),
                            pairs == Seq::new(whole.len(), |i: int| (whole[i], given[i])),
                            chunks@ =~= whole.take(chunks@.len() as int),
                            vectors@ =~= given.take(chunks@.len() as int),
                            reversed@.reverse() =~= pairs.skip(chunks@.len() as int),
                        decreases chunks@.len(),
                    {
                        let ghost n = chunks@.len();
                        let ghost so_far = reversed@;
                        if let (Some(chunk), Some(vector)) = (chunks.pop(), vectors.pop()) {
                            reversed.push((chunk, vector));
                            assert(reversed@.reverse() =~= seq![(chunk, vector)]
                                + so_far.reverse());
                            assert(pairs.skip(n - 1) =~= seq![pairs[n - 1]] + pairs.skip(n as int));
                        }
                    }
                    let ghost mut added: Seq<(CodeChunk, EmbeddingVector)> = Seq::empty();
                    assert(reversed@.reverse() =~= pairs);
                    assert(added + reversed@.reverse() =~= pairs);
                    assert(self.embedded@ =~= start.embedded + added);
                    while reversed.len() > 0
                        invariant
                            added + reversed@.reverse() == pairs,
                            self.embedded@ == start.embedded + added,
                            self@.pending == start.pending,
                            self@.warnings == start.warnings,
                        decreases reversed@.len(),
                    {
                        let ghost left = reversed@;
                        let ghost old_added = added;
                        if let Some(pair) = reversed.pop() {
                            self.embedded.push(pair);
                            proof {
                                added = added.push(pair);
                                assert(left.reverse() =~= seq![pair] + reversed@.reverse());
                                assert(added + reversed@.reverse() =~= old_added + left.reverse());
                            }
                            assert(self.embedded@ =~= start.embedded + added);
                        }
                    }
                    assert(added =~= pairs);
                    assert(self@ =~= answered(start, whole, Ok(given)));
                } else {
                    let mut err = "embedding API returned ".to_owned();
                    push_decimal(&mut err, embeddings.len() as u64);
                    err.append(" results for ");
                    push_decimal(&mut err, size as u64);
                    err.append(" inputs");
                    split_or_skip_embedding_batch(
                        batch,
                        err.as_str(),
                        &mut self.pending,
                        &mut self.warnings,
                    );
                    assert(self@ =~= answered(start, whole, Ok(embeddings@)));
                }
            },
            Err(text) => {
                split_or_skip_embedding_batch(
                    batch,
                    text.as_str(),
                    &mut self.pending,
                    &mut self.warnings,
                );
                assert(self@ =~= answered(start, whole, Err(text@)));
            },
        }
    }

    /// The chunks that got embeddings, and the warnings.
    pub fn finish(self) -> (r: (Vec<(CodeChunk, EmbeddingVector)>, Vec<String>))
        ensures
            r.0@ == self@.embedded,
            views(r.1@) == self@.warnings,
    {
        (self.embedded, self.warnings)
    }
}

proof fn lemma_verdicts_len(chunks: Seq<CodeChunk>, embedder: spec_fn(Seq<CodeChunk>) -> Answer)
    ensures
        verdicts(chunks, embedder).len() == chunks.len(),
    decreases chunks.len(),
{
    if chunks.len() > 1 && complaint(embedder(chunks), chunks.len()) is Some {
        let half = chunks.len() as int / 2;
        lemma_verdicts_len(chunks.take(half), embedder);
        lemma_verdicts_len(chunks.skip(half), embedder);
    }
}

proof fn lemma_fates_len(
    pending: Seq<Seq<CodeChunk>>,
    embedder: spec_fn(Seq<CodeChunk>) -> Answer,
)
    ensures
        fates(pending, embedder).len() == outstanding(pending).len(),
    decreases pending.len(),
{
    if pending.len() > 0 {
        lemma_verdicts_len(pending.last(), embedder);
        lemma_fates_len(pending.drop_last(), embedder);
    }
}

proof fn lemma_embedded_of_add(
    a: Seq<CodeChunk>,
    b: Seq<CodeChunk>,
    x: Seq<Verdict>,
    y: Seq<Verdict>,
)
    requires
        x.len() == a.len(),
        y.len() <= b.len(),
    ensures
        embedded_of(a + b, x + y) == embedded_of(a, x) + embedded_of(b, y),
        warnings_of(x + y) == warnings_of(x) + warnings_of(y),
    decreases y.len(),
{
    if y.len() == 0 {
        assert(x + y =~= x);
        lemma_embedded_of_prefix(a, b, x);
        assert(embedded_of(a, x) + embedded_of(b, y) =~= embedded_of(a, x));
        assert(warnings_of(x) + warnings_of(y) =~= warnings_of(x));
    } else {
        assert((x + y).drop_last() =~= x + y.drop_last());
        lemma_embedded_of_add(a, b, x, y.drop_last());
        assert((a + b)[x.len() + y.len() - 1] == b[y.len() - 1]);
        assert(embedded_of(a + b, x + y) =~= embedded_of(a, x) + embedded_of(b, y));
        assert(warnings_of(x + y) =~= warnings_of(x) + warnings_of(y));
    }
}

proof fn lemma_embedded_of_prefix(a: Seq<CodeChunk>, b: Seq<CodeChunk>, x: Seq<Verdict>)
    requires
        x.len() <= a.len(),
    ensures
        embedded_of(a + b, x) == embedded_of(a, x),
    decreases x.len(),
{
    if x.len() > 0 {
        lemma_embedded_of_prefix(a, b, x.drop_last());
        assert((a + b)[x.len() - 1] == a[x.len() - 1]);
    }
}

proof fn lemma_all_embedded(chunks: Seq<CodeChunk>, given: Seq<EmbeddingVector>, n: nat)
    requires
        n <= chunks.len(),
        n <= given.len(),
    ensures
        embedded_of(chunks, Seq::new(n, |i: int| Ok::<EmbeddingVector, Seq<char>>(given[i])))
            == Seq::new(n, |i: int| (chunks[i], given[i])),
        warnings_of(Seq::new(n, |i: int| Ok::<EmbeddingVector, Seq<char>>(given[i]))).len() == 0,
    decreases n,
{
    let all = Seq::new(n, |i: int| Ok::<EmbeddingVector, Seq<char>>(given[i]));
    if n > 0 {
        let m = (n - 1) as nat;
        lemma_all_embedded(chunks, given, m);
        assert(all.drop_last() =~= Seq::new(m, |i: int| Ok::<EmbeddingVector, Seq<char>>(given[i])));
    }
    assert(embedded_of(chunks, all) =~= Seq::new(n, |i: int| (chunks[i], given[i])));
}

/// Every chunk is either embedded or skipped with one warning: a result has as
/// many embeddings and warnings together as there were chunks.
pub proof fn law_no_chunk_is_lost(
    chunks: Seq<CodeChunk>,
    embedder: spec_fn(Seq<CodeChunk>) -> Answer,
)
    ensures
        embedded_of(chunks, verdicts(chunks, embedder)).len() + warnings_of(
            verdicts(chunks, embedder),
        ).len() == chunks.len(),
{
    lemma_verdicts_len(chunks, embedder);
    lemma_counts_add_up(chunks, verdicts(chunks, embedder));
}

proof fn lemma_counts_add_up(chunks: Seq<CodeChunk>, all: Seq<Verdict>)
    ensures
        embedded_of(chunks, all).len() + warnings_of(all).len() == all.len(),
    decreases all.len(),
{
    if all.len() > 0 {
        lemma_counts_add_up(chunks, all.drop_last());
    }
}

/// From the start, the state leads to the verdicts on all chunks.
pub proof fn law_start_leads_to_all_verdicts(
    chunks: Seq<CodeChunk>,
    embedder: spec_fn(Seq<CodeChunk>) -> Answer,
)
    ensures
        result_of(
            EmbeddingState {
                pending: seq![chunks],
                embedded: Seq::empty(),
                warnings: Seq::empty(),
            },
            embedder,
        ) == (
            embedded_of(chunks, verdicts(chunks, embedder)),
            warnings_of(verdicts(chunks, embedder)),
        ),
{
    let pending = seq![chunks];
    assert(pending.drop_last() =~= Seq::<Seq<CodeChunk>>::empty());
    reveal_with_fuel(outstanding, 2);
    reveal_with_fuel(fates, 2);
    assert(outstanding(pending) =~= chunks);
    assert(fates(pending, embedder) =~= verdicts(chunks, embedder));
    let all = verdicts(chunks, embedder);
    assert(Seq::empty() + embedded_of(chunks, all) =~= embedded_of(chunks, all));
    assert(Seq::empty() + warnings_of(all) =~= warnings_of(all));
}

/// Empty batches decide nothing.
pub proof fn law_empty_batches_do_not_matter(
    state: EmbeddingState,
    embedder: spec_fn(Seq<CodeChunk>) -> Answer,
)
    ensures
        result_of(
            EmbeddingState { pending: without_empty(state.pending), ..state },
            embedder,
        ) == result_of(state, embedder),
        answers_needed(without_empty(state.pending)) == answers_needed(state.pending),
    decreases state.pending.len(),
{
    let pending = state.pending;
    if pending.len() > 0 && pending.last().len() == 0 {
        let less = EmbeddingState { pending: pending.drop_last(), ..state };
        law_empty_batches_do_not_matter(less, embedder);
        assert(outstanding(pending) =~= outstanding(pending.drop_last()));
        assert(fates(pending, embedder) =~= fates(pending.drop_last(), embedder));
    }
}

/// Recording the embedder's answer to the batch that was taken out changes
/// nothing of the result that the state leads to, and brings the end nearer. So
/// the result is `verdicts` on all chunks, after finitely many answers.
pub proof fn law_recording_keeps_the_result(
    state: EmbeddingState,
    embedder: spec_fn(Seq<CodeChunk>) -> Answer,
)
    requires
        state.pending.len() > 0,
        state.pending.last().len() > 0,
    ensures
        ({
            let batch = state.pending.last();
            let rest = EmbeddingState { pending: state.pending.drop_last(), ..state };
            let next = answered(rest, batch, embedder(batch));
            &&& result_of(next, embedder) == result_of(state, embedder)
            &&& answers_needed(next.pending) < answers_needed(state.pending)
        }),
{
    let batch = state.pending.last();
    let less = state.pending.drop_last();
    let rest = EmbeddingState { pending: less, ..state };
    let answer = embedder(batch);
    let next = answered(rest, batch, answer);
    lemma_verdicts_len(batch, embedder);
    lemma_fates_len(less, embedder);
    lemma_embedded_of_add(
        batch,
        outstanding(less),
        verdicts(batch, embedder),
        fates(less, embedder),
    );
    let own = verdicts(batch, embedder);
    match complaint(answer, batch.len()) {
        None => {
            let given = answer->Ok_0;
            lemma_all_embedded(batch, given, batch.len());
            assert(own =~= Seq::new(
                batch.len(),
                |i: int| Ok::<EmbeddingVector, Seq<char>>(given[i]),
            ));
            assert(result_of(next, embedder).0 =~= result_of(state, embedder).0);
            assert(result_of(next, embedder).1 =~= result_of(state, embedder).1);
        },
        Some(reason) => {
            if batch.len() == 1 {
                assert(own =~= seq![Err(skip_warning(batch[0], reason))]);
                assert(own.drop_last() =~= Seq::<Verdict>::empty());
                reveal_with_fuel(embedded_of, 2);
                reveal_with_fuel(warnings_of, 2);
                assert(embedded_of(batch, own) =~= Seq::empty());
                assert(warnings_of(own) =~= seq![skip_warning(batch[0], reason)]);
                assert(result_of(next, embedder).0 =~= result_of(state, embedder).0);
                assert(result_of(next, embedder).1 =~= result_of(state, embedder).1);
            } else {
                let half = batch.len() as int / 2;
                let left = batch.take(half);
                let right = batch.skip(half);
                let once = less.push(right);
                assert(next.pending.drop_last() =~= once);
                reveal_with_fuel(outstanding, 3);
                reveal_with_fuel(fates, 3);
                reveal_with_fuel(answers_needed, 3);
                assert(once.drop_last() =~= less);
                assert(left + right =~= batch);
                assert(outstanding(next.pending) =~= left + (right + outstanding(less)));
                assert(outstanding(next.pending) =~= outstanding(state.pending));
                assert(fates(next.pending, embedder) =~= verdicts(left, embedder) + (verdicts(
                    right,
                    embedder,
                ) + fates(less, embedder)));
                assert(fates(next.pending, embedder) =~= fates(state.pending, embedder));
                assert(answers_needed(next.pending) == batch_answers(left.len()) + (batch_answers(
                    right.len(),
                ) + answers_needed(less)));
            }
        },
    }
}

proof fn lemma_without_empty(pending: Seq<Seq<CodeChunk>>)
    ensures
        without_empty(pending).len() > 0 ==> without_empty(pending).last().len() > 0,
    decreases pending.len(),
{
    if pending.len() > 0 && pending.last().len() == 0 {
        lemma_without_empty(pending.drop_last());
    }
}

/// The state when every batch was tried: as long as one is pending, it is taken
/// out and the embedder's answer to it is recorded.
pub open spec fn worked_off(
    state: EmbeddingState,
    embedder: spec_fn(Seq<CodeChunk>) -> Answer,
) -> EmbeddingState
    decreases answers_needed(state.pending),
    via worked_off_ends
{
    let pending = without_empty(state.pending);
    if pending.len() == 0 {
        EmbeddingState { pending, ..state }
    } else {
        let batch = pending.last();
        let rest = EmbeddingState { pending: pending.drop_last(), ..state };
        worked_off(answered(rest, batch, embedder(batch)), embedder)
    }
}

#[via_fn]
proof fn worked_off_ends(state: EmbeddingState, embedder: spec_fn(Seq<CodeChunk>) -> Answer) {
    let pending = without_empty(state.pending);
    lemma_without_empty(state.pending);
    law_empty_batches_do_not_matter(state, embedder);
    if pending.len() > 0 {
        law_recording_keeps_the_result(EmbeddingState { pending, ..state }, embedder);
    }
}

proof fn lemma_worked_off(state: EmbeddingState, embedder: spec_fn(Seq<CodeChunk>) -> Answer)
    ensures
        worked_off(state, embedder).pending.len() == 0,
        (worked_off(state, embedder).embedded, worked_off(state, embedder).warnings) == result_of(
            state,
            embedder,
        ),
    decreases answers_needed(state.pending),
{
    let pending = without_empty(state.pending);
    let bare = EmbeddingState { pending, ..state };
    lemma_without_empty(state.pending);
    law_empty_batches_do_not_matter(state, embedder);
    if pending.len() > 0 {
        let batch = pending.last();
        let rest = EmbeddingState { pending: pending.drop_last(), ..state };
        law_recording_keeps_the_result(bare, embedder);
        assert(rest =~= EmbeddingState { pending: bare.pending.drop_last(), ..bare });
        lemma_worked_off(answered(rest, batch, embedder(batch)), embedder);
    } else {
        assert(result_of(bare, embedder).0 =~= bare.embedded);
        assert(result_of(bare, embedder).1 =~= bare.warnings);
    }
}

/// With an embedder that answers one batch in one way, working off all chunks
/// settles every one of them, in order, by its verdict, with an embedding or with
/// a warning.
pub proof fn law_every_chunk_is_settled(
    chunks: Seq<CodeChunk>,
    embedder: spec_fn(Seq<CodeChunk>) -> Answer,
)
    ensures
        worked_off(
            EmbeddingState {
                pending: seq![chunks],
                embedded: Seq::empty(),
                warnings: Seq::empty(),
            },
            embedder,
        ) == (EmbeddingState {
            pending: Seq::empty(),
            embedded: embedded_of(chunks, verdicts(chunks, embedder)),
            warnings: warnings_of(verdicts(chunks, embedder)),
        }),
{
    let start = EmbeddingState {
        pending: seq![chunks],
        embedded: Seq::empty(),
        warnings: Seq::empty(),
    };
    law_start_leads_to_all_verdicts(chunks, embedder);
    lemma_worked_off(start, embedder);
    assert(worked_off(start, embedder).pending =~= Seq::empty());
}

/// The state at the start, with all chunks in one batch.
pub open spec fn all_pending(chunks: Seq<CodeChunk>) -> EmbeddingState {
    EmbeddingState { pending: seq![chunks], embedded: Seq::empty(), warnings: Seq::empty() }
}

/// The state after the given answers, each to the batch that was next then. An
/// answer that comes when no batch is left changes nothing.
pub open spec fn after_answers(chunks: Seq<CodeChunk>, answers: Seq<Answer>) -> EmbeddingState
    decreases answers.len(),
{
    if answers.len() == 0 {
        all_pending(chunks)
    } else {
        let state = after_answers(chunks, answers.drop_last());
        let pending = without_empty(state.pending);
        if pending.len() == 0 {
            EmbeddingState { pending, ..state }
        } else {
            answered(
                EmbeddingState { pending: pending.drop_last(), ..state },
                pending.last(),
                answers.last(),
            )
        }
    }
}

/// What an answer settles of the batch that it is given to: all of it, its only
/// chunk, or nothing yet.
pub open spec fn settled_by(batch: Seq<CodeChunk>, answer: Answer) -> Seq<Verdict> {
    match complaint(answer, batch.len()) {
        None => Seq::new(batch.len(), |i: int| Ok(answer->Ok_0[i])),
        Some(reason) => if batch.len() == 1 {
            seq![Err(skip_warning(batch[0], reason))]
        } else {
            Seq::empty()
        },
    }
}

/// What the given answers settle, chunk by chunk.
pub open spec fn settled_so_far(chunks: Seq<CodeChunk>, answers: Seq<Answer>) -> Seq<Verdict>
    decreases answers.len(),
{
    if answers.len() == 0 {
        Seq::empty()
    } else {
        let earlier = settled_so_far(chunks, answers.drop_last());
        let pending = without_empty(after_answers(chunks, answers.drop_last()).pending);
        if pending.len() == 0 {
            earlier
        } else {
            earlier + settled_by(pending.last(), answers.last())
        }
    }
}

proof fn lemma_outstanding_without_empty(pending: Seq<Seq<CodeChunk>>)
    ensures
        outstanding(without_empty(pending)) == outstanding(pending),
        answers_needed(without_empty(pending)) == answers_needed(pending),
    decreases pending.len(),
{
    if pending.len() > 0 && pending.last().len() == 0 {
        lemma_outstanding_without_empty(pending.drop_last());
        assert(outstanding(pending) =~= outstanding(pending.drop_last()));
    }
}

proof fn lemma_skipped_by_warning(batch: Seq<CodeChunk>, answer: Answer, i: int)
    requires
        0 <= i < settled_by(batch, answer).len(),
        settled_by(batch, answer)[i] is Err,
    ensures
        exists|reason: Seq<char>|
            settled_by(batch, answer)[i]->Err_0 == #[trigger] skip_warning(batch[i], reason),
{
    let reason = complaint(answer, batch.len())->0;
    assert(settled_by(batch, answer)[i]->Err_0 == skip_warning(batch[i], reason));
}

/// Whatever is answered, batch by batch: at any time the first chunks are settled
/// and the others outstanding, in order; a settled chunk has an embedding, or was
/// skipped with a warning that names it; and no chunk is lost or settled twice.
/// Enough answers settle all of them.
pub proof fn law_any_answers_settle_chunks_in_order(chunks: Seq<CodeChunk>, answers: Seq<Answer>)
    ensures
        ({
            let state = after_answers(chunks, answers);
            let settled = settled_so_far(chunks, answers);
            &&& settled.len() <= chunks.len()
            &&& outstanding(state.pending) == chunks.skip(settled.len() as int)
            &&& state.embedded == embedded_of(chunks, settled)
            &&& state.warnings == warnings_of(settled)
            &&& state.embedded.len() + state.warnings.len() == settled.len()
            &&& forall|i: int|
                #![trigger settled[i]]
                0 <= i < settled.len() && settled[i] is Err ==> exists|reason: Seq<char>|
                    settled[i]->Err_0 == #[trigger] skip_warning(chunks[i], reason)
            &&& answers.len() >= batch_answers(chunks.len()) ==> settled.len() == chunks.len()
        }),
{
    lemma_after_answers(chunks, answers);
    lemma_counts_add_up(chunks, settled_so_far(chunks, answers));
    let state = after_answers(chunks, answers);
    if answers.len() >= batch_answers(chunks.len()) {
        lemma_nothing_needed(state.pending);
        assert(chunks.skip(settled_so_far(chunks, answers).len() as int).len() == 0);
    }
}

proof fn lemma_nothing_needed(pending: Seq<Seq<CodeChunk>>)
    requires
        answers_needed(pending) == 0,
    ensures
        outstanding(pending).len() == 0,
    decreases pending.len(),
{
    if pending.len() > 0 {
        lemma_nothing_needed(pending.drop_last());
    }
}

proof fn lemma_after_answers(chunks: Seq<CodeChunk>, answers: Seq<Answer>)
    ensures
        ({
            let state = after_answers(chunks, answers);
            let settled = settled_so_far(chunks, answers);
            &&& settled.len() <= chunks.len()
            &&& outstanding(state.pending) == chunks.skip(settled.len() as int)
            &&& state.embedded == embedded_of(chunks, settled)
            &&& state.warnings == warnings_of(settled)
            &&& forall|i: int|
                #![trigger settled[i]]
                0 <= i < settled.len() && settled[i] is Err ==> exists|reason: Seq<char>|
                    settled[i]->Err_0 == #[trigger] skip_warning(chunks[i], reason)
            &&& answers_needed(state.pending) + answers.len() <= batch_answers(chunks.len())
                || answers_needed(state.pending) == 0
        }),
    decreases answers.len(),
{
    let state = after_answers(chunks, answers);
    let settled = settled_so_far(chunks, answers);
    if answers.len() == 0 {
        reveal_with_fuel(outstanding, 2);
        reveal_with_fuel(answers_needed, 2);
        assert(state.pending.drop_last() =~= Seq::<Seq<CodeChunk>>::empty());
        assert(outstanding(state.pending) =~= chunks.skip(0));
    } else {
        let fewer = answers.drop_last();
        let answer = answers.last();
        let before = after_answers(chunks, fewer);
        let earlier = settled_so_far(chunks, fewer);
        lemma_after_answers(chunks, fewer);
        lemma_outstanding_without_empty(before.pending);
        lemma_without_empty(before.pending);
        let pending = without_empty(before.pending);
        if pending.len() == 0 {
            assert(answers_needed(pending) == 0);
        } else {
            let batch = pending.last();
            let less = pending.drop_last();
            let more = settled_by(batch, answer);
            let n = earlier.len() as int;
            let rest = chunks.skip(n);
            assert(rest =~= batch + outstanding(less));
            assert(chunks =~= chunks.take(n) + rest);
            assert(rest.take(batch.len() as int) =~= batch);
            assert forall|i: int|
                #![trigger settled[i]]
                0 <= i < settled.len() && settled[i] is Err implies exists|reason: Seq<char>|
                settled[i]->Err_0 == #[trigger] skip_warning(chunks[i], reason) by {
                if i < n {
                    assert(settled[i] == earlier[i]);
                } else {
                    assert(settled[i] == more[i - n]);
                    lemma_skipped_by_warning(batch, answer, i - n);
                    assert(chunks[i] == batch[i - n]);
                }
            }
            lemma_embedded_of_prefix(chunks.take(n), rest, earlier);
            lemma_embedded_of_add(chunks.take(n), rest, earlier, more);
            lemma_embedded_of_prefix(batch, outstanding(less), more);
            lemma_answered(before, less, batch, answer);
            assert(chunks.skip(settled.len() as int) =~= rest.skip(more.len() as int));
        }
    }
}

/// What recording an answer does to what is outstanding, embedded and skipped.
proof fn lemma_answered(
    state: EmbeddingState,
    less: Seq<Seq<CodeChunk>>,
    batch: Seq<CodeChunk>,
    answer: Answer,
)
    requires
        batch.len() > 0,
    ensures
        ({
            let next = answered(EmbeddingState { pending: less, ..state }, batch, answer);
            let more = settled_by(batch, answer);
            &&& more.len() <= batch.len()
            &&& outstanding(next.pending) == (batch + outstanding(less)).skip(more.len() as int)
            &&& next.embedded == state.embedded + embedded_of(batch, more)
            &&& next.warnings == state.warnings + warnings_of(more)
            &&& answers_needed(next.pending) < batch_answers(batch.len()) + answers_needed(less)
        }),
{
    let next = answered(EmbeddingState { pending: less, ..state }, batch, answer);
    let more = settled_by(batch, answer);
    match complaint(answer, batch.len()) {
        None => {
            let given = answer->Ok_0;
            lemma_all_embedded(batch, given, batch.len());
            assert(more =~= Seq::new(
                batch.len(),
                |i: int| Ok::<EmbeddingVector, Seq<char>>(given[i]),
            ));
            assert((batch + outstanding(less)).skip(batch.len() as int) =~= outstanding(less));
            assert(next.warnings =~= state.warnings + warnings_of(more));
        },
        Some(reason) => {
            if batch.len() == 1 {
                assert(more.drop_last() =~= Seq::<Verdict>::empty());
                reveal_with_fuel(embedded_of, 2);
                reveal_with_fuel(warnings_of, 2);
                assert((batch + outstanding(less)).skip(1) =~= outstanding(less));
                assert(next.embedded =~= state.embedded + embedded_of(batch, more));
                assert(next.warnings =~= state.warnings + warnings_of(more));
            } else {
                let half = batch.len() as int / 2;
                let left = batch.take(half);
                let right = batch.skip(half);
                let once = less.push(right);
                assert(next.pending.drop_last() =~= once);
                assert(once.drop_last() =~= less);
                reveal_with_fuel(outstanding, 3);
                reveal_with_fuel(answers_needed, 3);
                assert(outstanding(next.pending) =~= left + (right + outstanding(less)));
                assert(outstanding(next.pending) =~= (batch + outstanding(less)).skip(0));
                assert(next.embedded =~= state.embedded + embedded_of(batch, more));
                assert(next.warnings =~= state.warnings + warnings_of(more));
                assert(answers_needed(next.pending) == batch_answers(left.len()) + (batch_answers(
                    right.len(),
                ) + answers_needed(less)));
            }
        },
    }
}

/// How many embeddings the batches come to, each worked off with the answers that
/// it was given.
pub open spec fn embeddings_of(batches: Seq<Seq<CodeChunk>>, answers: Seq<Seq<Answer>>) -> nat
    decreases batches.len(),
{
    if batches.len() == 0 {
        0
    } else {
        let last = batches.len() - 1;
        embeddings_of(batches.drop_last(), answers) + after_answers(
            batches[last],
            answers[last],
        ).embedded.len()
    }
}

/// Cut into pieces, chunks come to no more embeddings than there are chunks,
/// whatever is answered.
pub proof fn law_embeddings_do_not_outnumber_chunks(
    chunks: Seq<CodeChunk>,
    size: int,
    answers: Seq<Seq<Answer>>,
)
    requires
        size > 0,
    ensures
        embeddings_of(pieces(chunks, size), answers) <= chunks.len(),
{
    law_pieces_lose_nothing(chunks, size);
    lemma_embeddings_of(pieces(chunks, size), answers);
}

proof fn lemma_embeddings_of(batches: Seq<Seq<CodeChunk>>, answers: Seq<Seq<Answer>>)
    ensures
        embeddings_of(batches, answers) <= flat(batches).len(),
    decreases batches.len(),
{
    if batches.len() > 0 {
        let last = batches.len() - 1;
        lemma_embeddings_of(batches.drop_last(), answers);
        law_any_answers_settle_chunks_in_order(batches[last], answers[last]);
    }
}

/// An answer with one embedding for each text of a batch is used whole: every chunk of
/// the batch gets the embedding in its place, behind what is embedded already, and
/// nothing else changes.
pub proof fn law_full_answer_embeds_the_batch(
    state: EmbeddingState,
    batch: Seq<CodeChunk>,
    given: Seq<EmbeddingVector>,
)
    requires
        given.len() == batch.len(),
    ensures
        ({
            let then = answered(state, batch, Ok(given));
            &&& then.pending == state.pending
            &&& then.warnings == state.warnings
            &&& then.embedded.len() == state.embedded.len() + batch.len()
            &&& state.embedded.is_prefix_of(then.embedded)
            &&& forall|i: int|
                0 <= i < batch.len() ==> then.embedded[state.embedded.len() + i] == (
                    #[trigger] batch[i],
                    given[i],
                )
        }),
{
}

/// An error, or an answer with too few or too many embeddings, embeds nothing. A chunk
/// alone is then skipped with one warning, which names it and tells why; a larger batch
/// is put back as its two halves, the first to be tried first, with no warning yet.
pub proof fn law_unusable_answer_embeds_nothing(
    state: EmbeddingState,
    batch: Seq<CodeChunk>,
    answer: Answer,
)
    requires
        batch.len() > 0,
        answer is Ok ==> answer->Ok_0.len() != batch.len(),
    ensures
        ({
            let then = answered(state, batch, answer);
            let reason = match answer {
                Ok(given) => "embedding API returned "@ + decimal(given.len()) + " results for "@
                    + decimal(batch.len()) + " inputs"@,
                Err(text) => text,
            };
            let chunk = batch[0];
            &&& then.embedded == state.embedded
            &&& batch.len() == 1 ==> then.pending == state.pending && then.warnings
                == state.warnings.push(
                "Skipped embedding for "@ + chunk.relative_path@ + ":"@ + decimal(
                    chunk.start_line as nat,
                ) + "-"@ + decimal(chunk.end_line as nat) + ": "@ + reason,
            )
            &&& batch.len() > 1 ==> {
                &&& then.warnings == state.warnings
                &&& then.pending.len() == state.pending.len() + 2
                &&& state.pending.is_prefix_of(then.pending)
                &&& then.pending.last() + then.pending[state.pending.len() as int] == batch
                &&& 0 < then.pending.last().len() <= then.pending[state.pending.len() as int].len()
                    <= then.pending.last().len() + 1
            }
        }),
{
    let half = batch.len() as int / 2;
    assert(batch.take(half) + batch.skip(half) =~= batch);
}

/// A chunk that the embedder takes alone is never skipped, in whatever batch it comes.
pub proof fn law_only_refused_chunks_are_skipped(
    chunks: Seq<CodeChunk>,
    embedder: spec_fn(Seq<CodeChunk>) -> Answer,
    i: int,
)
    requires
        0 <= i < chunks.len(),
        embedder(seq![chunks[i]]) is Ok,
        embedder(seq![chunks[i]])->Ok_0.len() == 1,
    ensures
        verdicts(chunks, embedder).len() == chunks.len(),
        verdicts(chunks, embedder)[i] is Ok,
    decreases chunks.len(),
{
    lemma_verdicts_len(chunks, embedder);
    if complaint(embedder(chunks), chunks.len()) is Some {
        if chunks.len() == 1 {
            assert(chunks =~= seq![chunks[i]]);
        } else {
            let half = chunks.len() as int / 2;
            lemma_verdicts_len(chunks.take(half), embedder);
            lemma_verdicts_len(chunks.skip(half), embedder);
            if i < half {
                assert(chunks.take(half)[i] == chunks[i]);
                law_only_refused_chunks_are_skipped(chunks.take(half), embedder, i);
            } else {
                assert(chunks.skip(half)[i - half] == chunks[i]);
                law_only_refused_chunks_are_skipped(chunks.skip(half), embedder, i - half);
            }
        }
    }
}

/// A chunk that the embedder refuses in every batch that holds it is skipped, with a
/// warning that gives the reason it was refused alone for.
pub proof fn law_refused_chunk_is_skipped(
    chunks: Seq<CodeChunk>,
    embedder: spec_fn(Seq<CodeChunk>) -> Answer,
    i: int,
    reason: Seq<char>,
)
    requires
        0 <= i < chunks.len(),
        forall|from: int, to: int|
            0 <= from <= i < to <= chunks.len() ==> (#[trigger] embedder(
                chunks.subrange(from, to),
            )) is Err,
        embedder(seq![chunks[i]]) == Err::<Seq<EmbeddingVector>, Seq<char>>(reason),
    ensures
        verdicts(chunks, embedder).len() == chunks.len(),
        verdicts(chunks, embedder)[i] == Err::<EmbeddingVector, Seq<char>>(
            skip_warning(chunks[i], reason),
        ),
    decreases chunks.len(),
{
    lemma_verdicts_len(chunks, embedder);
    assert(chunks.subrange(0, chunks.len() as int) =~= chunks);
    assert(embedder(chunks) is Err);
    if chunks.len() == 1 {
        assert(chunks =~= seq![chunks[i]]);
    } else {
        let half = chunks.len() as int / 2;
        let left = chunks.take(half);
        let right = chunks.skip(half);
        lemma_verdicts_len(left, embedder);
        lemma_verdicts_len(right, embedder);
        if i < half {
            assert(left[i] == chunks[i]);
            assert forall|from: int, to: int|
                0 <= from <= i < to <= left.len() implies (#[trigger] embedder(
                left.subrange(from, to),
            )) is Err by {
                assert(left.subrange(from, to) =~= chunks.subrange(from, to));
                assert(embedder(chunks.subrange(from, to)) is Err);
            }
            law_refused_chunk_is_skipped(left, embedder, i, reason);
        } else {
            assert(right[i - half] == chunks[i]);
            assert forall|from: int, to: int|
                0 <= from <= i - half < to <= right.len() implies (#[trigger] embedder(
                right.subrange(from, to),
            )) is Err by {
                assert(right.subrange(from, to) =~= chunks.subrange(from + half, to + half));
                assert(embedder(chunks.subrange(from + half, to + half)) is Err);
            }
            law_refused_chunk_is_skipped(right, embedder, i - half, reason);
        }
    }
}

/// The embedding of a chunk is the one that the embedder gave in the chunk's place, in
/// an answer to a batch of neighbouring chunks.
pub proof fn law_embeddings_stay_in_their_places(
    chunks: Seq<CodeChunk>,
    embedder: spec_fn(Seq<CodeChunk>) -> Answer,
    i: int,
)
    requires
        0 <= i < chunks.len(),
        verdicts(chunks, embedder)[i] is Ok,
    ensures
        exists|from: int, to: int|
            0 <= from <= i < to <= chunks.len() && (#[trigger] embedder(
                chunks.subrange(from, to),
            )) is Ok && embedder(chunks.subrange(from, to))->Ok_0.len() == to - from && verdicts(
                chunks,
                embedder,
            )[i]->Ok_0 == embedder(chunks.subrange(from, to))->Ok_0[i - from],
    decreases chunks.len(),
{
    lemma_verdicts_len(chunks, embedder);
    if complaint(embedder(chunks), chunks.len()) is None {
        assert(chunks.subrange(0, chunks.len() as int) =~= chunks);
        assert(embedder(chunks.subrange(0, chunks.len() as int)) is Ok);
    } else {
        let half = chunks.len() as int / 2;
        let left = chunks.take(half);
        let right = chunks.skip(half);
        lemma_verdicts_len(left, embedder);
        lemma_verdicts_len(right, embedder);
        if i < half {
            law_embeddings_stay_in_their_places(left, embedder, i);
            let (from, to) = choose|from: int, to: int|
                0 <= from <= i < to <= left.len() && (#[trigger] embedder(
                    left.subrange(from, to),
                )) is Ok && embedder(left.subrange(from, to))->Ok_0.len() == to - from && verdicts(
                    left,
                    embedder,
                )[i]->Ok_0 == embedder(left.subrange(from, to))->Ok_0[i - from];
            assert(left.subrange(from, to) =~= chunks.subrange(from, to));
            assert(embedder(chunks.subrange(from, to)) is Ok);
        } else {
            let k = i - half;
            law_embeddings_stay_in_their_places(right, embedder, k);
            let (from, to) = choose|from: int, to: int|
                0 <= from <= k < to <= right.len() && (#[trigger] embedder(
                    right.subrange(from, to),
                )) is Ok && embedder(right.subrange(from, to))->Ok_0.len() == to - from && verdicts(
                    right,
                    embedder,
                )[k]->Ok_0 == embedder(right.subrange(from, to))->Ok_0[k - from];
            assert(right.subrange(from, to) =~= chunks.subrange(from + half, to + half));
            assert(embedder(chunks.subrange(from + half, to + half)) is Ok);
        }
    }
}

/// Chunks and their verdicts come apart in order: an embedding goes with its own chunk,
/// and a warning stands for a chunk that is left out.
pub proof fn law_verdicts_come_apart_in_order(
    chunks: Seq<CodeChunk>,
    fates: Seq<Verdict>,
    chunk: CodeChunk,
    fate: Verdict,
)
    requires
        fates.len() == chunks.len(),
    ensures
        fate is Ok ==> embedded_of(chunks.push(chunk), fates.push(fate)) == embedded_of(
            chunks,
            fates,
        ).push((chunk, fate->Ok_0)) && warnings_of(fates.push(fate)) == warnings_of(fates),
        fate is Err ==> embedded_of(chunks.push(chunk), fates.push(fate)) == embedded_of(
            chunks,
            fates,
        ) && warnings_of(fates.push(fate)) == warnings_of(fates).push(fate->Err_0),
        embedded_of(Seq::empty(), Seq::empty()).len() == 0,
        warnings_of(Seq::empty()).len() == 0,
{
    assert(chunks.push(chunk) =~= chunks + seq![chunk]);
    assert(fates.push(fate).drop_last() =~= fates);
    lemma_embedded_of_prefix(chunks, seq![chunk], fates);
}

/// Only empty batches at the end are passed over: what is left has a batch with chunks at
/// its end, or nothing.
pub proof fn law_only_empty_batches_are_passed_over(
    pending: Seq<Seq<CodeChunk>>,
    batch: Seq<CodeChunk>,
    empty: Seq<Seq<CodeChunk>>,
)
    requires
        batch.len() > 0,
        forall|i: int| 0 <= i < empty.len() ==> (#[trigger] empty[i]).len() == 0,
    ensures
        without_empty(pending.push(batch) + empty) == pending.push(batch),
        without_empty(empty).len() == 0,
    decreases empty.len(),
{
    let whole = pending.push(batch) + empty;
    if empty.len() > 0 {
        let fewer = empty.drop_last();
        assert(empty[empty.len() - 1].len() == 0);
        assert(whole.last() == empty.last());
        assert(whole.drop_last() =~= pending.push(batch) + fewer);
        assert forall|i: int| 0 <= i < fewer.len() implies (#[trigger] fewer[i]).len() == 0 by {
            assert(empty[i].len() == 0);
        }
        law_only_empty_batches_are_passed_over(pending, batch, fewer);
    } else {
        assert(whole =~= pending.push(batch));
    }
}

} // verus!
