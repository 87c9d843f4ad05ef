//! The hidden rows carried from step to step, and the phases of one step.
//!
//! The MTP head predicts a token from the token before it and the hidden row of
//! the position before that token, so every token is fed together with the row
//! of its predecessor. The element type `E` of the rows is left open: rows are
//! only copied.

use vstd::prelude::*;

use crate::context::{ContextView, DecodeError, LlamaContext};
use crate::mtp_batch::{LlamaMtpBatch, MtpBatchView, Slot};
use crate::orchestration::helpers::{
    accept_h_index, draft_should_stop, sequential_positions, shift_h_mapping, verify_acceptance,
};
use crate::token::LlamaToken;

verus! {

/// The sequence that drafts are made on.
pub const DRAFT_SEQ_ID: i32 = 0;

/// Tuning of the loop. The least probability that keeps a draft going stays with
/// the sampler, which reports whether its best candidate fell below it.
#[derive(Clone, Copy, Debug, PartialEq, Eq, Structural)]
pub struct MtpParams {
    /// The greatest number of tokens drafted per step.
    pub n_max: usize,
    /// The least length of a draft; a shorter one is dropped whole.
    pub n_min: usize,
    /// How many candidates the draft sampler keeps.
    pub top_k: i32,
}

impl Default for MtpParams {
    fn default() -> (r: Self)
        ensures
            r == (MtpParams { n_max: 4, n_min: 1, top_k: 10 }),
    {
        MtpParams { n_max: 4, n_min: 1, top_k: 10 }
    }
}

/// A batch of tokens for the target. Logits are requested at every position.
#[derive(Debug, PartialEq, Eq)]
pub struct TargetBatch {
    /// The tokens.
    pub tokens: Vec<LlamaToken>,
    /// The position of each token.
    pub positions: Vec<i32>,
    /// The sequence that all of them belong to.
    pub seq_id: i32,
}

/// What verifying a draft comes to. The step emits `accepted` and then
/// `next_token`, so at least one token.
#[derive(Debug)]
pub struct VerifyOutcome {
    /// How many leading drafts the target agreed with.
    pub n_accepted: usize,
    /// These drafts.
    pub accepted: Vec<LlamaToken>,
    /// The target's own token behind them.
    pub next_token: LlamaToken,
    /// The position of that token.
    pub next_pos: i32,
}

/// A draft could not be verified.
#[derive(Clone, Copy, Debug, PartialEq, Eq, Structural)]
pub enum VerifyError {
    /// The batch holds more positions than the backend can count.
    BatchTooLong,
    /// The target did not decode the batch.
    DecodeFailed(DecodeError),
}

/// The part of a sequence that is to be taken out of the target's cache: every
/// position from `from_pos` on.
#[derive(Clone, Copy, Debug, PartialEq, Eq, Structural)]
pub struct Rollback {
    /// The sequence.
    pub seq_id: u32,
    /// The first position to take out.
    pub from_pos: u32,
}

/// The verified prefix could not be accepted.
#[derive(Clone, Copy, Debug, PartialEq, Eq, Structural)]
pub enum AcceptError {
    /// The sequence id is negative.
    NegativeSeqId,
    /// The position is negative.
    NegativePos,
    /// The backend did not roll the target's cache back.
    RollbackFailed,
}

/// What the draft came back with after a batch was given to it. The row type
/// `R` is a vector where it runs and a sequence where it is reasoned about.
#[derive(Debug)]
pub enum DraftReply<R> {
    /// The batch was not decoded.
    Failed,
    /// The batch was decoded.
    Decoded {
        /// The best candidate.
        top1: LlamaToken,
        /// Whether its probability is below the least that is asked for.
        below_p_min: bool,
        /// The draft's hidden row of the decoded position.
        h_row: R,
    },
}

/// What drafting does next.
#[derive(Debug)]
pub enum DraftStep<E> {
    /// Decode this batch of one position on the draft, and report.
    Decode(LlamaMtpBatch<E>),
    /// Drafting is over, with these tokens.
    Done(Vec<LlamaToken>),
}

/// A draft under way, as values.
#[verifier::ext_equal]
pub struct DraftView {
    /// The position of the token that drafting started from.
    pub n_past: int,
    /// The length of every row.
    pub n_embd: nat,
    /// The tuning.
    pub params: MtpParams,
    /// The tokens drafted so far.
    pub drafted: Seq<LlamaToken>,
}

/// What drafting does next, as values.
#[verifier::ext_equal]
pub enum DraftStepView<E> {
    /// Decode this position, and report.
    Decode(Slot<E>),
    /// Drafting is over, with these tokens.
    Done(Seq<LlamaToken>),
}

impl DraftView {
    /// The draft with one more token.
    pub open spec fn keep(self, token: LlamaToken) -> Self {
        DraftView { drafted: self.drafted.push(token), ..self }
    }

    /// The tokens that a draft which ends here comes to: a draft that is too
    /// short is dropped whole.
    pub open spec fn outcome(self) -> Seq<LlamaToken> {
        if self.drafted.len() < self.params.n_min {
            Seq::empty()
        } else {
            self.drafted
        }
    }

    /// Whether the candidate of a reply is kept.
    pub open spec fn keeps<R>(self, reply: DraftReply<R>) -> bool {
        reply matches DraftReply::Decoded { below_p_min, .. } && !below_p_min && self.drafted.len()
            < self.params.n_max
    }

    /// Whether drafting goes on after a reply.
    pub open spec fn continues<R>(self, reply: DraftReply<R>) -> bool {
        self.keeps(reply) && self.drafted.len() + 1 < self.params.n_max
    }

    /// The draft after a reply.
    pub open spec fn after<R>(self, reply: DraftReply<R>) -> Self {
        if self.keeps(reply) {
            self.keep(reply->top1)
        } else {
            self
        }
    }

    /// What is done on a reply: a failed decode leaves no draft; a kept token is
    /// fed back with its own row at the next position, as long as more tokens
    /// are allowed.
    pub open spec fn step<E>(self, reply: DraftReply<Seq<E>>) -> DraftStepView<E> {
        if reply is Failed {
            DraftStepView::Done(Seq::empty())
        } else if self.continues(reply) {
            DraftStepView::Decode(
                Slot {
                    token: reply->top1,
                    embd: reply->h_row,
                    pos: (self.n_past + self.drafted.len() + 1) as i32,
                    seq_id: DRAFT_SEQ_ID,
                    logits: true,
                },
            )
        } else {
            DraftStepView::Done(self.after(reply).outcome())
        }
    }
}

/// A reply with its row as a sequence.
pub open spec fn reply_view<E>(reply: DraftReply<Vec<E>>) -> DraftReply<Seq<E>> {
    match reply {
        DraftReply::Failed => DraftReply::Failed,
        DraftReply::Decoded { top1, below_p_min, h_row } => DraftReply::Decoded {
            top1,
            below_p_min,
            h_row: h_row@,
        },
    }
}

impl<E> DraftStep<E> {
    /// Whether this is the step that `view` describes, for rows of length
    /// `n_embd`.
    pub open spec fn is_step(self, view: DraftStepView<E>, n_embd: nat) -> bool {
        match (self, view) {
            (DraftStep::Decode(batch), DraftStepView::Decode(slot)) => {
                &&& batch.wf()
                &&& batch@ == (MtpBatchView { capacity: 1, n_embd, slots: seq![slot] })
            },
            (DraftStep::Done(tokens), DraftStepView::Done(expected)) => tokens@ == expected,
            _ => false,
        }
    }
}

/// A draft under way.
#[derive(Debug)]
pub struct DraftRun {
    /// The position of the token that drafting started from.
    n_past: i32,
    /// The length of every row.
    n_embd: usize,
    /// The tuning.
    params: MtpParams,
    /// The tokens drafted so far.
    drafted: Vec<LlamaToken>,
}

impl View for DraftRun {
    type V = DraftView;

    closed spec fn view(&self) -> DraftView {
        DraftView {
            n_past: self.n_past as int,
            n_embd: self.n_embd as nat,
            params: self.params,
            drafted: self.drafted@,
        }
    }
}

/// A batch of one position whose logits are requested, on the draft's sequence.
fn draft_batch<E: Copy>(token: LlamaToken, embd: &Vec<E>, pos: i32) -> (r: LlamaMtpBatch<E>)
    requires
        embd@.len() <= i32::MAX,
    ensures
        r.wf(),
        r@ == (MtpBatchView {
            capacity: 1,
            n_embd: embd@.len(),
            slots: seq![Slot { token, embd: embd@, pos, seq_id: DRAFT_SEQ_ID, logits: true }],
        }),
{
    let mut batch: LlamaMtpBatch<E> = LlamaMtpBatch::new(1, embd.len());
    let added = batch.add(token, embd.as_slice(), pos, DRAFT_SEQ_ID, true);
    assert(added is Ok);
    assert(batch@.slots =~= seq![
        Slot { token, embd: embd@, pos, seq_id: DRAFT_SEQ_ID, logits: true },
    ]);
    batch
}

impl DraftRun {
    /// Goes on with a draft after the draft context reported on the last batch.
    pub fn step<E: Copy>(&mut self, reply: DraftReply<Vec<E>>) -> (r: DraftStep<E>)
        requires
            old(self)@.continues(reply) ==> {
                &&& reply->h_row@.len() == old(self)@.n_embd
                &&& old(self)@.n_embd <= i32::MAX
                &&& old(self)@.drafted.len() + 1 <= i32::MAX
                &&& old(self)@.n_past + old(self)@.drafted.len() + 1 <= i32::MAX
            },
        ensures
            final(self)@ == old(self)@.after(reply_view(reply)),
            r.is_step(old(self)@.step(reply_view(reply)), old(self)@.n_embd),
            reply is Failed ==> (r matches DraftStep::Done(tokens) && tokens@.len() == 0),
            r is Decode <==> reply is Decoded && !reply->below_p_min && old(self)@.drafted.len() + 1
                < old(self)@.params.n_max,
            r matches DraftStep::Decode(batch) ==> {
                &&& batch.wf()
                &&& batch@.capacity == 1
                &&& batch@.n_embd == old(self)@.n_embd
                &&& batch@.slots.len() == 1
                &&& batch@.slots[0].token == reply->top1
                &&& batch@.slots[0].embd == reply->h_row@
                &&& batch@.slots[0].pos == old(self)@.n_past + old(self)@.drafted.len() + 1
                &&& batch@.slots[0].seq_id == 0
                &&& batch@.slots[0].logits
                &&& final(self)@.drafted == old(self)@.drafted.push(reply->top1)
            },
            final(self)@.n_past == old(self)@.n_past,
            final(self)@.n_embd == old(self)@.n_embd,
            final(self)@.params == old(self)@.params,
    {
        match reply {
            DraftReply::Failed => DraftStep::Done(Vec::new()),
            DraftReply::Decoded { top1, below_p_min, h_row } => {
                if !draft_should_stop(below_p_min, self.drafted.len(), self.params.n_max) {
                    self.drafted.push(top1);
                    if self.drafted.len() < self.params.n_max {
                        let pos: i32 = self.n_past + (self.drafted.len() as i32);
                        return DraftStep::Decode(draft_batch(top1, &h_row, pos));
                    }
                }
                if self.drafted.len() < self.params.n_min {
                    DraftStep::Done(Vec::new())
                } else {
                    DraftStep::Done(crate::slices::copied(self.drafted.as_slice()))
                }
            },
        }
    }
}

/// The tokens that a draft comes to when the draft context reports `replies` one
/// after the other, or nothing if it is not over by then.
pub open spec fn draft_result<E>(draft: DraftView, replies: Seq<DraftReply<Seq<E>>>) -> Option<
    Seq<LlamaToken>,
>
    decreases replies.len(),
{
    if replies.len() == 0 {
        None
    } else {
        match draft.step(replies[0]) {
            DraftStepView::Done(tokens) => Some(tokens),
            DraftStepView::Decode(_) => draft_result(
                draft.after(replies[0]),
                replies.drop_first(),
            ),
        }
    }
}

/// What a session carries, as values.
#[verifier::ext_equal]
pub struct SessionView<E> {
    /// The length of every row.
    pub n_embd: nat,
    /// The row that goes with the next token.
    pub pending_h: Seq<E>,
    /// The target's rows of the positions captured last.
    pub rows: Seq<Seq<E>>,
    /// The tuning.
    pub params: MtpParams,
}

/// The state carried across the steps of one sequence.
#[derive(Debug)]
pub struct MtpSession<E> {
    /// The length of every row.
    n_embd: usize,
    /// The row that goes with the next token.
    pending_h: Vec<E>,
    /// The target's rows of the positions captured last, one behind the other.
    verify_h: Vec<E>,
    /// The number of rows in `verify_h`.
    n_rows: usize,
    /// The tuning.
    params: MtpParams,
}

impl<E> View for MtpSession<E> {
    type V = SessionView<E>;

    closed spec fn view(&self) -> SessionView<E> {
        SessionView {
            n_embd: self.n_embd as nat,
            pending_h: self.pending_h@,
            rows: Seq::new(
                self.n_rows as nat,
                |k: int| crate::slices::row(self.verify_h@, self.n_embd as nat, k),
            ),
            params: self.params,
        }
    }
}

/// The positions that mirror `tokens` onto the draft: each token goes with the
/// row of the token before it, the first with the carried row. No logits are
/// requested.
pub open spec fn mirror_slots<E>(
    carry: Seq<E>,
    tokens: Seq<LlamaToken>,
    rows: Seq<Seq<E>>,
    positions: Seq<i32>,
    seq_id: i32,
) -> Seq<Slot<E>> {
    Seq::new(
        tokens.len(),
        |k: int|
            Slot {
                token: tokens[k],
                embd: if k == 0 {
                    carry
                } else {
                    rows[k - 1]
                },
                pos: positions[k],
                seq_id,
                logits: false,
            },
    )
}

/// The rows that a vector of vectors holds.
pub open spec fn rows_of<E>(rows: Seq<Vec<E>>) -> Seq<Seq<E>> {
    rows.map_values(|v: Vec<E>| v@)
}

impl<E> MtpSession<E> {
    /// What every session satisfies: the carried row and the captured rows have
    /// the session's row length.
    pub closed spec fn wf(&self) -> bool {
        &&& self.pending_h@.len() == self.n_embd
        &&& self.verify_h@.len() == self.n_rows * self.n_embd
    }

    /// The carried row, and every captured row, has the session's row length.
    pub proof fn law_row_lengths(&self)
        requires
            self.wf(),
        ensures
            self@.pending_h.len() == self@.n_embd,
            forall|k: int|
                0 <= k < self@.rows.len() ==> #[trigger] self@.rows[k].len() == self@.n_embd,
    {
        assert forall|k: int| 0 <= k < self@.rows.len() implies #[trigger] self@.rows[k].len()
            == self@.n_embd by {
            crate::slices::lemma_row_bounds(k, self.n_rows as int, self.n_embd as nat);
        }
    }
}

impl<E: Copy> MtpSession<E> {
    /// A session for rows of length `n_embd`. The carried row starts as
    /// `n_embd` times `zero`; no row is captured yet.
    #[must_use]
    pub fn new(n_embd: usize, zero: E, params: MtpParams) -> (r: Self)
        ensures
            r.wf(),
            r@ == (SessionView {
                n_embd: n_embd as nat,
                pending_h: Seq::new(n_embd as nat, |i: int| zero),
                rows: Seq::empty(),
                params,
            }),
    {
        let mut pending_h: Vec<E> = Vec::new();
        for i in 0..n_embd
            invariant
                pending_h@ == Seq::new(i as nat, |j: int| zero),
        {
            pending_h.push(zero);
            assert(pending_h@ =~= Seq::new((i + 1) as nat, |j: int| zero));
        }
        let r = MtpSession { n_embd, pending_h, verify_h: Vec::new(), n_rows: 0, params };
        assert(0 * n_embd == 0) by (nonlinear_arith);
        assert(r@.rows =~= Seq::empty());
        r
    }

    /// The row that goes with the next token.
    #[must_use]
    pub fn pending_h(&self) -> (r: &Vec<E>)
        ensures
            r@ == self@.pending_h,
    {
        &self.pending_h
    }

    /// Captures the target's rows of the positions that it just decoded, and
    /// gives the batch that mirrors the tokens onto the draft.
    ///
    /// The last captured row is carried: it goes with the next token. In the
    /// mirror the first token goes with the row carried before this call, every
    /// other with the row of the token before it. Without tokens nothing
    /// happens and there is nothing to mirror.
    pub fn sync_capture(
        &mut self,
        target_rows: &Vec<Vec<E>>,
        batch_tokens: &[LlamaToken],
        batch_positions: &[i32],
        seq_id: i32,
    ) -> (r: Option<LlamaMtpBatch<E>>)
        requires
            old(self).wf(),
            batch_tokens@.len() > 0 ==> old(self)@.n_embd <= i32::MAX,
            batch_tokens@.len() == batch_positions@.len(),
            batch_tokens@.len() <= i32::MAX,
            target_rows@.len() == batch_tokens@.len(),
            forall|k: int| 0 <= k < target_rows@.len() ==> #[trigger] target_rows@[k]@.len() == old(self)@.n_embd,
        ensures
            final(self).wf(),
            r is None <==> batch_tokens@.len() == 0,
            r is None ==> final(self)@ == old(self)@,
            r matches Some(mirror) ==> {
                &&& final(self)@ == (SessionView {
                    pending_h: rows_of(target_rows@).last(),
                    rows: rows_of(target_rows@),
                    ..old(self)@
                })
                &&& mirror.wf()
                &&& mirror@ == (MtpBatchView {
                    capacity: batch_tokens@.len(),
                    n_embd: old(self)@.n_embd,
                    slots: mirror_slots(
                        old(self)@.pending_h,
                        batch_tokens@,
                        rows_of(target_rows@),
                        batch_positions@,
                        seq_id,
                    ),
                })
                &&& mirror@.slots.len() == batch_tokens@.len()
                &&& forall|k: int|
                    0 <= k < batch_tokens@.len() ==> {
                        let slot = #[trigger] mirror@.slots[k];
                        &&& slot.token == batch_tokens@[k]
                        &&& slot.pos == batch_positions@[k]
                        &&& slot.seq_id == seq_id
                        &&& !slot.logits
                        &&& k == 0 ==> slot.embd == old(self)@.pending_h
                        &&& k > 0 ==> slot.embd == target_rows@[k - 1]@
                    }
                &&& final(self)@.n_embd == old(self)@.n_embd
                &&& final(self)@.params == old(self)@.params
                &&& final(self)@.pending_h == target_rows@[target_rows@.len() - 1]@
                &&& final(self)@.rows.len() == target_rows@.len()
                &&& forall|k: int|
                    0 <= k < target_rows@.len() ==> #[trigger] final(self)@.rows[k]
                        == target_rows@[k]@
            },
    {
        let n: usize = batch_tokens.len();
        if n == 0 {
            return None;
        }
        let ghost rows = rows_of(target_rows@);
        let ghost width = self.n_embd as nat;
        let carry: Vec<E> = crate::slices::copied(self.pending_h.as_slice());

        let mut verify_h: Vec<E> = Vec::new();
        assert(0 * width == 0) by (nonlinear_arith);
        for i in 0..n
            invariant
                n == target_rows@.len(),
                rows == rows_of(target_rows@),
                forall|k: int| 0 <= k < n ==> #[trigger] target_rows@[k]@.len() == width,
                verify_h@.len() == i * width,
                forall|k: int|
                    0 <= k < i ==> #[trigger] crate::slices::row(verify_h@, width, k) == rows[k],
        {
            let ghost before = verify_h@;
            crate::slices::append_copied(&mut verify_h, target_rows[i].as_slice());
            proof {
                crate::slices::lemma_row_appended(before, width, i as nat, target_rows@[i as int]@);
                assert forall|k: int| 0 <= k < i + 1 implies #[trigger] crate::slices::row(
                    verify_h@,
                    width,
                    k,
                ) == rows[k] by {
                    if k < i {
                        assert(crate::slices::row(before, width, k) == rows[k]);
                    }
                }
            }
        }
        self.verify_h = verify_h;
        self.n_rows = n;
        self.pending_h = crate::slices::copied(target_rows[n - 1].as_slice());
        assert(self@.rows =~= rows);

        let mut mirror: LlamaMtpBatch<E> = LlamaMtpBatch::new(n, self.n_embd);
        let mapping: Vec<Option<usize>> = shift_h_mapping(n);
        let ghost slots = mirror_slots(carry@, batch_tokens@, rows, batch_positions@, seq_id);
        for k in 0..n
            invariant
                n == target_rows@.len(),
                n == batch_tokens@.len(),
                n == batch_positions@.len(),
                n <= i32::MAX,
                rows == rows_of(target_rows@),
                forall|j: int| 0 <= j < n ==> #[trigger] target_rows@[j]@.len() == width,
                carry@.len() == width,
                mapping@ == Seq::new(
                    n as nat,
                    |j: int|
                        if j == 0 {
                            None::<usize>
                        } else {
                            Some((j - 1) as usize)
                        },
                ),
                slots == mirror_slots(carry@, batch_tokens@, rows, batch_positions@, seq_id),
                mirror.wf(),
                mirror@.capacity == n,
                mirror@.n_embd == width,
                mirror@.slots == slots.take(k as int),
        {
            let embd: &[E] = match mapping[k] {
                None => carry.as_slice(),
                Some(j) => target_rows[j].as_slice(),
            };
            let added = mirror.add(batch_tokens[k], embd, batch_positions[k], seq_id, false);
            assert(added is Ok);
            assert(slots.take(k + 1) =~= slots.take(k as int).push(slots[k as int]));
        }
        assert(slots.take(n as int) =~= slots);
        Some(mirror)
    }
}

/// A token and those behind it, at consecutive positions from `n_past` on.
pub(crate) fn consecutive_batch(
    first: LlamaToken,
    rest: &[LlamaToken],
    n_past: i32,
    seq_id: i32,
) -> (r: TargetBatch)
    requires
        rest@.len() + 1 <= i32::MAX,
        n_past + rest@.len() <= i32::MAX,
    ensures
        r.is_run(first, rest@, n_past as int, seq_id),
{
    let mut tokens: Vec<LlamaToken> = Vec::new();
    tokens.push(first);
    crate::slices::append_copied(&mut tokens, rest);
    assert(tokens@ =~= seq![first] + rest@);
    let positions: Vec<i32> = sequential_positions(n_past, tokens.len());
    TargetBatch { tokens, positions, seq_id }
}

impl TargetBatch {
    /// Whether this is the batch of a token and those behind it, at consecutive
    /// positions from `n_past` on.
    pub open spec fn is_run(
        &self,
        first: LlamaToken,
        rest: Seq<LlamaToken>,
        n_past: int,
        seq_id: i32,
    ) -> bool {
        &&& self.tokens@ == seq![first] + rest
        &&& self.positions@ == crate::orchestration::helpers::positions_from(n_past, rest.len() + 1)
        &&& self.seq_id == seq_id
    }
}

/// Whether the backend can count the last token and these drafts in one batch.
pub open spec fn batch_fits(drafts: Seq<LlamaToken>) -> bool {
    drafts.len() + 1 <= i32::MAX
}

/// The batch that the target decodes in one step: the last token and behind it
/// the drafts, at consecutive positions from `n_past` on. A batch that is too
/// long is refused.
pub fn verify_batch(
    id_last: LlamaToken,
    drafts: &[LlamaToken],
    n_past: i32,
    seq_id: i32,
) -> (r: Result<TargetBatch, VerifyError>)
    requires
        batch_fits(drafts@) ==> n_past + drafts@.len() <= i32::MAX,
    ensures
        batch_fits(drafts@) ==> (r matches Ok(batch) && batch.is_run(
            id_last,
            drafts@,
            n_past as int,
            seq_id,
        )),
        !batch_fits(drafts@) ==> r == Err::<TargetBatch, VerifyError>(VerifyError::BatchTooLong),
        r is Ok <==> drafts@.len() < i32::MAX,
        r matches Ok(batch) ==> {
            &&& batch.seq_id == seq_id
            &&& batch.tokens@.len() == drafts@.len() + 1
            &&& batch.tokens@[0] == id_last
            &&& forall|i: int| 0 <= i < drafts@.len() ==> batch.tokens@[i + 1] == #[trigger] drafts@[i]
            &&& batch.positions@.len() == drafts@.len() + 1
            &&& forall|i: int| 0 <= i <= drafts@.len() ==> #[trigger] batch.positions@[i] == n_past + i
        },
{
    if drafts.len() >= i32::MAX as usize {
        return Err(VerifyError::BatchTooLong);
    }
    Ok(consecutive_batch(id_last, drafts, n_past, seq_id))
}

impl LlamaContext {
    /// Ends the decode of a batch for the target, with the code `result` that
    /// the backend returned.
    ///
    /// Zero is success: the logits at every index can then be read. Any other
    /// code is the error, and the context stays as it was.
    pub fn decode_target(&mut self, batch: &TargetBatch, result: i32) -> (r: Result<
        (),
        DecodeError,
    >)
        requires
            batch.tokens@.len() <= i32::MAX,
        ensures
            r == (if result == 0 {
                Ok::<(), DecodeError>(())
            } else {
                Err(DecodeError { code: result })
            }),
            final(self)@ == (if result == 0 {
                ContextView {
                    initialized_logits: crate::orchestration::helpers::positions_from(
                        0,
                        batch.tokens@.len(),
                    ),
                    ..old(self)@
                }
            } else {
                old(self)@
            }),
            result == 0 ==> forall|i: i32|
                #[trigger] final(self)@.initialized_logits.contains(i) <==> 0 <= i
                    < batch.tokens@.len(),
            final(self)@.n_embd == old(self)@.n_embd,
    {
        proof {
            let all = crate::orchestration::helpers::positions_from(0, batch.tokens@.len());
            assert forall|i: i32| 0 <= i < batch.tokens@.len() implies all.contains(i) by {
                assert(all[i as int] == i);
            }
        }
        if result == 0 {
            self.set_initialized_logits(&sequential_positions(0, batch.tokens.len()));
            Ok(())
        } else {
            Err(DecodeError { code: result })
        }
    }
}

impl VerifyOutcome {
    /// Whether this is the outcome for the target's choices `chosen` in a batch
    /// of the last token at `n_past` and then `drafts`: the drafts up to the
    /// first that the target did not choose, and the target's own token there.
    pub open spec fn follows(
        &self,
        chosen: Seq<LlamaToken>,
        drafts: Seq<LlamaToken>,
        n_past: int,
    ) -> bool {
        &&& self.n_accepted == crate::orchestration::helpers::agreement(chosen.drop_last(), drafts)
        &&& self.n_accepted <= drafts.len()
        &&& self.accepted@ == drafts.take(self.n_accepted as int)
        &&& self.next_token == chosen[self.n_accepted as int]
        &&& self.next_pos == n_past + self.n_accepted + 1
    }
}

/// Whether the position behind the accepted drafts, and its distance from
/// `n_past`, are 32-bit integers.
pub open spec fn next_pos_fits(
    chosen: Seq<LlamaToken>,
    drafts: Seq<LlamaToken>,
    n_past: int,
) -> bool {
    let n = crate::orchestration::helpers::agreement(chosen.drop_last(), drafts);
    &&& n + 1 <= i32::MAX
    &&& n_past + n + 1 <= i32::MAX
}

/// The outcome of a step with the target's choices `target_chosen`, one for each
/// index of [`verify_batch`]. There may be no drafts: then the step is a plain
/// one.
#[must_use]
pub fn verify_outcome(
    target_chosen: &[LlamaToken],
    drafts: &[LlamaToken],
    n_past: i32,
) -> (r: VerifyOutcome)
    requires
        target_chosen@.len() == drafts@.len() + 1,
        next_pos_fits(target_chosen@, drafts@, n_past as int),
    ensures
        r.follows(target_chosen@, drafts@, n_past as int),
        r.n_accepted <= drafts@.len(),
        r.accepted@ == target_chosen@.take(r.n_accepted as int),
        r.accepted@ == drafts@.take(r.n_accepted as int),
        r.n_accepted < drafts@.len() ==> r.next_token.0 != drafts@[r.n_accepted as int].0,
        r.next_token == target_chosen@[r.n_accepted as int],
        r.next_pos == n_past + r.n_accepted + 1,
{
    let (n_accepted, next_token) = verify_acceptance(target_chosen, drafts);
    let accepted: Vec<LlamaToken> = crate::slices::copied(
        vstd::slice::slice_subrange(drafts, 0, n_accepted),
    );
    assert(accepted@ =~= drafts@.take(n_accepted as int));
    VerifyOutcome { n_accepted, accepted, next_token, next_pos: n_past + (n_accepted + 1) as i32 }
}

/// What to take out of the target's cache so that it ends before
/// `accepted_pos`.
pub fn rollback_range(accepted_pos: i32, seq_id: i32) -> (r: Result<Rollback, AcceptError>)
    ensures
        r == (if seq_id < 0 {
            Err::<Rollback, AcceptError>(AcceptError::NegativeSeqId)
        } else if accepted_pos < 0 {
            Err(AcceptError::NegativePos)
        } else {
            Ok(Rollback { seq_id: seq_id as u32, from_pos: accepted_pos as u32 })
        }),
{
    if seq_id < 0 {
        Err(AcceptError::NegativeSeqId)
    } else if accepted_pos < 0 {
        Err(AcceptError::NegativePos)
    } else {
        Ok(Rollback { seq_id: seq_id as u32, from_pos: accepted_pos as u32 })
    }
}

impl<E: Copy> MtpSession<E> {
    /// Starts a draft behind `id_last` at position `n_past`. The batch pairs
    /// that token with the carried row; it is to be decoded on the draft, and
    /// the reply handed to the run.
    #[must_use]
    pub fn draft(&self, id_last: LlamaToken, n_past: i32) -> (r: (DraftRun, LlamaMtpBatch<E>))
        requires
            self.wf(),
            self@.n_embd <= i32::MAX,
        ensures
            r.0@ == (DraftView {
                n_past: n_past as int,
                n_embd: self@.n_embd,
                params: self@.params,
                drafted: Seq::empty(),
            }),
            r.1.wf(),
            r.1@ == (MtpBatchView {
                capacity: 1,
                n_embd: self@.n_embd,
                slots: seq![
                    Slot {
                        token: id_last,
                        embd: self@.pending_h,
                        pos: n_past,
                        seq_id: DRAFT_SEQ_ID,
                        logits: true,
                    },
                ],
            }),
            r.1@.slots[0].pos == n_past,
            r.1@.slots[0].seq_id == 0,
    {
        let run = DraftRun {
            n_past,
            n_embd: self.n_embd,
            params: self.params,
            drafted: Vec::new(),
        };
        (run, draft_batch(id_last, &self.pending_h, n_past))
    }

    /// The outcome of verifying `drafts`, out of what the target came to on
    /// [`verify_batch`]: its choice at each index, or its error.
    ///
    /// A batch that is too long is refused; the target is not to be asked then
    /// and `decoded` is not read.
    pub fn verify(
        &self,
        decoded: Result<&[LlamaToken], DecodeError>,
        drafts: &[LlamaToken],
        n_past: i32,
    ) -> (r: Result<VerifyOutcome, VerifyError>)
        requires
            drafts@.len() > 0,
            batch_fits(drafts@) ==> (decoded matches Ok(chosen) ==> {
                &&& chosen@.len() == drafts@.len() + 1
                &&& n_past + crate::orchestration::helpers::agreement(chosen@.drop_last(), drafts@)
                    + 1 <= i32::MAX
            }),
        ensures
            !batch_fits(drafts@) ==> r == Err::<VerifyOutcome, VerifyError>(
                VerifyError::BatchTooLong,
            ),
            batch_fits(drafts@) ==> match decoded {
                Err(e) => r == Err::<VerifyOutcome, VerifyError>(VerifyError::DecodeFailed(e)),
                Ok(chosen) => r matches Ok(outcome) && outcome.follows(
                    chosen@,
                    drafts@,
                    n_past as int,
                ),
            },
            r is Ok <==> drafts@.len() < i32::MAX && decoded is Ok,
            r matches Err(VerifyError::BatchTooLong) ==> drafts@.len() >= i32::MAX,
            r matches Err(VerifyError::DecodeFailed(e)) ==> drafts@.len() < i32::MAX
                && decoded is Err && e == decoded->Err_0,
            r matches Ok(outcome) ==> {
                let chosen = decoded->Ok_0@;
                &&& outcome.n_accepted <= drafts@.len()
                &&& outcome.accepted@ == chosen.take(outcome.n_accepted as int)
                &&& outcome.accepted@ == drafts@.take(outcome.n_accepted as int)
                &&& outcome.n_accepted < drafts@.len() ==> outcome.next_token.0
                    != drafts@[outcome.n_accepted as int].0
                &&& outcome.next_token == chosen[outcome.n_accepted as int]
                &&& outcome.next_pos == n_past + outcome.n_accepted + 1
            },
    {
        if drafts.len() >= i32::MAX as usize {
            return Err(VerifyError::BatchTooLong);
        }
        match decoded {
            Err(e) => Err(VerifyError::DecodeFailed(e)),
            Ok(chosen) => {
                proof {
                    crate::orchestration::helpers::lemma_agreement(chosen@.drop_last(), drafts@);
                }
                Ok(verify_outcome(chosen, drafts, n_past))
            },
        }
    }

    /// Ends the accepting of a verified prefix, given whether the backend took
    /// [`rollback_range`] out of the target's cache: the captured row of the
    /// last accepted token is carried.
    ///
    /// A negative id or position is refused; the backend is not to be asked then
    /// and `rolled_back` is not read. On an error the session stays as it was.
    pub fn accept(
        &mut self,
        n_accepted: usize,
        accepted_pos: i32,
        seq_id: i32,
        rolled_back: bool,
    ) -> (r: Result<(), AcceptError>)
        requires
            old(self).wf(),
            seq_id >= 0 && accepted_pos >= 0 && rolled_back ==> old(self)@.rows.len() > 0
                || old(self)@.n_embd == 0,
        ensures
            final(self).wf(),
            r == (if seq_id < 0 {
                Err::<(), AcceptError>(AcceptError::NegativeSeqId)
            } else if accepted_pos < 0 {
                Err(AcceptError::NegativePos)
            } else if !rolled_back {
                Err(AcceptError::RollbackFailed)
            } else {
                Ok(())
            }),
            r is Err ==> final(self)@ == old(self)@,
            r is Ok ==> final(self)@ == (SessionView {
                pending_h: if old(self)@.rows.len() == 0 {
                    old(self)@.pending_h
                } else {
                    old(self)@.rows[crate::orchestration::helpers::accepted_row(
                        n_accepted as nat,
                        old(self)@.rows.len(),
                    ) as int]
                },
                ..old(self)@
            }),
            final(self)@.rows == old(self)@.rows,
            final(self)@.n_embd == old(self)@.n_embd,
            final(self)@.params == old(self)@.params,
            r is Err ==> final(self)@.pending_h == old(self)@.pending_h,
            r is Ok && n_accepted < old(self)@.rows.len() ==> final(self)@.pending_h == old(
                self,
            )@.rows[n_accepted as int],
            r is Ok && 0 < old(self)@.rows.len() <= n_accepted ==> final(self)@.pending_h == old(
                self,
            )@.rows[old(self)@.rows.len() - 1],
    {
        match rollback_range(accepted_pos, seq_id) {
            Err(e) => return Err(e),
            Ok(_) => {},
        }
        if !rolled_back {
            return Err(AcceptError::RollbackFailed);
        }
        if self.n_rows == 0 {
            return Ok(());
        }
        let row: usize = accept_h_index(n_accepted, self.n_rows);
        let captured: &[E] = self.verify_h.as_slice();
        assert(captured@.len() == captured.len());
        proof {
            crate::slices::lemma_row_bounds(row as int, self.n_rows as int, self.n_embd as nat);
        }
        self.pending_h = crate::slices::copied(
            vstd::slice::slice_subrange(
                captured,
                row * self.n_embd,
                (row + 1) * self.n_embd,
            ),
        );
        Ok(())
    }
}

/// Mirroring goes on across calls as within one: to mirror two runs of tokens
/// one after the other, the second with the last row of the first carried, is to
/// mirror them as one run. So every token but the very first goes with the
/// target's row of the token before it.
pub proof fn law_mirror_splits<E>(
    carry: Seq<E>,
    tokens1: Seq<LlamaToken>,
    rows1: Seq<Seq<E>>,
    positions1: Seq<i32>,
    tokens2: Seq<LlamaToken>,
    rows2: Seq<Seq<E>>,
    positions2: Seq<i32>,
    seq_id: i32,
)
    requires
        tokens1.len() > 0,
        rows1.len() == tokens1.len(),
        positions1.len() == tokens1.len(),
        rows2.len() == tokens2.len(),
        positions2.len() == tokens2.len(),
    ensures
        mirror_slots(carry, tokens1, rows1, positions1, seq_id) + mirror_slots(
            rows1.last(),
            tokens2,
            rows2,
            positions2,
            seq_id,
        ) == mirror_slots(
            carry,
            tokens1 + tokens2,
            rows1 + rows2,
            positions1 + positions2,
            seq_id,
        ),
{
    let one = mirror_slots(carry, tokens1, rows1, positions1, seq_id) + mirror_slots(
        rows1.last(),
        tokens2,
        rows2,
        positions2,
        seq_id,
    );
    let all = mirror_slots(
        carry,
        tokens1 + tokens2,
        rows1 + rows2,
        positions1 + positions2,
        seq_id,
    );
    assert(one =~= all);
}

/// After a capture of the accepted tokens, accepting carries what the capture
/// carried already: the row of the last accepted token.
pub proof fn law_accept_after_capture<E>(v: SessionView<E>, n_accepted: nat)
    requires
        v.rows.len() > 0,
        v.pending_h == v.rows.last(),
        n_accepted + 1 >= v.rows.len(),
    ensures
        v.rows[crate::orchestration::helpers::accepted_row(n_accepted, v.rows.len()) as int]
            == v.pending_h,
{
}

/// A draft never holds more than `n_max` tokens and is either empty or at least
/// `n_min` long; token `i` is the candidate of reply `i`, and none is kept whose
/// probability was too low.
pub proof fn law_draft_bounds<E>(draft: DraftView, replies: Seq<DraftReply<Seq<E>>>)
    requires
        draft.drafted.len() == 0,
    ensures
        draft_result(draft, replies) matches Some(tokens) ==> {
            &&& tokens.len() <= draft.params.n_max
            &&& tokens.len() == 0 || tokens.len() >= draft.params.n_min
            &&& tokens.len() <= replies.len()
            &&& forall|i: int|
                0 <= i < tokens.len() ==> (#[trigger] replies[i] matches DraftReply::Decoded {
                    top1,
                    below_p_min,
                    ..
                } && !below_p_min && top1 == tokens[i])
        },
{
    lemma_draft_bounds(draft, replies, Seq::empty());
    assert(Seq::<DraftReply<Seq<E>>>::empty() + replies =~= replies);
}

/// Whether the drafted tokens are the kept candidates of the replies so far.
spec fn drafted_from<E>(tokens: Seq<LlamaToken>, replies: Seq<DraftReply<Seq<E>>>) -> bool {
    &&& tokens.len() <= replies.len()
    &&& forall|i: int|
        0 <= i < tokens.len() ==> (#[trigger] replies[i] matches DraftReply::Decoded {
            top1,
            below_p_min,
            ..
        } && !below_p_min && top1 == tokens[i])
}

/// [`law_draft_bounds`] for a draft under way, behind the replies `seen`.
proof fn lemma_draft_bounds<E>(
    draft: DraftView,
    replies: Seq<DraftReply<Seq<E>>>,
    seen: Seq<DraftReply<Seq<E>>>,
)
    requires
        draft.drafted.len() <= draft.params.n_max,
        draft.drafted.len() == seen.len(),
        drafted_from(draft.drafted, seen),
    ensures
        draft_result(draft, replies) matches Some(tokens) ==> {
            &&& tokens.len() <= draft.params.n_max
            &&& tokens.len() == 0 || tokens.len() >= draft.params.n_min
            &&& drafted_from(tokens, seen + replies)
        },
    decreases replies.len(),
{
    if replies.len() > 0 {
        let reply = replies[0];
        let next = draft.after(reply);
        let more = seen.push(reply);
        assert forall|i: int| 0 <= i < seen.len() implies (seen + replies)[i] == seen[i] by {}
        assert((seen + replies)[seen.len() as int] == reply);
        if draft.keeps(reply) {
            assert(drafted_from(next.drafted, more));
        }
        if draft.step(reply) is Decode {
            lemma_draft_bounds(next, replies.drop_first(), more);
            assert(more + replies.drop_first() =~= seen + replies);
        }
    }
}

/// Drafting ends: after `n_max` replies, or one if `n_max` is zero, it is over.
pub proof fn law_draft_ends<E>(draft: DraftView, replies: Seq<DraftReply<Seq<E>>>)
    requires
        replies.len() > 0,
        draft.drafted.len() + replies.len() >= draft.params.n_max,
    ensures
        draft_result(draft, replies) is Some,
    decreases replies.len(),
{
    if draft.step(replies[0]) is Decode {
        law_draft_ends(draft.after(replies[0]), replies.drop_first());
    }
}

/// What a draft does on a reply. A failed decode leaves no draft. A candidate is
/// kept exactly when it is probable enough and there is room; when there is room
/// for one more behind it, it is decoded next, with its own row and its logits
/// requested, one place behind the tokens drafted before it. Otherwise drafting
/// is over, with all that was kept, or with nothing if that is too little.
pub proof fn law_draft_step<E>(draft: DraftView, reply: DraftReply<Seq<E>>)
    ensures
        draft.after(reply).n_past == draft.n_past,
        draft.after(reply).n_embd == draft.n_embd,
        draft.after(reply).params == draft.params,
        reply is Failed ==> draft.after(reply).drafted == draft.drafted,
        reply is Failed ==> (draft.step(reply) matches DraftStepView::Done(tokens) && tokens.len()
            == 0),
        draft.continues(reply) <==> reply is Decoded && !reply->below_p_min && draft.drafted.len()
            + 1 < draft.params.n_max,
        draft.step(reply) is Decode <==> reply is Decoded && !reply->below_p_min
            && draft.drafted.len() + 1 < draft.params.n_max,
        draft.step(reply) matches DraftStepView::Decode(slot) ==> {
            &&& slot.token == reply->top1
            &&& slot.embd == reply->h_row
            &&& i32::MIN <= draft.n_past && draft.n_past + draft.drafted.len() + 1 <= i32::MAX
                ==> slot.pos == draft.n_past + draft.drafted.len() + 1
            &&& slot.seq_id == 0
            &&& slot.logits
        },
        reply is Decoded && !reply->below_p_min && draft.drafted.len() < draft.params.n_max ==> {
            &&& draft.after(reply).drafted.len() == draft.drafted.len() + 1
            &&& draft.after(reply).drafted.last() == reply->top1
            &&& draft.after(reply).drafted.drop_last() == draft.drafted
        },
        reply is Decoded && (reply->below_p_min || draft.drafted.len() >= draft.params.n_max)
            ==> draft.after(reply).drafted == draft.drafted,
        reply is Decoded ==> (draft.step(reply) matches DraftStepView::Done(tokens) ==> {
            let kept = draft.after(reply).drafted;
            &&& kept.len() >= draft.params.n_min ==> tokens == kept
            &&& kept.len() < draft.params.n_min ==> tokens.len() == 0
        }),
{
    if draft.keeps(reply) {
        assert(draft.after(reply).drafted.drop_last() =~= draft.drafted);
    }
}

/// The same of the step that is taken, in terms of the reply as it came: a batch
/// of one position that holds the candidate and its row, or the tokens kept.
pub proof fn law_draft_reply<E>(draft: DraftView, reply: DraftReply<Vec<E>>, step: DraftStep<E>)
    requires
        step.is_step(draft.step(reply_view(reply)), draft.n_embd),
    ensures
        draft.continues(reply) <==> step is Decode,
        step is Decode <==> reply is Decoded && !reply->below_p_min && draft.drafted.len() + 1
            < draft.params.n_max,
        step matches DraftStep::Decode(batch) ==> {
            &&& batch.wf()
            &&& batch@.capacity == 1
            &&& batch@.n_embd == draft.n_embd
            &&& batch@.slots.len() == 1
            &&& batch@.slots[0].token == reply->top1
            &&& batch@.slots[0].embd == reply->h_row@
            &&& i32::MIN <= draft.n_past && draft.n_past + draft.drafted.len() + 1 <= i32::MAX
                ==> batch@.slots[0].pos == draft.n_past + draft.drafted.len() + 1
            &&& batch@.slots[0].seq_id == 0
            &&& batch@.slots[0].logits
        },
        step matches DraftStep::Done(tokens) ==> match reply {
            DraftReply::Failed => tokens@.len() == 0,
            DraftReply::Decoded { top1, below_p_min, .. } => {
                let kept = if !below_p_min && draft.drafted.len() < draft.params.n_max {
                    draft.drafted.push(top1)
                } else {
                    draft.drafted
                };
                if kept.len() >= draft.params.n_min {
                    tokens@ == kept
                } else {
                    tokens@.len() == 0
                }
            },
        },
        match reply {
            DraftReply::Failed => reply_view(reply) is Failed,
            DraftReply::Decoded { top1, below_p_min, h_row } => {
                &&& reply_view(reply) is Decoded
                &&& reply_view(reply)->top1 == top1
                &&& reply_view(reply)->below_p_min == below_p_min
                &&& reply_view(reply)->h_row == h_row@
            },
        },
{
    law_draft_step(draft, reply_view(reply));
}

/// Along every run of a draft the fed-back tokens stand one behind the other
/// without gap or repeat: the seed at `n_past`, the candidate of reply `i` at
/// `n_past + 1 + i`, so each one place behind the one decoded before it. Each
/// goes with the row of its own reply, on the draft's sequence, and its logits
/// are requested.
pub proof fn law_draft_run<E>(
    states: Seq<DraftView>,
    replies: Seq<DraftReply<Seq<E>>>,
    slots: Seq<Slot<E>>,
)
    requires
        states.len() == replies.len() + 1,
        slots.len() == replies.len(),
        states[0].drafted.len() == 0,
        i32::MIN <= states[0].n_past,
        states[0].n_past + replies.len() <= i32::MAX,
        forall|i: int|
            0 <= i < replies.len() ==> #[trigger] states[i + 1] == states[i].after(replies[i]),
        forall|i: int|
            0 <= i < replies.len() ==> states[i].step(#[trigger] replies[i])
                == DraftStepView::Decode(slots[i]),
    ensures
        forall|i: int|
            0 <= i < slots.len() ==> {
                let slot = #[trigger] slots[i];
                &&& slot.pos == states[0].n_past + 1 + i
                &&& i > 0 ==> slot.pos == slots[i - 1].pos + 1
                &&& replies[i] is Decoded
                &&& slot.token == replies[i]->top1
                &&& slot.embd == replies[i]->h_row
                &&& slot.seq_id == 0
                &&& slot.logits
            },
        forall|i: int|
            0 <= i < states.len() ==> (#[trigger] states[i]).drafted.len() == i && states[i].n_past
                == states[0].n_past,
        forall|i: int, j: int|
            0 <= i < states.len() && 0 <= j < i ==> (#[trigger] states[i]).drafted[j] == (
            #[trigger] slots[j]).token,
    decreases replies.len(),
{
    if replies.len() > 0 {
        let m = replies.len() - 1;
        let before = states.drop_last();
        let fed = replies.drop_last();
        let decoded = slots.drop_last();
        assert forall|i: int| 0 <= i < fed.len() implies #[trigger] before[i + 1]
            == before[i].after(fed[i]) by {
            assert(states[i + 1] == states[i].after(replies[i]));
        }
        assert forall|i: int| 0 <= i < fed.len() implies before[i].step(#[trigger] fed[i])
            == DraftStepView::Decode(decoded[i]) by {
            assert(states[i].step(replies[i]) == DraftStepView::Decode(slots[i]));
        }
        law_draft_run(before, fed, decoded);
        let last = before[m];
        assert(states[m] == last);
        assert(last.drafted.len() == m && last.n_past == states[0].n_past);
        law_draft_step(last, replies[m]);
        assert(states[m + 1] == states[m].after(replies[m]));
        assert(states[m].step(replies[m]) == DraftStepView::Decode(slots[m]));
        assert forall|i: int| 0 <= i < slots.len() implies {
            let slot = #[trigger] slots[i];
            &&& slot.pos == states[0].n_past + 1 + i
            &&& i > 0 ==> slot.pos == slots[i - 1].pos + 1
            &&& replies[i] is Decoded
            &&& slot.token == replies[i]->top1
            &&& slot.embd == replies[i]->h_row
            &&& slot.seq_id == 0
            &&& slot.logits
        } by {
            if i < m {
                assert(decoded[i] == slots[i]);
                assert(fed[i] == replies[i]);
                if i > 0 {
                    assert(decoded[i - 1] == slots[i - 1]);
                }
            } else if m > 0 {
                assert(decoded[m - 1] == slots[m - 1]);
            }
        }
        assert forall|i: int| 0 <= i < states.len() implies (#[trigger] states[i]).drafted.len()
            == i && states[i].n_past == states[0].n_past by {
            if i <= m {
                assert(before[i] == states[i]);
            }
        }
        assert forall|i: int, j: int| 0 <= i < states.len() && 0 <= j < i implies (
        #[trigger] states[i]).drafted[j] == (#[trigger] slots[j]).token by {
            if i <= m {
                assert(before[i] == states[i]);
                assert(decoded[j] == slots[j]);
            } else {
                let all = states[m + 1].drafted;
                assert(all.drop_last() == last.drafted);
                if j < m {
                    assert(all.drop_last()[j] == last.drafted[j]);
                    assert(before[m].drafted[j] == decoded[j].token);
                }
            }
        }
    }
}

/// What is mirrored onto the draft: slot `k` holds token `k`, stands at position
/// `k` of those given, is on the given sequence and requests no logits. The
/// first goes with the carried row, every other with the row of the token before
/// it.
pub proof fn law_mirror_slots<E>(
    carry: Seq<E>,
    tokens: Seq<LlamaToken>,
    rows: Seq<Seq<E>>,
    positions: Seq<i32>,
    seq_id: i32,
)
    requires
        rows.len() == tokens.len(),
        positions.len() == tokens.len(),
    ensures
        mirror_slots(carry, tokens, rows, positions, seq_id).len() == tokens.len(),
        forall|k: int|
            0 <= k < tokens.len() ==> {
                let slot = #[trigger] mirror_slots(carry, tokens, rows, positions, seq_id)[k];
                &&& slot.token == tokens[k]
                &&& slot.pos == positions[k]
                &&& slot.seq_id == seq_id
                &&& !slot.logits
                &&& k == 0 ==> slot.embd == carry
                &&& k > 0 ==> slot.embd == rows[k - 1]
            },
{
}

/// The rows that are captured are the rows that were given, in their order and
/// element for element.
pub proof fn law_rows_of<E>(rows: Seq<Vec<E>>)
    ensures
        rows_of(rows).len() == rows.len(),
        forall|k: int| 0 <= k < rows.len() ==> #[trigger] rows_of(rows)[k] == rows[k]@,
{
}

/// A batch is refused for its length exactly when its positions, one more than
/// there are drafts, are more than a 32-bit integer counts.
pub proof fn law_batch_fits(drafts: Seq<LlamaToken>)
    ensures
        batch_fits(drafts) <==> drafts.len() < 0x7fff_ffff,
{
}

/// The batch of one pass over the target: the last token in front, draft `i` at
/// index `i + 1`, and index `i` at position `n_past + i`, so each position one
/// more than the one before it.
pub proof fn law_target_batch(
    batch: TargetBatch,
    first: LlamaToken,
    rest: Seq<LlamaToken>,
    n_past: i32,
    seq_id: i32,
)
    requires
        batch.is_run(first, rest, n_past as int, seq_id),
        n_past + rest.len() <= i32::MAX,
    ensures
        batch.seq_id == seq_id,
        batch.tokens@.len() == rest.len() + 1,
        batch.tokens@[0] == first,
        forall|i: int| 0 <= i < rest.len() ==> batch.tokens@[i + 1] == #[trigger] rest[i],
        batch.positions@.len() == rest.len() + 1,
        forall|i: int| 0 <= i <= rest.len() ==> #[trigger] batch.positions@[i] == n_past + i,
        forall|i: int|
            0 < i <= rest.len() ==> #[trigger] batch.positions@[i] == batch.positions@[i - 1] + 1,
{
}

/// What verifying comes to, held against the target's choices: the accepted
/// tokens are at once the first drafts and the target's first choices, the next
/// token is the target's choice behind them and is not the draft there, and it
/// stands one place behind the last token and the accepted drafts.
pub proof fn law_verify_outcome(
    outcome: VerifyOutcome,
    chosen: Seq<LlamaToken>,
    drafts: Seq<LlamaToken>,
    n_past: i32,
)
    requires
        chosen.len() == drafts.len() + 1,
        outcome.follows(chosen, drafts, n_past as int),
    ensures
        outcome.n_accepted <= drafts.len(),
        outcome.accepted@.len() == outcome.n_accepted,
        forall|i: int|
            0 <= i < outcome.n_accepted ==> {
                let token = #[trigger] outcome.accepted@[i];
                token == drafts[i] && token == chosen[i]
            },
        outcome.next_token == chosen[outcome.n_accepted as int],
        outcome.n_accepted < drafts.len() ==> outcome.next_token.0
            != drafts[outcome.n_accepted as int].0,
        outcome.next_pos == n_past + outcome.n_accepted + 1,
        next_pos_fits(chosen, drafts, n_past as int) <==> outcome.n_accepted + 1 <= i32::MAX
            && n_past + outcome.n_accepted + 1 <= i32::MAX,
{
    crate::orchestration::helpers::law_agreement(chosen.drop_last(), drafts);
    assert forall|i: int| 0 <= i < outcome.n_accepted implies {
        let token = #[trigger] outcome.accepted@[i];
        token == drafts[i] && token == chosen[i]
    } by {
        assert(chosen.drop_last()[i].0 == drafts[i].0);
    }
    if outcome.n_accepted < drafts.len() {
        assert(chosen.drop_last()[outcome.n_accepted as int] == chosen[outcome.n_accepted as int]);
    }
}

/// The position behind the accepted drafts fits exactly when the number of
/// accepted drafts, whatever it is, leaves room for it.
pub proof fn law_next_pos_fits(
    chosen: Seq<LlamaToken>,
    drafts: Seq<LlamaToken>,
    n_past: i32,
    n: int,
)
    requires
        chosen.len() == drafts.len() + 1,
        0 <= n <= drafts.len(),
        forall|i: int| 0 <= i < n ==> chosen[i] == drafts[i],
        n < drafts.len() ==> chosen[n] != drafts[n],
    ensures
        next_pos_fits(chosen, drafts, n_past as int) <==> n + 1 <= i32::MAX && n_past + n + 1
            <= i32::MAX,
{
    crate::orchestration::helpers::lemma_agreement(chosen.drop_last(), drafts);
    assert(crate::orchestration::helpers::is_agreement(chosen.drop_last(), drafts, n));
}

/// What is carried after an acceptance, in terms of the rows alone: that of the
/// last accepted token where it was captured, else the last one captured.
pub proof fn law_carried_row<E>(v: SessionView<E>, n_accepted: nat)
    requires
        v.rows.len() > 0,
    ensures
        ({
            let carried = v.rows[crate::orchestration::helpers::accepted_row(
                n_accepted,
                v.rows.len(),
            ) as int];
            &&& n_accepted < v.rows.len() ==> carried == v.rows[n_accepted as int]
            &&& n_accepted >= v.rows.len() ==> carried == v.rows.last()
        }),
{
}

} // verus!
