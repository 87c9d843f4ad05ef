//! The generation loop, and the plain loop without a draft.
//!
//! The loops are driven from outside: the caller decodes the batch that a loop
//! asks for, reads the target's greedy choices, and hands them back.

use vstd::prelude::*;

use crate::mtp_batch::{LlamaMtpBatch, MtpBatchView};
use crate::orchestration::helpers::{compose_emitted, sequential_positions};
use crate::orchestration::session::{
    consecutive_batch, verify_batch, verify_outcome, AcceptError, MtpSession, Rollback, SessionView,
    TargetBatch, VerifyError, VerifyOutcome,
};
use crate::token::LlamaToken;

verus! {

/// The sequence that is generated.
pub const SEQ_ID: i32 = 0;

/// What a generation run comes to.
#[derive(Debug)]
pub struct GenerateOutput {
    /// The generated tokens, without the prompt.
    pub tokens: Vec<LlamaToken>,
    /// How many drafts the target accepted.
    pub accepted_total: usize,
    /// How many forward passes the target ran after the prompt.
    pub target_passes: usize,
}

/// What one step commits, for the caller to carry over to the two contexts.
#[derive(Debug)]
pub struct Commit {
    /// The accepted drafts and the target's own token behind them.
    pub outcome: VerifyOutcome,
    /// What the target must forget, or nothing if there were no drafts.
    pub rollback: Option<Rollback>,
    /// The tokens to mirror onto the draft: the last token and the accepted
    /// drafts.
    pub mirror_tokens: Vec<LlamaToken>,
    /// The positions of these tokens.
    pub mirror_positions: Vec<i32>,
}

impl Commit {
    /// What every commit satisfies: as many tokens are mirrored as drafts were
    /// accepted and one more, at as many positions, and the next position is not
    /// negative.
    pub open spec fn wf(&self) -> bool {
        &&& self.mirror_tokens@.len() == self.outcome.n_accepted + 1
        &&& self.mirror_positions@.len() == self.mirror_tokens@.len()
        &&& self.mirror_tokens@.len() <= i32::MAX
        &&& self.outcome.next_pos >= 0
    }

    /// Whether the step can be carried over, given whether the target forgot
    /// what it must.
    pub open spec fn proceeds(&self, rolled_back: bool) -> bool {
        self.rollback is None || rolled_back
    }
}

/// The loop, as values.
#[verifier::ext_equal]
pub struct GenerateView {
    /// How many tokens are wanted.
    pub n_predict: nat,
    /// The last token, which the target has not decoded yet.
    pub id_last: LlamaToken,
    /// The position of that token; the target holds every position before it.
    pub n_past: int,
    /// The tokens generated so far.
    pub tokens: Seq<LlamaToken>,
    /// How many drafts were accepted so far.
    pub accepted_total: nat,
    /// How many passes the target ran so far.
    pub target_passes: nat,
    /// Whether an end-of-generation token was generated.
    pub ended: bool,
}

/// How many of the tokens that a step emits are taken when `room` more are
/// wanted: those up to the first that ends the generation, but no more than
/// wanted. Which of them end it is what `ends` says.
pub open spec fn taken(ends: Seq<bool>, room: nat) -> nat
    decreases ends.len(),
{
    if ends.len() == 0 || room == 0 {
        0
    } else if ends[0] {
        1
    } else {
        1 + taken(ends.drop_first(), (room - 1) as nat)
    }
}

/// Whether the last of the taken tokens ends the generation.
pub open spec fn taken_ends(ends: Seq<bool>, room: nat) -> bool {
    taken(ends, room) > 0 && ends[taken(ends, room) - 1]
}

impl GenerateView {
    /// The loop after the prompt of `n_prompt` tokens, behind which the target
    /// puts `first`.
    pub open spec fn start(
        n_prompt: nat,
        first: LlamaToken,
        first_ends: bool,
        n_predict: nat,
    ) -> Self {
        GenerateView {
            n_predict,
            id_last: first,
            n_past: n_prompt as int,
            tokens: if n_predict > 0 {
                seq![first]
            } else {
                Seq::empty()
            },
            accepted_total: 0,
            target_passes: 0,
            ended: n_predict > 0 && first_ends,
        }
    }

    /// Whether the loop is over.
    pub open spec fn done(self) -> bool {
        self.ended || self.tokens.len() >= self.n_predict
    }

    /// How many of the drafts the target accepts.
    pub open spec fn n_accepted(drafts: Seq<LlamaToken>, chosen: Seq<LlamaToken>) -> nat {
        crate::orchestration::helpers::agreement(chosen.drop_last(), drafts)
    }

    /// The tokens that a step emits, and which of them end the generation: the
    /// target's choices up to the first that is not the draft.
    pub open spec fn emitted<T>(
        drafts: Seq<LlamaToken>,
        chosen: Seq<LlamaToken>,
        of: Seq<T>,
    ) -> Seq<T> {
        of.take(Self::n_accepted(drafts, chosen) as int + 1)
    }

    /// The loop after a step in which `drafts` were verified, the target chose
    /// `chosen`, and `ends` says which of these choices end the generation.
    pub open spec fn step(
        self,
        drafts: Seq<LlamaToken>,
        chosen: Seq<LlamaToken>,
        ends: Seq<bool>,
    ) -> Self {
        let n = Self::n_accepted(drafts, chosen);
        let room = (self.n_predict - self.tokens.len()) as nat;
        let ends_now = Self::emitted(drafts, chosen, ends);
        let ended = taken_ends(ends_now, room);
        GenerateView {
            n_predict: self.n_predict,
            id_last: if ended {
                self.id_last
            } else {
                chosen[n as int]
            },
            n_past: if ended {
                self.n_past
            } else {
                self.n_past + n + 1
            },
            tokens: self.tokens + chosen.take(taken(ends_now, room) as int),
            accepted_total: self.accepted_total + n,
            target_passes: self.target_passes + 1,
            ended,
        }
    }
}

/// The draft, verify, accept loop.
///
/// Between steps the target holds every position before the last token, and the
/// last token itself is still to be decoded.
#[derive(Debug)]
pub struct MtpGenerate {
    /// How many tokens are wanted.
    n_predict: usize,
    /// The last token.
    id_last: LlamaToken,
    /// The position of the last token.
    n_past: i32,
    /// The tokens generated so far.
    tokens: Vec<LlamaToken>,
    /// How many drafts were accepted so far.
    accepted_total: usize,
    /// How many passes the target ran so far.
    target_passes: usize,
    /// Whether an end-of-generation token was generated.
    ended: bool,
}

impl View for MtpGenerate {
    type V = GenerateView;

    closed spec fn view(&self) -> GenerateView {
        GenerateView {
            n_predict: self.n_predict as nat,
            id_last: self.id_last,
            n_past: self.n_past as int,
            tokens: self.tokens@,
            accepted_total: self.accepted_total as nat,
            target_passes: self.target_passes as nat,
            ended: self.ended,
        }
    }
}

impl MtpGenerate {
    /// What every loop that is not over satisfies: its counts are covered by
    /// the positions before the last token.
    pub closed spec fn wf(&self) -> bool {
        !self.ended ==> self.accepted_total + self.target_passes < self.n_past
    }
}

/// The batch that decodes the prompt on the target: its tokens at the positions
/// from zero on.
#[must_use]
pub fn prefill_batch(prompt: &[LlamaToken]) -> (r: TargetBatch)
    requires
        0 < prompt@.len() <= i32::MAX,
    ensures
        r.tokens@ == prompt@,
        r.positions@ == crate::orchestration::helpers::positions_from(0, prompt@.len()),
        r.seq_id == SEQ_ID,
        r.positions@.len() == prompt@.len(),
        forall|k: int| 0 <= k < prompt@.len() ==> #[trigger] r.positions@[k] == k,
        r.seq_id == 0,
{
    TargetBatch {
        tokens: crate::slices::copied(prompt),
        positions: sequential_positions(0, prompt.len()),
        seq_id: SEQ_ID,
    }
}

impl MtpGenerate {
    /// Starts the loop after a prompt of `n_prompt` tokens, behind which the
    /// target chose `first`; `first_ends` says whether that token ends the
    /// generation.
    #[must_use]
    pub fn start(
        n_prompt: usize,
        first: LlamaToken,
        first_ends: bool,
        n_predict: usize,
    ) -> (r: Self)
        requires
            0 < n_prompt <= i32::MAX,
        ensures
            r.wf(),
            r@ == GenerateView::start(n_prompt as nat, first, first_ends, n_predict as nat),
            r@.id_last == first,
            r@.n_past == n_prompt,
            n_predict > 0 ==> r@.tokens == seq![first],
    {
        let mut tokens: Vec<LlamaToken> = Vec::new();
        if n_predict > 0 {
            tokens.push(first);
        }
        assert(tokens@ =~= if n_predict > 0 {
            seq![first]
        } else {
            Seq::empty()
        });
        MtpGenerate {
            n_predict,
            id_last: first,
            n_past: n_prompt as i32,
            tokens,
            accepted_total: 0,
            target_passes: 0,
            ended: n_predict > 0 && first_ends,
        }
    }

    /// Whether the loop is over.
    #[must_use]
    pub fn done(&self) -> (r: bool)
        ensures
            r == self@.done(),
            r <==> self@.ended || self@.tokens.len() >= self@.n_predict,
    {
        self.ended || self.tokens.len() >= self.n_predict
    }

    /// The last token, from which the next draft starts.
    #[must_use]
    pub fn id_last(&self) -> (r: LlamaToken)
        ensures
            r == self@.id_last,
    {
        self.id_last
    }

    /// The position of the last token.
    #[must_use]
    pub fn n_past(&self) -> (r: i32)
        ensures
            r == self@.n_past,
    {
        self.n_past
    }

    /// The batch that the target decodes in this step: the last token and the
    /// drafts. Without drafts it is the plain greedy step. A batch that is too
    /// long is refused.
    pub fn target_batch(&self, drafts: &[LlamaToken]) -> (r: Result<TargetBatch, VerifyError>)
        requires
            crate::orchestration::session::batch_fits(drafts@) ==> self@.n_past + drafts@.len()
                <= i32::MAX,
        ensures
            crate::orchestration::session::batch_fits(drafts@) ==> (r matches Ok(batch)
                && batch.is_run(self@.id_last, drafts@, self@.n_past, SEQ_ID)),
            !crate::orchestration::session::batch_fits(drafts@) ==> r == Err::<
                TargetBatch,
                VerifyError,
            >(VerifyError::BatchTooLong),
            r is Ok <==> drafts@.len() < i32::MAX,
            r matches Ok(batch) ==> {
                &&& batch.seq_id == 0
                &&& batch.tokens@.len() == drafts@.len() + 1
                &&& batch.tokens@[0] == self@.id_last
                &&& forall|i: int|
                    0 <= i < drafts@.len() ==> batch.tokens@[i + 1] == #[trigger] drafts@[i]
                &&& batch.positions@.len() == drafts@.len() + 1
                &&& forall|i: int|
                    0 <= i <= drafts@.len() ==> #[trigger] batch.positions@[i] == self@.n_past + i
            },
    {
        verify_batch(self.id_last, drafts, self.n_past, SEQ_ID)
    }

    /// Takes a step: the target decoded [`MtpGenerate::target_batch`] of
    /// `drafts` and chose `chosen`, one token per index of the batch; `ends`
    /// says which of these choices end the generation.
    ///
    /// The commit says what to carry over to the contexts: where there were
    /// drafts, the target forgets every position from the outcome's `next_pos`
    /// on; the draft mirrors the last token and the accepted drafts.
    pub fn step(
        &mut self,
        drafts: &[LlamaToken],
        chosen: &[LlamaToken],
        ends: &[bool],
    ) -> (r: Commit)
        requires
            old(self).wf(),
            !old(self)@.done(),
            chosen@.len() == drafts@.len() + 1,
            ends@.len() == chosen@.len(),
            old(self)@.n_past + GenerateView::n_accepted(drafts@, chosen@) + 1 <= i32::MAX,
        ensures
            final(self).wf(),
            final(self)@ == old(self)@.step(drafts@, chosen@, ends@),
            r.wf(),
            r.outcome.follows(chosen@, drafts@, old(self)@.n_past),
            r.rollback == (if drafts@.len() == 0 {
                None
            } else {
                Some(
                    Rollback {
                        seq_id: SEQ_ID as u32,
                        from_pos: (old(self)@.n_past + GenerateView::n_accepted(drafts@, chosen@)
                            + 1) as u32,
                    },
                )
            }),
            r.mirror_tokens@ == seq![old(self)@.id_last] + r.outcome.accepted@,
            r.mirror_positions@ == crate::orchestration::helpers::positions_from(
                old(self)@.n_past,
                r.outcome.accepted@.len() + 1,
            ),
            r.outcome.n_accepted <= drafts@.len(),
            r.outcome.accepted@ == drafts@.take(r.outcome.n_accepted as int),
            r.outcome.accepted@ == chosen@.take(r.outcome.n_accepted as int),
            r.outcome.next_token == chosen@[r.outcome.n_accepted as int],
            r.outcome.n_accepted < drafts@.len() ==> r.outcome.next_token.0
                != drafts@[r.outcome.n_accepted as int].0,
            r.outcome.next_pos == old(self)@.n_past + r.outcome.n_accepted + 1,
            r.rollback is None <==> drafts@.len() == 0,
            r.rollback matches Some(range) ==> range.seq_id == 0 && range.from_pos
                == r.outcome.next_pos,
            r.mirror_tokens@.len() == r.outcome.n_accepted + 1,
            r.mirror_positions@.len() == r.outcome.n_accepted + 1,
            forall|k: int|
                0 <= k <= r.outcome.n_accepted ==> #[trigger] r.mirror_positions@[k] == old(
                    self,
                )@.n_past + k,
            final(self)@.n_predict == old(self)@.n_predict,
            final(self)@.accepted_total == old(self)@.accepted_total + r.outcome.n_accepted,
            final(self)@.target_passes == old(self)@.target_passes + 1,
            old(self)@.tokens.len() < final(self)@.tokens.len() <= old(self)@.n_predict,
            final(self)@.tokens.len() <= old(self)@.tokens.len() + r.outcome.n_accepted + 1,
            final(self)@.tokens == old(self)@.tokens + chosen@.take(
                final(self)@.tokens.len() - old(self)@.tokens.len(),
            ),
            forall|i: int|
                0 <= i < final(self)@.tokens.len() - old(self)@.tokens.len() - 1
                    ==> !#[trigger] ends@[i],
            final(self)@.ended == ends@[final(self)@.tokens.len() - old(self)@.tokens.len() - 1],
            !final(self)@.ended ==> {
                &&& final(self)@.tokens.len() == old(self)@.n_predict || final(self)@.tokens.len()
                    == old(self)@.tokens.len() + r.outcome.n_accepted + 1
                &&& final(self)@.id_last == r.outcome.next_token
                &&& final(self)@.n_past == r.outcome.next_pos
            },
    {
        proof {
            law_generate_step(self@, drafts@, chosen@, ends@);
        }
        let outcome: VerifyOutcome = verify_outcome(chosen, drafts, self.n_past);
        let n_accepted: usize = outcome.n_accepted;
        let rollback: Option<Rollback> = if drafts.len() == 0 {
            None
        } else {
            Some(Rollback { seq_id: SEQ_ID as u32, from_pos: outcome.next_pos as u32 })
        };
        let mirror: TargetBatch = consecutive_batch(
            self.id_last,
            outcome.accepted.as_slice(),
            self.n_past,
            SEQ_ID,
        );
        let emitted: Vec<LlamaToken> = compose_emitted(
            outcome.accepted.as_slice(),
            outcome.next_token,
        );
        proof {
            crate::orchestration::helpers::lemma_agreement(chosen@.drop_last(), drafts@);
            assert(emitted@ =~= chosen@.take(n_accepted + 1)) by {
                assert forall|i: int| 0 <= i < n_accepted implies emitted@[i] == chosen@[i] by {
                    assert(chosen@.drop_last()[i] == drafts@[i]);
                }
            }
        }
        let ghost ends_now = ends@.take(n_accepted + 1);
        let ghost before = self.tokens@;
        let ghost room = (self.n_predict - self.tokens.len()) as nat;

        let mut stop: bool = false;
        let mut i: usize = 0;
        assert(ends_now.skip(0) =~= ends_now);
        assert(emitted@.take(0) =~= Seq::empty());
        while i < emitted.len() && !stop && self.tokens.len() < self.n_predict
            invariant
                i <= emitted@.len(),
                emitted@.len() == n_accepted + 1,
                n_accepted + 1 <= ends@.len(),
                ends_now == ends@.take(n_accepted + 1),
                emitted@ == chosen@.take(n_accepted + 1),
                self.tokens@ == before + emitted@.take(i as int),
                before.len() + room == self.n_predict,
                stop ==> i > 0 && ends_now[i - 1] && taken(ends_now, room) == i,
                !stop ==> i <= room && taken(ends_now, room) == i + taken(
                    ends_now.skip(i as int),
                    (room - i) as nat,
                ),
                !stop ==> forall|j: int| 0 <= j < i ==> !ends_now[j],
                self.id_last == old(self).id_last,
                self.n_past == old(self).n_past,
                self.n_predict == old(self).n_predict,
                self.accepted_total == old(self).accepted_total,
                self.target_passes == old(self).target_passes,
            decreases emitted@.len() - i,
        {
            self.tokens.push(emitted[i]);
            assert(emitted@.take(i + 1) =~= emitted@.take(i as int).push(emitted@[i as int]));
            assert(ends_now.skip(i as int).drop_first() =~= ends_now.skip(i + 1));
            stop = ends[i];
            i = i + 1;
        }
        assert(emitted@.take(i as int) =~= chosen@.take(i as int));
        assert(taken(ends_now, room) == i);

        self.accepted_total = self.accepted_total + n_accepted;
        self.target_passes = self.target_passes + 1;
        self.ended = stop;
        if !stop {
            self.id_last = outcome.next_token;
            self.n_past = outcome.next_pos;
        }
        Commit {
            outcome,
            rollback,
            mirror_tokens: mirror.tokens,
            mirror_positions: mirror.positions,
        }
    }

    /// What the run comes to.
    #[must_use]
    pub fn output(self) -> (r: GenerateOutput)
        ensures
            r.tokens@ == self@.tokens,
            r.accepted_total == self@.accepted_total,
            r.target_passes == self@.target_passes,
    {
        GenerateOutput {
            tokens: self.tokens,
            accepted_total: self.accepted_total,
            target_passes: self.target_passes,
        }
    }
}

impl<E: Copy> MtpSession<E> {
    /// Carries a committed step over to the session, given whether the target
    /// forgot what it must and the target's rows of the mirrored tokens: the rows
    /// are captured, the prefix is accepted where there were drafts, and the
    /// batch to mirror on the draft comes back.
    ///
    /// A target that did not forget is the error, and the session stays as it
    /// was.
    pub fn carry_over(
        &mut self,
        commit: &Commit,
        rolled_back: bool,
        target_rows: &Vec<Vec<E>>,
    ) -> (r: Result<LlamaMtpBatch<E>, AcceptError>)
        requires
            old(self).wf(),
            commit.proceeds(rolled_back) ==> {
                &&& commit.wf()
                &&& old(self)@.n_embd <= i32::MAX
                &&& target_rows@.len() == commit.mirror_tokens@.len()
                &&& forall|k: int|
                    0 <= k < target_rows@.len() ==> #[trigger] target_rows@[k]@.len() == old(
                        self,
                    )@.n_embd
            },
        ensures
            final(self).wf(),
            !commit.proceeds(rolled_back) ==> {
                &&& r == Err::<LlamaMtpBatch<E>, AcceptError>(AcceptError::RollbackFailed)
                &&& final(self)@ == old(self)@
            },
            r is Ok <==> commit.rollback is None || rolled_back,
            r is Err ==> final(self)@.pending_h == old(self)@.pending_h && final(self)@.rows == old(
                self,
            )@.rows,
            r matches Ok(mirror) ==> {
                &&& mirror@.slots.len() == commit.mirror_tokens@.len()
                &&& forall|k: int|
                    0 <= k < commit.mirror_tokens@.len() ==> {
                        let slot = #[trigger] mirror@.slots[k];
                        &&& slot.token == commit.mirror_tokens@[k]
                        &&& slot.pos == commit.mirror_positions@[k]
                        &&& slot.seq_id == 0
                        &&& !slot.logits
                        &&& k == 0 ==> slot.embd == old(self)@.pending_h
                        &&& k > 0 ==> slot.embd == target_rows@[k - 1]@
                    }
                &&& final(self)@.pending_h == target_rows@[target_rows@.len() - 1]@
                &&& final(self)@.rows.len() == target_rows@.len()
                &&& forall|k: int|
                    0 <= k < target_rows@.len() ==> #[trigger] final(self)@.rows[k]
                        == target_rows@[k]@
            },
            commit.proceeds(rolled_back) ==> {
                &&& r matches Ok(mirror)
                &&& mirror.wf()
                &&& mirror@ == (MtpBatchView {
                    capacity: commit.mirror_tokens@.len(),
                    n_embd: old(self)@.n_embd,
                    slots: crate::orchestration::session::mirror_slots(
                        old(self)@.pending_h,
                        commit.mirror_tokens@,
                        crate::orchestration::session::rows_of(target_rows@),
                        commit.mirror_positions@,
                        SEQ_ID,
                    ),
                })
                &&& final(self)@ == (SessionView {
                    pending_h: crate::orchestration::session::rows_of(target_rows@).last(),
                    rows: crate::orchestration::session::rows_of(target_rows@),
                    ..old(self)@
                })
            },
    {
        if commit.rollback.is_some() && !rolled_back {
            return Err(AcceptError::RollbackFailed);
        }
        let mirror: LlamaMtpBatch<E> = self.sync_capture(
            target_rows,
            commit.mirror_tokens.as_slice(),
            commit.mirror_positions.as_slice(),
            SEQ_ID,
        ).unwrap();
        if commit.rollback.is_some() {
            proof {
                crate::orchestration::session::law_accept_after_capture(
                    self@,
                    commit.outcome.n_accepted as nat,
                );
            }
            match self.accept(commit.outcome.n_accepted, commit.outcome.next_pos, SEQ_ID, true) {
                Ok(()) => {},
                Err(e) => return Err(e),
            }
        }
        Ok(mirror)
    }
}

/// The plain loop, as values.
#[verifier::ext_equal]
pub struct BaselineView {
    /// How many tokens are wanted.
    pub n_predict: nat,
    /// The position of the next token.
    pub n_past: int,
    /// The tokens generated so far.
    pub tokens: Seq<LlamaToken>,
    /// Whether an end-of-generation token was generated.
    pub ended: bool,
}

impl BaselineView {
    /// The loop after a prompt of `n_prompt` tokens.
    pub open spec fn start(n_prompt: nat, n_predict: nat) -> Self {
        BaselineView { n_predict, n_past: n_prompt as int, tokens: Seq::empty(), ended: false }
    }

    /// Whether the loop is over.
    pub open spec fn done(self) -> bool {
        self.ended || self.tokens.len() >= self.n_predict
    }

    /// The loop after the target chose `next`, which ends the generation if
    /// `ends`.
    pub open spec fn step(self, next: LlamaToken, ends: bool) -> Self {
        BaselineView {
            n_predict: self.n_predict,
            n_past: if ends {
                self.n_past
            } else {
                self.n_past + 1
            },
            tokens: self.tokens.push(next),
            ended: ends,
        }
    }
}

/// The plain greedy loop on the target alone, one token per pass.
#[derive(Debug)]
pub struct BaselineGenerate {
    /// How many tokens are wanted.
    n_predict: usize,
    /// The position of the next token.
    n_past: i32,
    /// The tokens generated so far.
    tokens: Vec<LlamaToken>,
    /// Whether an end-of-generation token was generated.
    ended: bool,
}

impl View for BaselineGenerate {
    type V = BaselineView;

    closed spec fn view(&self) -> BaselineView {
        BaselineView {
            n_predict: self.n_predict as nat,
            n_past: self.n_past as int,
            tokens: self.tokens@,
            ended: self.ended,
        }
    }
}

impl BaselineGenerate {
    /// Starts the loop after a prompt of `n_prompt` tokens.
    #[must_use]
    pub fn start(n_prompt: usize, n_predict: usize) -> (r: Self)
        requires
            0 < n_prompt <= i32::MAX,
        ensures
            r@ == BaselineView::start(n_prompt as nat, n_predict as nat),
    {
        BaselineGenerate {
            n_predict,
            n_past: n_prompt as i32,
            tokens: Vec::new(),
            ended: false,
        }
    }

    /// Whether the loop is over.
    #[must_use]
    pub fn done(&self) -> (r: bool)
        ensures
            r == self@.done(),
            r <==> self@.ended || self@.tokens.len() >= self@.n_predict,
    {
        self.ended || self.tokens.len() >= self.n_predict
    }

    /// Takes the target's choice `next`; `ends` says whether it ends the
    /// generation. Unless it does, the target is to decode the batch given back.
    pub fn step(&mut self, next: LlamaToken, ends: bool) -> (r: Option<TargetBatch>)
        requires
            !old(self)@.done(),
            !ends ==> old(self)@.n_past < i32::MAX,
        ensures
            final(self)@ == old(self)@.step(next, ends),
            r is None <==> ends,
            r matches Some(batch) ==> {
                &&& batch.tokens@ == seq![next]
                &&& batch.positions@ == seq![old(self)@.n_past as i32]
                &&& batch.seq_id == SEQ_ID
                &&& batch.positions@[0] == old(self)@.n_past
                &&& batch.seq_id == 0
            },
            final(self)@.tokens == old(self)@.tokens.push(next),
            final(self)@.ended == ends,
            final(self)@.n_predict == old(self)@.n_predict,
            !ends ==> final(self)@.n_past == old(self)@.n_past + 1,
    {
        self.tokens.push(next);
        if ends {
            self.ended = true;
            return None;
        }
        let no_drafts: Vec<LlamaToken> = Vec::new();
        let batch: TargetBatch = consecutive_batch(next, no_drafts.as_slice(), self.n_past, SEQ_ID);
        assert(batch.tokens@ =~= seq![next]);
        assert(batch.positions@ =~= seq![self.n_past]);
        self.n_past = self.n_past + 1;
        Some(batch)
    }

    /// The tokens generated.
    #[must_use]
    pub fn output(self) -> (r: Vec<LlamaToken>)
        ensures
            r@ == self@.tokens,
    {
        self.tokens
    }
}

/// How many tokens are taken: no more than there are or than are wanted; none
/// but the last ends the generation; and fewer than both only where the last one
/// does. It is said to end exactly when the last one taken does.
pub proof fn law_taken(ends: Seq<bool>, room: nat)
    ensures
        taken(ends, room) <= ends.len(),
        taken(ends, room) <= room,
        forall|i: int| 0 <= i < taken(ends, room) - 1 ==> !#[trigger] ends[i],
        taken(ends, room) < ends.len() && taken(ends, room) < room ==> taken(ends, room) > 0
            && ends[taken(ends, room) - 1],
        taken_ends(ends, room) <==> exists|i: int|
            0 <= i < taken(ends, room) && #[trigger] ends[i],
    decreases ends.len(),
{
    if ends.len() > 0 && room > 0 && !ends[0] {
        let rest = ends.drop_first();
        law_taken(rest, (room - 1) as nat);
        let k = taken(rest, (room - 1) as nat);
        assert forall|i: int| 0 <= i < taken(ends, room) - 1 implies !#[trigger] ends[i] by {
            if i > 0 {
                assert(!rest[i - 1]);
            }
        }
        if k > 0 {
            assert(rest[k - 1] == ends[k as int]);
        }
    }
    if taken_ends(ends, room) {
        assert(ends[taken(ends, room) - 1]);
    }
}

/// How the speculative loop starts: behind the prompt, with the target's first
/// token as its last and, if any are wanted, its only token. It is over at once
/// exactly when none or no more is wanted or that token ends the generation.
pub proof fn law_generate_start(
    n_prompt: nat,
    first: LlamaToken,
    first_ends: bool,
    n_predict: nat,
)
    ensures
        ({
            let v = GenerateView::start(n_prompt, first, first_ends, n_predict);
            &&& v.n_predict == n_predict
            &&& v.id_last == first
            &&& v.n_past == n_prompt
            &&& n_predict > 0 ==> v.tokens.len() == 1 && v.tokens[0] == first && v.ended
                == first_ends
            &&& n_predict == 0 ==> v.tokens.len() == 0
            &&& v.accepted_total == 0
            &&& v.target_passes == 0
            &&& v.done() <==> n_predict <= 1 || first_ends
        }),
{
}

/// What a step of the speculative loop does. It accepts the leading drafts that
/// the target chose itself, up to the first that it did not. It takes the target's own choices up to
/// the first that was not drafted: all of them, unless one ends the generation
/// or no more are wanted. Unless it ended, the loop goes on from the target's
/// choice behind the accepted drafts, that many places and one further.
pub proof fn law_generate_step(
    v: GenerateView,
    drafts: Seq<LlamaToken>,
    chosen: Seq<LlamaToken>,
    ends: Seq<bool>,
)
    requires
        !v.ended,
        v.tokens.len() < v.n_predict,
        chosen.len() == drafts.len() + 1,
        ends.len() == chosen.len(),
    ensures
        ({
            let n = GenerateView::n_accepted(drafts, chosen) as int;
            &&& n <= drafts.len()
            &&& forall|i: int| 0 <= i < n ==> #[trigger] chosen[i] == drafts[i]
            &&& n < drafts.len() ==> chosen[n] != drafts[n]
        }),
        ({
            let n = GenerateView::n_accepted(drafts, chosen) as int;
            let w = v.step(drafts, chosen, ends);
            let k = w.tokens.len() - v.tokens.len();
            &&& w.n_predict == v.n_predict
            &&& w.accepted_total == v.accepted_total + n
            &&& w.target_passes == v.target_passes + 1
            &&& 0 < k <= n + 1
            &&& w.tokens.len() <= v.n_predict
            &&& w.tokens == v.tokens + chosen.take(k)
            &&& forall|i: int| 0 <= i < k - 1 ==> !#[trigger] ends[i]
            &&& w.ended == ends[k - 1]
            &&& !w.ended ==> w.tokens.len() == v.n_predict || k == n + 1
            &&& !w.ended ==> w.id_last == chosen[n] && w.n_past == v.n_past + n + 1
            &&& w.ended ==> w.id_last == v.id_last && w.n_past == v.n_past
            &&& w.done() <==> w.ended || w.tokens.len() == w.n_predict
        }),
{
    let n = GenerateView::n_accepted(drafts, chosen) as int;
    crate::orchestration::helpers::lemma_agreement(chosen.drop_last(), drafts);
    assert forall|i: int| 0 <= i < n implies #[trigger] chosen[i] == drafts[i] by {
        assert(chosen.drop_last()[i] == drafts[i]);
    }
    let ends_now = ends.take(n + 1);
    let room = (v.n_predict - v.tokens.len()) as nat;
    law_taken(ends_now, room);
    let k = taken(ends_now, room);
    assert forall|i: int| 0 <= i < k - 1 implies !#[trigger] ends[i] by {
        assert(!ends_now[i]);
    }
    assert(ends_now[k - 1] == ends[k - 1]);
}

/// How the plain loop goes: it starts behind the prompt with no token, every step
/// adds the target's choice, and one place further unless that choice ends the
/// generation. It is over when a token ended it or as many came as are wanted.
pub proof fn law_baseline_steps(
    n_prompt: nat,
    n_predict: nat,
    v: BaselineView,
    next: LlamaToken,
    ends: bool,
)
    ensures
        BaselineView::start(n_prompt, n_predict).n_predict == n_predict,
        BaselineView::start(n_prompt, n_predict).n_past == n_prompt,
        BaselineView::start(n_prompt, n_predict).tokens.len() == 0,
        !BaselineView::start(n_prompt, n_predict).ended,
        v.step(next, ends).n_predict == v.n_predict,
        v.step(next, ends).tokens.len() == v.tokens.len() + 1,
        v.step(next, ends).tokens.last() == next,
        v.step(next, ends).tokens.drop_last() == v.tokens,
        v.step(next, ends).ended == ends,
        v.step(next, ends).n_past == v.n_past + (if ends {
            0int
        } else {
            1int
        }),
        v.done() <==> v.ended || v.tokens.len() >= v.n_predict,
{
    assert(v.step(next, ends).tokens.drop_last() =~= v.tokens);
}

/// A committed step is carried over exactly when there was nothing to roll back
/// or it was rolled back; a commit is in order exactly when its parts agree in
/// number and the next position is not negative.
pub proof fn law_commit(commit: Commit, rolled_back: bool)
    ensures
        commit.proceeds(rolled_back) <==> commit.rollback is None || rolled_back,
        commit.wf() <==> {
            &&& commit.mirror_tokens@.len() == commit.outcome.n_accepted + 1
            &&& commit.mirror_positions@.len() == commit.outcome.n_accepted + 1
            &&& commit.outcome.n_accepted < i32::MAX
            &&& 0 <= commit.outcome.next_pos
        },
{
}

} // verus!
