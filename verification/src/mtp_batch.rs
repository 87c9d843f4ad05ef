//! A batch that carries a token id and an embedding row for every position, as
//! the MTP draft head needs it.
//!
//! The rows lie behind one another in one buffer, in the layout that the
//! backend reads: position `k` owns the elements `k * n_embd` up to
//! `(k + 1) * n_embd`. The element type `E` is left open: nothing here reads an
//! element, rows are only copied.

use vstd::prelude::*;

use crate::llama_batch::BatchAddError;
use crate::token::LlamaToken;

verus! {

/// One position of a batch, as a value.
#[verifier::ext_equal]
pub struct Slot<E> {
    /// The token at this position.
    pub token: LlamaToken,
    /// The hidden row that goes with the token.
    pub embd: Seq<E>,
    /// The position in the sequence.
    pub pos: i32,
    /// The sequence the position belongs to.
    pub seq_id: i32,
    /// Whether logits are requested here.
    pub logits: bool,
}

/// What a batch holds: its limits, and its positions in the order of adding.
#[verifier::ext_equal]
pub struct MtpBatchView<E> {
    /// How many positions fit.
    pub capacity: nat,
    /// The length of every row.
    pub n_embd: nat,
    /// The positions added since the batch was made or cleared.
    pub slots: Seq<Slot<E>>,
}

impl<E> MtpBatchView<E> {
    /// The batch with one more position behind the others.
    pub open spec fn push(self, slot: Slot<E>) -> Self {
        MtpBatchView { slots: self.slots.push(slot), ..self }
    }

    /// The batch with no position left.
    pub open spec fn cleared(self) -> Self {
        MtpBatchView { slots: Seq::empty(), ..self }
    }

    /// Whether no further position fits.
    pub open spec fn is_full(self) -> bool {
        self.slots.len() >= self.capacity
    }
}

/// The indices of the positions whose logits are requested, in order.
pub open spec fn logit_positions<E>(slots: Seq<Slot<E>>) -> Seq<i32>
    decreases slots.len(),
{
    if slots.len() == 0 {
        Seq::empty()
    } else if slots.last().logits {
        logit_positions(slots.drop_last()).push((slots.len() - 1) as i32)
    } else {
        logit_positions(slots.drop_last())
    }
}

/// The buffers of a batch as the backend reads them, one entry per position and
/// `n_embd` elements of `embd` per position.
#[derive(Debug)]
pub struct BatchBuffers<E> {
    /// The number of positions filled.
    pub n_tokens: i32,
    /// The token ids.
    pub token: Vec<i32>,
    /// The embedding rows, one behind the other.
    pub embd: Vec<E>,
    /// The positions in the sequence.
    pub pos: Vec<i32>,
    /// The number of sequences of each position.
    pub n_seq_id: Vec<i32>,
    /// The sequence of each position.
    pub seq_id: Vec<i32>,
    /// The logits flag of each position, zero or one.
    pub logits: Vec<i8>,
}

impl<E> BatchBuffers<E> {
    /// Whether the buffers hold `n_tokens` positions with rows of length
    /// `n_embd`, each on one sequence and with a flag of zero or one.
    pub open spec fn laid_out(&self, n_embd: nat) -> bool {
        &&& 0 <= self.n_tokens
        &&& self.token@.len() == self.n_tokens
        &&& self.embd@.len() == self.n_tokens * n_embd
        &&& self.pos@.len() == self.n_tokens
        &&& self.n_seq_id@.len() == self.n_tokens
        &&& self.seq_id@.len() == self.n_tokens
        &&& self.logits@.len() == self.n_tokens
        &&& forall|k: int| 0 <= k < self.n_tokens ==> #[trigger] self.n_seq_id@[k] == 1
        &&& forall|k: int|
            0 <= k < self.n_tokens ==> (#[trigger] self.logits@[k] == 0 || self.logits@[k] == 1)
    }

    /// The position that the buffers hold at index `k`.
    pub open spec fn slot(&self, n_embd: nat, k: int) -> Slot<E> {
        Slot {
            token: LlamaToken(self.token@[k]),
            embd: crate::slices::row(self.embd@, n_embd, k),
            pos: self.pos@[k],
            seq_id: self.seq_id@[k],
            logits: self.logits@[k] == 1,
        }
    }

    /// The positions that the buffers hold.
    pub open spec fn slots(&self, n_embd: nat) -> Seq<Slot<E>> {
        Seq::new(self.n_tokens as nat, |k: int| self.slot(n_embd, k))
    }
}

/// A batch that carries both token ids and per-position embedding rows.
#[derive(Debug)]
pub struct LlamaMtpBatch<E> {
    /// The number of positions the batch was made for.
    allocated: usize,
    /// The length of the row of each position.
    n_embd: usize,
    /// The positions whose logits were requested, in insertion order.
    initialized_logits: Vec<i32>,
    /// The buffers that are handed to the backend.
    inner: BatchBuffers<E>,
}

impl<E> View for LlamaMtpBatch<E> {
    type V = MtpBatchView<E>;

    closed spec fn view(&self) -> MtpBatchView<E> {
        MtpBatchView {
            capacity: self.allocated as nat,
            n_embd: self.n_embd as nat,
            slots: self.inner.slots(self.n_embd as nat),
        }
    }
}

impl<E> LlamaMtpBatch<E> {
    /// What every batch satisfies: the limits fit the backend's integers, no
    /// more positions are held than were allocated, the buffers have the
    /// backend's layout, and the requested logits are those of the flags.
    pub closed spec fn wf(&self) -> bool {
        &&& self.allocated <= i32::MAX
        &&& self.n_embd <= i32::MAX
        &&& self.inner.n_tokens <= self.allocated
        &&& self.inner.laid_out(self.n_embd as nat)
        &&& self.initialized_logits@ == logit_positions(self@.slots)
    }

    /// Every batch keeps its limits: no more positions than it was made for,
    /// each with a row of the batch's length.
    pub proof fn law_limits(&self)
        requires
            self.wf(),
        ensures
            self@.capacity <= i32::MAX,
            self@.n_embd <= i32::MAX,
            self@.slots.len() <= self@.capacity,
            forall|k: int| 0 <= k < self@.slots.len() ==> #[trigger] self@.slots[k].embd.len() == self@.n_embd,
    {
        assert forall|k: int| 0 <= k < self@.slots.len() implies #[trigger] self@.slots[k].embd.len()
            == self@.n_embd by {
            crate::slices::lemma_row_bounds(k, self.inner.n_tokens as int, self.n_embd as nat);
        }
    }
}

impl<E: Copy> LlamaMtpBatch<E> {
    /// Makes a batch for up to `n_tokens` positions, each with a row of length
    /// `n_embd`.
    #[must_use]
    pub fn new(n_tokens: usize, n_embd: usize) -> (r: Self)
        requires
            n_tokens <= i32::MAX,
            n_embd <= i32::MAX,
        ensures
            r.wf(),
            r@ == (MtpBatchView::<E> {
                capacity: n_tokens as nat,
                n_embd: n_embd as nat,
                slots: Seq::empty(),
            }),
    {
        let r = LlamaMtpBatch {
            allocated: n_tokens,
            n_embd,
            initialized_logits: Vec::new(),
            inner: BatchBuffers {
                n_tokens: 0,
                token: Vec::new(),
                embd: Vec::new(),
                pos: Vec::new(),
                n_seq_id: Vec::new(),
                seq_id: Vec::new(),
                logits: Vec::new(),
            },
        };
        assert(r@.slots =~= Seq::empty());
        r
    }

    /// Adds the next position: its token, its row, its place `pos` on sequence
    /// `seq_id`, and whether its logits are requested.
    ///
    /// A full batch answers `InsufficientSpace` with its capacity; otherwise a
    /// row of another length than the batch's answers `EmbdLengthMismatch`.
    /// Neither changes the batch.
    pub fn add(
        &mut self,
        token: LlamaToken,
        embd: &[E],
        pos: i32,
        seq_id: i32,
        logits: bool,
    ) -> (r: Result<(), BatchAddError>)
        requires
            old(self).wf(),
        ensures
            final(self).wf(),
            r == (if old(self)@.is_full() {
                Err::<(), BatchAddError>(
                    BatchAddError::InsufficientSpace(old(self)@.capacity as usize),
                )
            } else if embd@.len() != old(self)@.n_embd {
                Err(
                    BatchAddError::EmbdLengthMismatch {
                        expected: old(self)@.n_embd as usize,
                        actual: embd@.len() as usize,
                    },
                )
            } else {
                Ok(())
            }),
            r is Ok ==> final(self)@ == old(self)@.push(
                Slot { token, embd: embd@, pos, seq_id, logits },
            ),
            r is Err ==> final(self)@ == old(self)@,
            r is Ok <==> old(self)@.slots.len() < old(self)@.capacity && embd@.len() == old(
                self,
            )@.n_embd,
            r matches Err(BatchAddError::InsufficientSpace(n)) ==> n == old(self)@.capacity
                && old(self)@.slots.len() == old(self)@.capacity,
            r matches Err(BatchAddError::EmbdLengthMismatch { expected, actual }) ==> {
                &&& old(self)@.slots.len() < old(self)@.capacity
                &&& expected == old(self)@.n_embd
                &&& actual == embd@.len()
            },
            final(self)@.capacity == old(self)@.capacity,
            final(self)@.n_embd == old(self)@.n_embd,
            r is Err ==> final(self)@.slots == old(self)@.slots,
            r is Ok ==> {
                &&& final(self)@.slots.len() == old(self)@.slots.len() + 1
                &&& final(self)@.slots.drop_last() == old(self)@.slots
                &&& final(self)@.slots.last().token == token
                &&& final(self)@.slots.last().embd == embd@
                &&& final(self)@.slots.last().pos == pos
                &&& final(self)@.slots.last().seq_id == seq_id
                &&& final(self)@.slots.last().logits == logits
            },
    {
        if self.inner.n_tokens as usize >= self.allocated {
            return Err(BatchAddError::InsufficientSpace(self.allocated));
        }
        if embd.len() != self.n_embd {
            return Err(
                BatchAddError::EmbdLengthMismatch { expected: self.n_embd, actual: embd.len() },
            );
        }
        let offset: i32 = self.inner.n_tokens;
        let ghost old_buf = self.inner;
        let ghost n = self.n_embd as nat;

        self.inner.token.push(token.0);
        crate::slices::append_copied(&mut self.inner.embd, embd);
        self.inner.pos.push(pos);
        self.inner.n_seq_id.push(1);
        self.inner.seq_id.push(seq_id);
        self.inner.logits.push(if logits { 1 } else { 0 });
        if logits {
            self.initialized_logits.push(offset);
        }
        self.inner.n_tokens = offset + 1;

        proof {
            let slot = Slot { token, embd: embd@, pos, seq_id, logits };
            crate::slices::lemma_row_appended(old_buf.embd@, n, offset as nat, embd@);
            assert forall|k: int| 0 <= k < offset + 1 implies self.inner.slot(n, k)
                == old_buf.slots(n).push(slot)[k] by {
                if k < offset {
                    assert(crate::slices::row(self.inner.embd@, n, k) == crate::slices::row(
                        old_buf.embd@,
                        n,
                        k,
                    ));
                }
            }
            assert(self.inner.slots(n) =~= old_buf.slots(n).push(slot));
            assert(self@.slots.drop_last() =~= old_buf.slots(n));
        }
        Ok(())
    }

    /// Takes every position out, so that the batch can be filled anew; the
    /// memory stays.
    pub fn clear(&mut self)
        requires
            old(self).wf(),
        ensures
            final(self).wf(),
            final(self)@ == old(self)@.cleared(),
            final(self)@.slots.len() == 0,
            final(self)@.capacity == old(self)@.capacity,
            final(self)@.n_embd == old(self)@.n_embd,
    {
        self.inner.n_tokens = 0;
        self.inner.token.clear();
        self.inner.embd.clear();
        self.inner.pos.clear();
        self.inner.n_seq_id.clear();
        self.inner.seq_id.clear();
        self.inner.logits.clear();
        self.initialized_logits.clear();
        assert(self@.slots =~= Seq::empty());
    }

    /// The number of positions in the batch.
    #[must_use]
    pub fn n_tokens(&self) -> (r: i32)
        requires
            self.wf(),
        ensures
            r == self@.slots.len(),
    {
        self.inner.n_tokens
    }

    /// The positions whose logits were requested, in insertion order.
    #[must_use]
    pub fn initialized_logits(&self) -> (r: &Vec<i32>)
        requires
            self.wf(),
        ensures
            r@ == logit_positions(self@.slots),
    {
        &self.initialized_logits
    }

    /// The buffers to hand to the backend.
    #[must_use]
    pub fn inner(&self) -> (r: &BatchBuffers<E>)
        requires
            self.wf(),
        ensures
            r.laid_out(self@.n_embd),
            r.slots(self@.n_embd) == self@.slots,
            r.n_tokens == self@.slots.len(),
            r.token@.len() == self@.slots.len(),
            r.pos@.len() == self@.slots.len(),
            r.n_seq_id@.len() == self@.slots.len(),
            r.seq_id@.len() == self@.slots.len(),
            r.logits@.len() == self@.slots.len(),
            r.embd@.len() == self@.slots.len() * self@.n_embd,
            forall|k: int|
                0 <= k < self@.slots.len() ==> {
                    let slot = #[trigger] self@.slots[k];
                    &&& r.token@[k] == slot.token.0
                    &&& r.pos@[k] == slot.pos
                    &&& r.n_seq_id@[k] == 1
                    &&& r.seq_id@[k] == slot.seq_id
                    &&& r.logits@[k] == (if slot.logits {
                        1i8
                    } else {
                        0i8
                    })
                    &&& slot.embd.len() == self@.n_embd
                },
            forall|k: int, j: int|
                0 <= k < self@.slots.len() && 0 <= j < self@.n_embd
                    ==> #[trigger] self@.slots[k].embd[j] == r.embd@[k * self@.n_embd + j],
    {
        proof {
            law_buffers(&self.inner, self.n_embd as nat);
        }
        &self.inner
    }
}

/// The requested logits are exactly those of the positions whose flag is set:
/// every index listed is that of such a position, every such position is
/// listed, and the list is strictly increasing, so none is listed twice.
pub proof fn law_logit_positions<E>(slots: Seq<Slot<E>>)
    requires
        slots.len() <= i32::MAX,
    ensures
        forall|j: int|
            0 <= j < logit_positions(slots).len() ==> {
                let i = #[trigger] logit_positions(slots)[j];
                0 <= i < slots.len() && slots[i as int].logits
            },
        forall|i: int|
            0 <= i < slots.len() && (#[trigger] slots[i]).logits ==> logit_positions(
                slots,
            ).contains(i as i32),
        forall|j: int, k: int|
            0 <= j < k < logit_positions(slots).len() ==> logit_positions(slots)[j]
                < logit_positions(slots)[k],
    decreases slots.len(),
{
    if slots.len() > 0 {
        let rest = slots.drop_last();
        law_logit_positions(rest);
        let before = logit_positions(rest);
        let all = logit_positions(slots);
        assert forall|i: int| 0 <= i < slots.len() && (#[trigger] slots[i]).logits implies all.contains(
            i as i32,
        ) by {
            if i < rest.len() {
                assert(rest[i].logits);
                let j = choose|j: int| 0 <= j < before.len() && before[j] == i as i32;
                assert(all[j] == i as i32);
            } else {
                assert(all.last() == i as i32);
            }
        }
    }
}

/// A cleared batch is a fresh batch with the same limits: it holds no position
/// and requests no logits.
pub proof fn law_cleared_is_fresh<E>(batch: MtpBatchView<E>)
    ensures
        batch.cleared() == (MtpBatchView::<E> {
            capacity: batch.capacity,
            n_embd: batch.n_embd,
            slots: Seq::empty(),
        }),
        logit_positions(batch.cleared().slots) == Seq::<i32>::empty(),
{
}

/// A batch reads as its buffers say: for every position the token id, the place,
/// the one sequence and the flag stand at the position's index, and element `j`
/// of its row stands `j` places behind the rows before it.
pub proof fn law_buffers<E>(buffers: &BatchBuffers<E>, n_embd: nat)
    requires
        buffers.laid_out(n_embd),
    ensures
        buffers.n_tokens >= 0,
        buffers.slots(n_embd).len() == buffers.n_tokens,
        buffers.token@.len() == buffers.n_tokens,
        buffers.pos@.len() == buffers.n_tokens,
        buffers.n_seq_id@.len() == buffers.n_tokens,
        buffers.seq_id@.len() == buffers.n_tokens,
        buffers.logits@.len() == buffers.n_tokens,
        buffers.embd@.len() == buffers.n_tokens * n_embd,
        forall|k: int|
            0 <= k < buffers.n_tokens ==> {
                let slot = #[trigger] buffers.slots(n_embd)[k];
                &&& buffers.token@[k] == slot.token.0
                &&& buffers.pos@[k] == slot.pos
                &&& buffers.n_seq_id@[k] == 1
                &&& buffers.seq_id@[k] == slot.seq_id
                &&& buffers.logits@[k] == (if slot.logits {
                    1i8
                } else {
                    0i8
                })
                &&& slot.embd.len() == n_embd
            },
        forall|k: int, j: int|
            0 <= k < buffers.n_tokens && 0 <= j < n_embd
                ==> #[trigger] buffers.slots(n_embd)[k].embd[j] == buffers.embd@[k * n_embd + j],
{
    assert forall|k: int| 0 <= k < buffers.n_tokens implies {
        let slot = #[trigger] buffers.slots(n_embd)[k];
        &&& slot.embd.len() == n_embd
        &&& forall|j: int| 0 <= j < n_embd ==> slot.embd[j] == buffers.embd@[k * n_embd + j]
    } by {
        crate::slices::law_row_elements(buffers.embd@, n_embd, buffers.n_tokens as nat, k);
    }
}

/// One more position leaves the limits and the positions before it as they are
/// and stands behind them, unchanged. Clearing leaves the limits and nothing
/// else. A batch is full when it holds as many positions as fit.
pub proof fn law_batch_changes<E>(batch: MtpBatchView<E>, slot: Slot<E>)
    ensures
        batch.push(slot).capacity == batch.capacity,
        batch.push(slot).n_embd == batch.n_embd,
        batch.push(slot).slots.len() == batch.slots.len() + 1,
        batch.push(slot).slots[batch.slots.len() as int] == slot,
        forall|k: int|
            0 <= k < batch.slots.len() ==> #[trigger] batch.push(slot).slots[k] == batch.slots[k],
        batch.cleared().capacity == batch.capacity,
        batch.cleared().n_embd == batch.n_embd,
        batch.cleared().slots.len() == 0,
        !batch.is_full() <==> batch.slots.len() < batch.capacity,
{
}

} // verus!
