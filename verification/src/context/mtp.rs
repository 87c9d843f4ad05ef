//! Decoding of MTP batches, and the nextn hidden rows that the MTP head
//! consumes.

use vstd::prelude::*;

use crate::context::{ContextView, DecodeError, LlamaContext};
use crate::mtp_batch::LlamaMtpBatch;

verus! {

/// The nextn row out of what the backend shows at the address it returned:
/// nothing when it returned no address, else the first `n_embd` elements.
///
/// At least `n_embd` elements must be readable there.
pub fn nextn_slice<'a, E>(row: Option<&'a [E]>, n_embd: usize) -> (r: Option<&'a [E]>)
    requires
        row matches Some(s) ==> s@.len() >= n_embd,
    ensures
        r is None <==> row is None,
        row matches Some(s) ==> r->0@ == s@.take(n_embd as int),
{
    match row {
        None => None,
        Some(s) => Some(vstd::slice::slice_subrange(s, 0, n_embd)),
    }
}

impl LlamaContext {
    /// Ends the decode of an MTP batch whose buffers the backend was given, with
    /// the code `result` that the backend returned.
    ///
    /// Zero is success: the context then takes over the positions whose logits
    /// the batch requested. Any other code is the error, and the context stays
    /// as it was.
    pub fn decode_mtp<E: Copy>(
        &mut self,
        batch: &mut LlamaMtpBatch<E>,
        result: i32,
    ) -> (r: Result<(), DecodeError>)
        requires
            old(batch).wf(),
        ensures
            *final(batch) == *old(batch),
            r == (if result == 0 {
                Ok::<(), DecodeError>(())
            } else {
                Err(DecodeError { code: result })
            }),
            final(self)@ == (if result == 0 {
                ContextView {
                    initialized_logits: crate::mtp_batch::logit_positions(old(batch)@.slots),
                    ..old(self)@
                }
            } else {
                old(self)@
            }),
            result == 0 ==> forall|i: i32|
                #[trigger] final(self)@.initialized_logits.contains(i) <==> 0 <= i < old(
                    batch,
                )@.slots.len() && old(batch)@.slots[i as int].logits,
            final(self)@.n_embd == old(self)@.n_embd,
    {
        proof {
            batch.law_limits();
            crate::mtp_batch::law_logit_positions(batch@.slots);
        }
        if result == 0 {
            self.set_initialized_logits(batch.initialized_logits());
            Ok(())
        } else {
            Err(DecodeError { code: result })
        }
    }

    /// The nextn row for one output, given what the backend shows for it.
    ///
    /// The row borrows from the context, so no decode can run while it is held.
    #[must_use]
    pub fn get_embeddings_nextn_ith<'a, E>(&'a self, row: Option<&'a [E]>) -> (r: Option<&'a [E]>)
        requires
            0 <= self@.n_embd,
            row matches Some(s) ==> s@.len() >= self@.n_embd,
        ensures
            r is None <==> row is None,
            row matches Some(s) ==> r->0@ == s@.take(self@.n_embd),
    {
        nextn_slice(row, self.n_embd() as usize)
    }

    /// The nextn row of the whole batch, given what the backend shows for it.
    ///
    /// The row borrows from the context, so no decode can run while it is held.
    #[must_use]
    pub fn get_embeddings_nextn<'a, E>(&'a self, rows: Option<&'a [E]>) -> (r: Option<&'a [E]>)
        requires
            0 <= self@.n_embd,
            rows matches Some(s) ==> s@.len() >= self@.n_embd,
        ensures
            r is None <==> rows is None,
            rows matches Some(s) ==> r->0@ == s@.take(self@.n_embd),
    {
        nextn_slice(rows, self.n_embd() as usize)
    }
}

} // verus!
