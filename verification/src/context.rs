//! What a context keeps between calls of the backend.

use vstd::prelude::*;

pub mod mtp;
pub mod session;

verus! {

/// A decode that the backend did not complete; holds the backend's code.
#[derive(Clone, Copy, Debug, PartialEq, Eq, Structural)]
pub struct DecodeError {
    /// The code that the backend returned, never zero.
    pub code: i32,
}

/// What a context is made of, as values.
#[verifier::ext_equal]
pub struct ContextView {
    /// The embedding dimension that the model reports.
    pub n_embd: int,
    /// The batch indices whose logits the last successful decode produced.
    pub initialized_logits: Seq<i32>,
}

/// The part of a context that is kept on this side of the backend.
#[derive(Debug)]
pub struct LlamaContext {
    /// The embedding dimension that the model reports.
    n_embd: i32,
    /// The batch indices whose logits the last successful decode produced.
    initialized_logits: Vec<i32>,
}

impl View for LlamaContext {
    type V = ContextView;

    closed spec fn view(&self) -> ContextView {
        ContextView {
            n_embd: self.n_embd as int,
            initialized_logits: self.initialized_logits@,
        }
    }
}

impl LlamaContext {
    /// A context of a model with embedding dimension `n_embd`, before its first
    /// decode.
    #[must_use]
    pub fn new(n_embd: i32) -> (r: Self)
        ensures
            r@ == (ContextView { n_embd: n_embd as int, initialized_logits: Seq::empty() }),
    {
        LlamaContext { n_embd, initialized_logits: Vec::new() }
    }

    /// The embedding dimension that the model reports.
    #[must_use]
    pub fn n_embd(&self) -> (r: i32)
        ensures
            r == self@.n_embd,
    {
        self.n_embd
    }

    /// The batch indices whose logits the last successful decode produced.
    #[must_use]
    pub fn initialized_logits(&self) -> (r: &Vec<i32>)
        ensures
            r@ == self@.initialized_logits,
    {
        &self.initialized_logits
    }

    /// Whether the logits at batch index `i` can be read: the last successful
    /// decode produced them.
    #[must_use]
    pub fn has_logits(&self, i: i32) -> (r: bool)
        ensures
            r == self@.initialized_logits.contains(i),
    {
        for k in 0..self.initialized_logits.len()
            invariant
                forall|j: int| 0 <= j < k ==> self.initialized_logits@[j] != i,
        {
            if self.initialized_logits[k] == i {
                return true;
            }
        }
        false
    }

    /// Takes over the logit positions of a batch that was decoded.
    pub(crate) fn set_initialized_logits(&mut self, positions: &Vec<i32>)
        ensures
            final(self)@ == (ContextView { initialized_logits: positions@, ..old(self)@ }),
    {
        self.initialized_logits = positions.clone();
        assert(self.initialized_logits@ =~= positions@);
    }
}

} // verus!
