//! Token ids.

use vstd::prelude::*;

verus! {

/// A token id of the model's vocabulary.
#[derive(Clone, Copy, Debug, PartialEq, Eq, Structural, PartialOrd, Ord, Hash)]
pub struct LlamaToken(pub i32);

} // verus!
