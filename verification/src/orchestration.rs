//! Speculative generation with an MTP draft head: draft, verify, accept.
//!
//! Two contexts run on one model. The draft context proposes a few tokens, the
//! target context verifies them in one pass, and the longest prefix that the
//! target would have chosen itself is kept, together with the target's own next
//! token. The draft only proposes: what is generated is what the target alone
//! would have generated.
//!
//! - [`helpers`]: the decision rules.
//! - [`session`]: the hidden rows carried from step to step, and the phases of
//!   one step.
//! - [`generate`]: the generation loop, and the plain loop without a draft.
//! - [`equivalence`]: that both loops generate the same tokens.

pub mod equivalence;
pub mod generate;
pub mod helpers;
pub mod session;
