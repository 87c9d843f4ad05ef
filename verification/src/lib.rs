//! Multi-token-prediction (MTP) drafting on top of a llama.cpp backend.
//!
//! The crate holds the decisions; the backend calls stay with the caller. A
//! function that depends on a backend reply takes that reply as an argument,
//! and its contract says what comes out for every reply.
//!
//! - [`token`], [`llama_batch`] and [`mtp_batch`]: tokens, batch errors and the
//!   embedding-carrying batch that the MTP head consumes.
//! - [`context`]: what a context keeps between decodes, the nextn rows, session
//!   files and per-sequence state.
//! - [`orchestration`]: the draft, verify, accept loop, and what it promises.
//! - [`slices`]: rows that lie behind one another in one buffer.

pub mod context;
pub mod llama_batch;
pub mod mtp_batch;
pub mod orchestration;
pub mod slices;
pub mod token;
