//! Generation of strict JSON object deserializers for record types.
//!
//! Given an ordered schema of field declarations (name and declared type),
//! the crate synthesizes a deterministic parse plan and renders it as the
//! source text of a deserialization routine.  The plan itself is executable:
//! `run` applies it to an input buffer, so the behaviour the generated
//! routine is supposed to have can be exercised and reasoned about directly.
//!
//! Parsing is strict: every declared field is required, unknown fields are
//! rejected, and the first failure aborts the whole parse.

pub mod emit;
pub mod plan;
pub mod run;
pub mod runtime;
pub mod schema;
