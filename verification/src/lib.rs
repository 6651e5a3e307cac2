//! Guardrail for Node.js runtime versions: resolves the requirement string
//! found in a project's `.nvmrc` file into a structured matching rule and
//! evaluates a concrete runtime version against it.
//!
//! The crate holds the semantic core only. Process invocation, file reading
//! and the confirmation prompt live with the caller, which hands raw text in
//! and takes plain values back.

pub mod cli;
pub mod nvmrc;
pub mod requirement;
pub mod text;
pub mod version;
