//! The decision logic of UmaDev's agent for two delivery steps, verified:
//!
//! - [`pr`]: whether a pull request can be opened automatically, the branch
//!   plan (never committing onto the default branch), the manual fallback
//!   recipe and the PR body;
//! - [`runtime_proof`]: the runtime check that boots a dev server and probes
//!   its routes, as a state machine fed with the outcome of each step, and
//!   the pieces it is built from (URL joining, route concretization, curl
//!   status parsing, e2e outcomes, output truncation, PATH lookups).
//!
//! [`text`] holds the specified string helpers both build on, and [`json`]
//! the one question asked of a JSON document.

pub mod json;
pub mod pr;
pub mod runtime_proof;
pub mod text;
