//! Resolution of ambiguous build artifacts for a freestanding executable.
//!
//! A compiler's output cache may hold several candidates for one logical
//! crate. This library decides which candidates to try, in which order, when
//! to stop trying, and which successful link wins. It performs no I/O: the
//! caller reads manifests and runs the tools, and hands plain values in.

pub mod launch;
pub mod manifest;
pub mod request;
pub mod search;
pub mod staging;
pub mod text;
pub mod tools;
