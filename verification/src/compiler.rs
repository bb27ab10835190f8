//! Compiler-extraction core: typed failures, the operation-wide resource
//! ledger, cleanup evidence, compiler identity and configuration, and
//! rustdoc source-coordinate resolution.

pub mod error;
pub mod extractor;
pub mod limits;
pub mod probe;
pub mod process;
pub mod reap;
pub mod project;
pub mod session;
pub mod source;
pub mod time;
pub mod translate;
