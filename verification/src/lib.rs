//! Contract Kit command-line core: bounded catalog and output accounting,
//! compiler-extraction ledgers, argument validation, archive framing, and
//! source-coordinate resolution.

pub mod archive;
pub mod args;
pub mod bounded_output;
pub mod cancellation;
pub mod catalog;
pub mod error;
pub mod generation;
pub mod ownership;
pub mod paths;
pub mod recovery;
pub mod text;
pub mod work;
pub mod compiler;
pub mod contracts;
