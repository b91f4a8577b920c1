//! Verified core of two stream viewers: a line-echoing viewer that copies
//! each source in full under a numbering policy, and a bounded-prefix viewer
//! that copies at most a line- or byte-ceiling from each source.
//!
//! The library works on plain bytes: callers open each source, read its
//! content, and hand the bytes in; the library returns the exact bytes to
//! write to the output and diagnostic streams.

pub mod batch;
pub mod cat;
pub mod echo;
pub mod head;
pub mod lines;
pub mod parse;
