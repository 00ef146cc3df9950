//! Approximate counting of orbit pairs per node pair over a stream of motif
//! records: a family of string hashes, a count-min sketch built on it, the
//! record grammar, and the two-pass pipeline that turns a stream into a report.

pub mod cms;
pub mod hasher;
pub mod parser;
pub mod pipeline;
pub mod text;
