//! An append-only ledger of hash-linked blocks.
//!
//! Every block carries the SHA-256 digest of its own content and a copy of
//! the digest of the block before it. The library builds blocks, validates
//! a candidate against the current tail and appends it, and offers a handle
//! that lets many tasks read and extend one ledger.

pub mod block;
pub mod chain;
mod clock;
pub mod digest;
pub mod service;
pub mod shared;
pub mod text;
