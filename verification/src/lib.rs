//! A Bloom filter: a space-efficient, probabilistic set-membership tester.
//!
//! Elements can be inserted but never removed. A membership query may report
//! a false positive, with a probability tuned at construction time, but never
//! a false negative: an inserted element is always reported as present.
//!
//! The crate derives the optimal bit-array length and hash-function count
//! from the expected element count and the target false-positive rate,
//! packs the bits with `bitvec`, simulates a family of hash functions by
//! reseeding one keyed SipHash primitive, and offers a reader-writer-locked
//! wrapper so that many concurrent callers can share one filter.

pub mod bits;
pub mod filter;
pub mod hashing;
pub mod params;
pub mod service;

pub use filter::{BloomFilter, ConfigError};
pub use hashing::StableHash;
pub use params::{calc_k, calc_m, Rate};
pub use service::BloomdService;
