use vstd::prelude::*;

pub mod batch;
pub mod blocklist;
pub mod cache;
pub mod confirm;
pub mod cooldown;
pub mod error;
pub mod hash;
pub mod profanity;
pub mod scan;
pub mod source;

verus! {

/// Width in bytes of one perceptual hash.
pub const HASH_BYTES: usize = 8;

} // verus!
