//! Threshold ECDSA toolkit: a round-based multiparty protocol engine,
//! type-tagged party/share indexing, and polynomial secret sharing.

pub mod api;
pub mod collections;
pub mod curve;
pub mod k256_serde;
pub mod driver;
pub mod keygen;
pub mod party_share_counts;
pub mod sdk;
pub mod sign;
pub mod ss;
pub mod wire;

use vstd::prelude::*;

verus! {

/// Global cap on the total number of shares across all parties.
pub const MAX_TOTAL_SHARE_COUNT: usize = 1000;

/// Per-party cap on the number of shares one party may control.
pub const MAX_PARTY_SHARE_COUNT: usize = 1000;

/// Maximum byte length of messages exchanged during a protocol round.
/// The sender of a message larger than this maximum is accused as a faulter.
pub const MAX_MSG_LEN: usize = 5500;

/// Fatal internal error: an invariant the engine itself guarantees was
/// violated. Never attributed to a remote party.
#[derive(Debug, Clone, Copy, Eq, PartialEq, Structural)]
pub struct TofnFatal;

pub type TofnResult<T> = Result<T, TofnFatal>;

pub type BytesVec = Vec<u8>;

} // verus!
