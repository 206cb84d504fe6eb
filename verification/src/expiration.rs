//! Block clock and expiry points for approvals and operator grants.
//!
//! An expiry point is a block height, a timestamp in nanoseconds, or never.
//! It is expired once the current block has reached the point.

use vstd::prelude::*;

verus! {

/// The host clock as of the current call: block height and block time.
#[derive(Clone, Copy, Debug, PartialEq, Eq, Structural)]
pub struct BlockInfo {
    pub height: u64,
    /// Block time in nanoseconds since the Unix epoch.
    pub time_nanos: u64,
}

impl BlockInfo {
    /// The block time truncated to whole seconds.
    pub fn time_seconds(&self) -> (r: u64)
        ensures
            r == self.time_nanos / 1_000_000_000,
    {
        self.time_nanos / 1_000_000_000
    }
}

/// When an approval or operator grant stops being valid.
#[derive(Clone, Copy, Debug, PartialEq, Eq, Structural)]
pub enum Expiration {
    /// Expired once `block.height >= height`.
    AtHeight(u64),
    /// Expired once `block.time_nanos >= nanos`.
    AtTime(u64),
    /// Never expires.
    Never,
}

impl Expiration {
    /// Whether this point has been reached as of `block`.
    pub open spec fn spec_is_expired(self, block: BlockInfo) -> bool {
        match self {
            Expiration::AtHeight(height) => block.height >= height,
            Expiration::AtTime(nanos) => block.time_nanos >= nanos,
            Expiration::Never => false,
        }
    }

    /// Whether this point has been reached as of `block`.
    pub fn is_expired(&self, block: &BlockInfo) -> (r: bool)
        ensures
            r == self.spec_is_expired(*block),
    {
        match self {
            Expiration::AtHeight(height) => block.height >= *height,
            Expiration::AtTime(nanos) => block.time_nanos >= *nanos,
            Expiration::Never => false,
        }
    }

    /// The expiry used when a caller supplies none.
    pub fn never() -> (r: Expiration)
        ensures
            r == Expiration::Never,
    {
        Expiration::Never
    }
}

} // verus!
