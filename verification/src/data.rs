//! Price samples.
use vstd::prelude::*;

verus! {

/// One period's prices and traded volume.
#[derive(Debug, Clone, Copy, PartialEq, Eq, Structural)]
pub struct OHLCVData {
    /// Seconds since the epoch, without a time zone.
    pub timestamp: i64,
    pub open: i64,
    pub high: i64,
    pub low: i64,
    pub close: i64,
    pub volume: u64,
}

impl OHLCVData {
    /// Prices are non-negative and the low and high enclose open and close.
    pub open spec fn well_formed(self) -> bool {
        &&& 0 <= self.low
        &&& self.low <= self.open <= self.high
        &&& self.low <= self.close <= self.high
    }

    /// Decides `well_formed`.
    pub fn is_well_formed(&self) -> (r: bool)
        ensures
            r == self.well_formed(),
    {
        0 <= self.low && self.low <= self.open && self.open <= self.high && self.low <= self.close
            && self.close <= self.high
    }
}

/// Timestamps strictly increase along the feed.
pub open spec fn strictly_ordered(feed: Seq<OHLCVData>) -> bool {
    forall|i: int, j: int| 0 <= i < j < feed.len() ==> feed[i].timestamp < feed[j].timestamp
}

/// Decides `strictly_ordered`.
pub fn is_strictly_ordered(feed: &Vec<OHLCVData>) -> (r: bool)
    ensures
        r == strictly_ordered(feed@),
{
    if feed.len() < 2 {
        return true;
    }
    let mut k: usize = 1;
    while k < feed.len()
        invariant
            1 <= k <= feed.len(),
            forall|i: int, j: int| 0 <= i < j < k ==> feed@[i].timestamp < feed@[j].timestamp,
        decreases feed.len() - k,
    {
        if feed[k - 1].timestamp >= feed[k].timestamp {
            return false;
        }
        proof {
            assert forall|i: int, j: int| 0 <= i < j < k + 1 implies feed@[i].timestamp
                < feed@[j].timestamp by {
                if j == k && i < k - 1 {
                    assert(feed@[i].timestamp < feed@[k - 1].timestamp);
                }
            }
        }
        k += 1;
    }
    true
}

} // verus!
