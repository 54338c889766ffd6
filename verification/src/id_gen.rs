use vstd::prelude::*;
use crate::util::now_millis;

verus! {

/// A source of identifiers.
pub trait IdGen<T> {
    fn next(&mut self) -> T;
}

/// Identifier generator packing a millisecond timestamp (kept strictly
/// increasing by bumping it on every draw) into the high bits of a 64-bit
/// value, with a call counter and random bits below, so that ids sort
/// roughly by creation order.
#[derive(Debug)]
pub struct TimestampRandIdGen {
    rand_seed_cnt: u16,
    timestamp_cnt: u64,
}

/// Relies on rand::random: a draw of 16 random bits.  Nothing is assumed of
/// the value.
#[verifier::external_body]
fn random_u16() -> u16 {
    rand::random::<u16>()
}

impl TimestampRandIdGen {
    /// The internal timestamp counter, which each draw strictly increases
    /// (until the counter would overflow, where it stays put).
    pub closed spec fn stamp(&self) -> u64 {
        self.timestamp_cnt
    }

    pub fn new() -> (r: Self)
        ensures
            r.stamp() <= crate::util::MAX_CLOCK_MILLIS,
    {
        TimestampRandIdGen { rand_seed_cnt: random_u16(), timestamp_cnt: now_millis() }
    }

    /// Draw the next identifier: the bumped timestamp counter in the high
    /// bits, 12 bits of the call counter, then 12 random bits.
    pub fn next_id(&mut self) -> (id: u64)
        ensures
            old(self).stamp() < u64::MAX ==> final(self).stamp() > old(self).stamp(),
            id >> 24 == final(self).stamp() & 0xFF_FFFF_FFFF,
    {
        self.rand_seed_cnt = if self.rand_seed_cnt == u16::MAX {
            0
        } else {
            self.rand_seed_cnt + 1
        };
        let now = now_millis();
        let bumped = if self.timestamp_cnt == u64::MAX {
            u64::MAX
        } else {
            self.timestamp_cnt + 1
        };
        self.timestamp_cnt = if now > bumped {
            now
        } else {
            bumped
        };
        let random = random_u16();
        let ts = self.timestamp_cnt;
        let mid = ((self.rand_seed_cnt & 0x0FFF) as u64) << 12;
        let low = (random & 0x0FFF) as u64;
        let id = (ts << 24) | mid | low;
        proof {
            let cnt = self.rand_seed_cnt;
            assert((ts << 24) | ((((cnt & 0x0FFF) as u64) << 12) | ((random & 0x0FFF) as u64))
                == ((ts << 24) | (((cnt & 0x0FFF) as u64) << 12)) | ((random & 0x0FFF) as u64))
                by (bit_vector);
            assert(((ts << 24) | (((cnt & 0x0FFF) as u64) << 12) | ((random & 0x0FFF) as u64)) >> 24
                == ts & 0xFF_FFFF_FFFF) by (bit_vector);
        }
        id
    }
}

impl IdGen<u64> for TimestampRandIdGen {
    fn next(&mut self) -> u64 {
        self.next_id()
    }
}

} // verus!
