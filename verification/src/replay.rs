//! Sliding-window replay cache: one shared tracker of `(principal, nonce)`
//! pairs, with a queue ordered by first-seen timestamp for eviction.

use vstd::prelude::*;

use crate::wire::bytes_eq;

verus! {

#[derive(Clone, Debug)]
struct ReplayEntry {
    principal: Vec<u8>,
    nonce: Vec<u8>,
    seen_at: u64,
}

/// The cache: a bound on clock skew, and the recorded pairs in arrival
/// order (front is the oldest).
#[derive(Clone, Debug)]
pub struct ReplayCache {
    window_ms: u64,
    entries: Vec<ReplayEntry>,
}

#[derive(Clone, Copy, Debug, PartialEq, Eq, Structural)]
pub enum ReplayError {
    /// The caller's timestamp is further than the window from now.
    OutsideWindow,
    /// The pair was already recorded within the window.
    Replay,
}

/// One recorded pair: principal, nonce, first-seen timestamp.
pub type ReplayRecord = (Seq<u8>, Seq<u8>, u64);

/// Whether `(p, n)` is among the records.
pub open spec fn spec_contains_nonce(s: Seq<ReplayRecord>, p: Seq<u8>, n: Seq<u8>) -> bool {
    exists|i: int| 0 <= i < s.len() && (#[trigger] s[i]).0 == p && s[i].1 == n
}

/// Drop records from the front while their first-seen timestamp is strictly
/// before the cutoff. A fresh record at the front shields everything behind
/// it, exactly as a queue does.
pub open spec fn spec_evict_front(s: Seq<ReplayRecord>, cutoff: u64) -> Seq<ReplayRecord>
    decreases s.len(),
{
    if s.len() > 0 && s[0].2 < cutoff {
        spec_evict_front(s.drop_first(), cutoff)
    } else {
        s
    }
}

/// `now` minus the window, saturating at zero: the oldest first-seen
/// timestamp still inside the window.
pub open spec fn spec_cutoff(now_ms: u64, window_ms: u64) -> u64 {
    if now_ms >= window_ms {
        (now_ms - window_ms) as u64
    } else {
        0
    }
}

/// The absolute clock skew between the caller and the broker.
pub open spec fn spec_skew(now_ms: u64, ts_ms: u64) -> u64 {
    if now_ms >= ts_ms {
        (now_ms - ts_ms) as u64
    } else {
        (ts_ms - now_ms) as u64
    }
}

impl ReplayCache {
    /// The configured window, in milliseconds.
    pub closed spec fn window(self) -> u64 {
        self.window_ms
    }

    /// The recorded pairs, oldest first.
    pub closed spec fn records(self) -> Seq<ReplayRecord> {
        Seq::new(self.entries@.len(), |i: int| (self.entries@[i].principal@, self.entries@[i].nonce@, self.entries@[i].seen_at))
    }

    /// An empty cache with the given window.
    pub fn new(window_ms: u64) -> (r: ReplayCache)
        ensures
            r.window() == window_ms,
            r.records() == Seq::<ReplayRecord>::empty(),
    {
        let r = ReplayCache { window_ms, entries: Vec::new() };
        proof {
            assert(r.records() =~= Seq::<ReplayRecord>::empty());
        }
        r
    }

    /// Drop every record whose first-seen timestamp lies before the cutoff,
    /// from the front of the queue until a fresh record shields the rest.
    fn evict(&mut self, now_ms: u64)
        ensures
            final(self).window_ms == old(self).window_ms,
            final(self).records() == spec_evict_front(
                old(self).records(),
                spec_cutoff(now_ms, old(self).window_ms),
            ),
    {
        let cutoff: u64 = if now_ms >= self.window_ms {
            now_ms - self.window_ms
        } else {
            0
        };
        proof {
            assert(cutoff == spec_cutoff(now_ms, self.window_ms));
        }
        let ghost orig: Seq<ReplayRecord> = self.records();
        while self.entries.len() > 0 && self.entries[0].seen_at < cutoff
            invariant
                self.window_ms == old(self).window_ms,
                spec_evict_front(orig, cutoff) == spec_evict_front(self.records(), cutoff),
            decreases self.entries@.len(),
        {
            let ghost before: Seq<ReplayRecord> = self.records();
            self.entries.remove(0);
            proof {
                assert(self.records() =~= before.drop_first());
                assert(spec_evict_front(before, cutoff) == spec_evict_front(
                    before.drop_first(),
                    cutoff,
                ));
            }
        }
        proof {
            assert(spec_evict_front(self.records(), cutoff) == self.records());
        }
    }

    /// Whether `(p, n)` is recorded.
    fn contains(&self, p: &[u8], n: &[u8]) -> (r: bool)
        ensures
            r == spec_contains_nonce(self.records(), p@, n@),
    {
        let mut i: usize = 0;
        while i < self.entries.len()
            invariant
                i <= self.entries@.len(),
                forall|j: int|
                    0 <= j < i ==> !((#[trigger] self.records()[j]).0 == p@ && self.records()[j].1
                        == n@),
            decreases self.entries@.len() - i,
        {
            if bytes_eq(self.entries[i].principal.as_slice(), p) && bytes_eq(
                self.entries[i].nonce.as_slice(),
                n,
            ) {
                proof {
                    assert((self.records()[i as int]).0 == p@ && self.records()[i as int].1 == n@);
                }
                return true;
            }
            i = i + 1;
        }
        false
    }

    /// The policy, in order: refuse a timestamp further than the window from
    /// now; evict what the window has passed by; refuse a pair already
    /// recorded; otherwise record the pair at `ts_ms` and admit it.
    pub fn check_and_record(&mut self, now_ms: u64, ts_ms: u64, principal: &[u8], nonce: &[u8])
        -> (r: Result<(), ReplayError>)
        ensures
            final(self).window() == old(self).window(),
            spec_skew(now_ms, ts_ms) > old(self).window() ==> (r == Err::<(), ReplayError>(
                ReplayError::OutsideWindow,
            ) && final(self).records() == old(self).records()),
            spec_skew(now_ms, ts_ms) <= old(self).window() ==> {
                let evicted = spec_evict_front(
                    old(self).records(),
                    spec_cutoff(now_ms, old(self).window()),
                );
                if spec_contains_nonce(evicted, principal@, nonce@) {
                    r == Err::<(), ReplayError>(ReplayError::Replay) && final(self).records()
                        == evicted
                } else {
                    r == Ok::<(), ReplayError>(()) && final(self).records() == evicted.push(
                        (principal@, nonce@, ts_ms),
                    )
                }
            },
    {
        let dt: u64 = if now_ms >= ts_ms {
            now_ms - ts_ms
        } else {
            ts_ms - now_ms
        };
        if dt > self.window_ms {
            return Err(ReplayError::OutsideWindow);
        }
        self.evict(now_ms);
        if self.contains(principal, nonce) {
            return Err(ReplayError::Replay);
        }
        let ghost evicted: Seq<ReplayRecord> = self.records();
        self.entries.push(
            ReplayEntry {
                principal: vstd::slice::slice_to_vec(principal),
                nonce: vstd::slice::slice_to_vec(nonce),
                seen_at: ts_ms,
            },
        );
        proof {
            assert(self.records() =~= evicted.push((principal@, nonce@, ts_ms)));
        }
        Ok(())
    }
}

} // verus!
