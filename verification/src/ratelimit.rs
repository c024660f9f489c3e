//! The action rate limiter: a sliding-window ledger of grant timestamps.
//! An action is granted only while fewer than the configured maximum have
//! been granted in the last 60 seconds, so no 60-second window ever holds
//! more grants than the maximum.

use vstd::prelude::*;

verus! {

/// The window width in seconds.
pub const WINDOW_SECS: u64 = 60;

/// Weakly ascending grant times.
pub open spec fn times_sorted(g: Seq<u64>) -> bool {
    forall|i: int, j: int| 0 <= i <= j < g.len() ==> g[i] <= g[j]
}

/// How many grants at the front of `g` have already left the window at
/// `now`: the leading run with `time + 60 <= now`.
pub open spec fn expired_count(g: Seq<u64>, now: int) -> int
    decreases g.len(),
{
    if g.len() == 0 {
        0
    } else if g[0] + 60 <= now {
        1 + expired_count(g.skip(1), now)
    } else {
        0
    }
}

/// The expired run is exactly `k` when everything before `k` has left the
/// window and position `k` (if any) has not.
proof fn lemma_expired_count_at(g: Seq<u64>, now: int, k: int)
    requires
        0 <= k <= g.len(),
        forall|i: int| 0 <= i < k ==> #[trigger] g[i] + 60 <= now,
        k < g.len() ==> g[k] + 60 > now,
    ensures
        expired_count(g, now) == k,
    decreases g.len(),
{
    if g.len() == 0 {
    } else if k == 0 {
    } else {
        assert(g[0] + 60 <= now);
        assert forall|i: int| 0 <= i < k - 1 implies #[trigger] g.skip(1)[i] + 60 <= now by {
            assert(g.skip(1)[i] == g[i + 1]);
        }
        if k - 1 < g.skip(1).len() {
            assert(g.skip(1)[k - 1] == g[k]);
        }
        lemma_expired_count_at(g.skip(1), now, k - 1);
    }
}

/// Everything before the expired run has left the window; the first kept
/// grant (if any) has not.
proof fn lemma_expired_count_props(g: Seq<u64>, now: int)
    ensures
        0 <= expired_count(g, now) <= g.len(),
        forall|i: int| 0 <= i < expired_count(g, now) ==> #[trigger] g[i] + 60 <= now,
        expired_count(g, now) < g.len() ==> g[expired_count(g, now)] + 60 > now,
    decreases g.len(),
{
    if g.len() == 0 {
    } else if g[0] + 60 <= now {
        lemma_expired_count_props(g.skip(1), now);
        assert forall|i: int| 0 <= i < expired_count(g, now) implies #[trigger] g[i] + 60
            <= now by {
            if i > 0 {
                assert(g.skip(1)[i - 1] == g[i]);
            }
        }
        if expired_count(g, now) < g.len() {
            assert(g.skip(1)[expired_count(g, now) - 1] == g[expired_count(g, now)]);
        }
    } else {
    }
}

/// The expired run only grows as time moves forward.
proof fn lemma_expired_count_monotone(g: Seq<u64>, t1: int, t2: int)
    requires
        t1 <= t2,
    ensures
        expired_count(g, t1) <= expired_count(g, t2),
    decreases g.len(),
{
    if g.len() > 0 && g[0] + 60 <= t1 {
        lemma_expired_count_monotone(g.skip(1), t1, t2);
    } else {
        lemma_expired_count_props(g, t2);
    }
}

/// Appending a live grant does not change the expired run.
proof fn lemma_expired_count_push(g: Seq<u64>, now: u64, k: int)
    requires
        k == expired_count(g, now as int),
        forall|i: int| 0 <= i < g.len() ==> #[trigger] g[i] <= now,
    ensures
        expired_count(g.push(now), now as int) == k,
        g.push(now).skip(k) == g.skip(k).push(now),
{
    lemma_expired_count_props(g, now as int);
    let g2 = g.push(now);
    assert forall|i: int| 0 <= i < k implies #[trigger] g2[i] + 60 <= now by {
        assert(g2[i] == g[i]);
    }
    if k < g2.len() {
        if k < g.len() {
            assert(g2[k] == g[k]);
        } else {
            assert(g2[k] == now);
        }
        assert(g2[k] + 60 > now);
    }
    lemma_expired_count_at(g2, now as int, k);
    assert(g2.skip(k) =~= g.skip(k).push(now));
}

/// Appending a grant keeps the history sorted and clock-bounded, and
/// keeps the window-spacing property when fewer than `max` grants are
/// still live.
proof fn lemma_push_keeps_spacing(g: Seq<u64>, now: u64, max: int, k: int)
    requires
        times_sorted(g),
        forall|i: int| 0 <= i < g.len() ==> #[trigger] g[i] <= now,
        forall|i: int| 0 <= i && i + max < g.len() ==> #[trigger] g[i] + 60 <= g[i + max],
        k == expired_count(g, now as int),
        g.len() - k < max,
    ensures
        times_sorted(g.push(now)),
        forall|i: int| 0 <= i < g.push(now).len() ==> #[trigger] g.push(now)[i] <= now,
        forall|i: int|
            0 <= i && i + max < g.push(now).len() ==> #[trigger] g.push(now)[i] + 60 <= g.push(
                now,
            )[i + max],
{
    let g2 = g.push(now);
    lemma_expired_count_props(g, now as int);
    assert forall|i: int, j: int| 0 <= i <= j < g2.len() implies g2[i] <= g2[j] by {
        if j < g.len() {
        } else if i < g.len() {
            assert(g2[i] == g[i]);
        }
    }
    assert forall|i: int| 0 <= i && i + max < g2.len() implies #[trigger] g2[i] + 60 <= g2[i
        + max] by {
        if i + max < g.len() {
            assert(g2[i] == g[i]);
            assert(g2[i + max] == g[i + max]);
            assert(g[i] + 60 <= g[i + max]);
        } else {
            assert(i + max == g.len());
            assert(g2[i + max] == now);
            assert(i < k);
            assert(g2[i] == g[i]);
            assert(g[i] + 60 <= now);
        }
    }
}

/// A token-bucket-style gate over a sliding 60-second window. The ledger
/// holds the grant times still inside the window, oldest first; the ghost
/// history holds every grant ever made.
pub struct RateLimiter {
    max_per_min: u32,
    ledger: Vec<u64>,
    last_now: u64,
    grants: Ghost<Seq<u64>>,
}

impl RateLimiter {
    /// The configured cap on grants per window.
    pub closed spec fn max(self) -> int {
        self.max_per_min as int
    }

    /// Every grant time this limiter ever issued, in order.
    pub closed spec fn grants(self) -> Seq<u64> {
        self.grants@
    }

    /// The latest time the limiter has seen.
    pub closed spec fn now(self) -> int {
        self.last_now as int
    }

    /// The limiter's invariant: the history is sorted and bounded by the
    /// clock, the ledger is exactly the part of the history still in the
    /// window and never exceeds the cap, and any `max + 1` consecutive
    /// grants span at least the window width.
    pub closed spec fn wf(self) -> bool {
        &&& times_sorted(self.grants())
        &&& forall|i: int|
            0 <= i < self.grants().len() ==> #[trigger] self.grants()[i] <= self.last_now
        &&& self.ledger@ == self.grants().skip(
            expired_count(self.grants(), self.last_now as int),
        )
        &&& self.ledger@.len() <= self.max()
        &&& forall|i: int|
            0 <= i && i + self.max() < self.grants().len() ==> #[trigger] self.grants()[i] + 60
                <= self.grants()[i + self.max()]
    }

    /// A fresh limiter with the given per-minute cap and no history.
    pub fn new(max_actions_per_min: u32) -> (r: RateLimiter)
        ensures
            r.wf(),
            r.max() == max_actions_per_min as int,
            r.grants() == Seq::<u64>::empty(),
            r.now() == 0,
    {
        let r = RateLimiter {
            max_per_min: max_actions_per_min,
            ledger: Vec::new(),
            last_now: 0,
            grants: Ghost(Seq::empty()),
        };
        proof {
            assert(r.grants().skip(expired_count(r.grants(), 0)) =~= Seq::<u64>::empty());
        }
        r
    }

    /// Drop the ledger entries that have left the window ending at `now`.
    fn prune_expired(&mut self, now: u64)
        requires
            times_sorted(old(self).grants()),
            forall|i: int|
                0 <= i < old(self).grants().len() ==> #[trigger] old(self).grants()[i] <= old(
                    self,
                ).last_now,
            old(self).ledger@ == old(self).grants().skip(
                expired_count(old(self).grants(), old(self).last_now as int),
            ),
            old(self).last_now <= now,
        ensures
            final(self).grants == old(self).grants,
            final(self).max_per_min == old(self).max_per_min,
            final(self).last_now == old(self).last_now,
            final(self).ledger@ == old(self).grants().skip(
                expired_count(old(self).grants(), now as int),
            ),
    {
        let ghost g = self.grants@;
        let ghost e_old = expired_count(g, self.last_now as int);
        let ghost k_target = expired_count(g, now as int);
        proof {
            lemma_expired_count_props(g, old(self).last_now as int);
            lemma_expired_count_props(g, now as int);
            lemma_expired_count_monotone(g, old(self).last_now as int, now as int);
        }
        while self.ledger.len() > 0 && now >= WINDOW_SECS && self.ledger[0] <= now - WINDOW_SECS
            invariant
                self.grants == old(self).grants,
                self.max_per_min == old(self).max_per_min,
                self.last_now == old(self).last_now,
                g == self.grants@,
                times_sorted(g),
                0 <= e_old <= k_target <= g.len(),
                k_target == expired_count(g, now as int),
                forall|i: int| 0 <= i < k_target ==> #[trigger] g[i] + 60 <= now,
                k_target < g.len() ==> g[k_target] + 60 > now,
                exists|k: int|
                    e_old <= k <= k_target && #[trigger] self.ledger@ == g.skip(k),
            decreases self.ledger@.len(),
        {
            proof {
                let k = choose|k: int| e_old <= k <= k_target && #[trigger] self.ledger@ == g.skip(
                    k,
                );
                assert(g.skip(k).len() == g.len() - k);
                assert(k < g.len());
                assert(g.skip(k)[0] == g[k]);
                assert(self.ledger@[0] == g[k]);
                assert(g[k] + 60 <= now);
                assert(k < k_target) by {
                    if k >= k_target {
                        assert(g[k_target] + 60 > now);
                        assert(g[k_target] <= g[k]);
                    }
                }
                assert(g.skip(k).remove(0) =~= g.skip(k + 1));
            }
            self.ledger.remove(0);
        }
        proof {
            let k = choose|k: int| e_old <= k <= k_target && #[trigger] self.ledger@ == g.skip(k);
            if self.ledger@.len() > 0 {
                assert(g.skip(k).len() == g.len() - k);
                assert(k < g.len());
                assert(g.skip(k)[0] == g[k]);
                assert(self.ledger@[0] == g[k]);
                assert(g[k] + 60 > now) by {
                    if now >= WINDOW_SECS {
                        assert(!(self.ledger@[0] <= now - WINDOW_SECS));
                    }
                }
                assert(k == k_target) by {
                    if k < k_target {
                        assert(g[k] + 60 <= now);
                    }
                }
            } else {
                assert(g.skip(k).len() == 0);
                assert(k == g.len());
                assert(k == k_target);
            }
        }
    }

    /// Ask for one action at time `now` (seconds, non-decreasing across
    /// calls). Granted exactly when fewer than the cap of the past grants
    /// still sit inside the 60-second window ending at `now`; a granted
    /// call appends `now` to the history.
    pub fn try_consume(&mut self, now: u64) -> (granted: bool)
        requires
            old(self).wf(),
            now >= old(self).now(),
        ensures
            final(self).wf(),
            final(self).max() == old(self).max(),
            final(self).now() == now,
            granted <==> old(self).grants().len() - expired_count(
                old(self).grants(),
                now as int,
            ) < old(self).max(),
            granted ==> final(self).grants() == old(self).grants().push(now),
            !granted ==> final(self).grants() == old(self).grants(),
    {
        let ghost g = self.grants@;
        let ghost k_target = expired_count(g, now as int);
        self.prune_expired(now);
        self.last_now = now;
        proof {
            lemma_expired_count_props(g, now as int);
            assert(self.ledger@ == g.skip(k_target));
            assert(self.ledger@.len() == g.len() - k_target);
        }
        let live = self.ledger.len();
        if live < self.max_per_min as usize {
            self.ledger.push(now);
            proof {
                assert forall|i: int| 0 <= i < g.len() implies #[trigger] g[i] <= now by {
                    assert(g[i] <= old(self).last_now);
                }
                lemma_expired_count_push(g, now, k_target);
                lemma_push_keeps_spacing(g, now, self.max(), k_target);
                self.grants@ = g.push(now);
                assert(self.ledger@ == self.grants@.skip(
                    expired_count(self.grants@, now as int),
                ));
            }
            true
        } else {
            false
        }
    }

    /// In any 60-second span of the grant history — grants `i` through
    /// `j` all within less than the window width of each other — the
    /// number of grants stays within the cap. This is the sliding-window
    /// guarantee: no 60-second window ever sees more than `max` grants.
    pub proof fn lemma_window_bound(self, i: int, j: int)
        requires
            self.wf(),
            0 <= i <= j < self.grants().len(),
            self.grants()[j] < self.grants()[i] + 60,
        ensures
            j - i < self.max(),
    {
        if j - i >= self.max() {
            assert(self.grants()[i] + 60 <= self.grants()[i + self.max()]);
            assert(self.grants()[i + self.max()] <= self.grants()[j]);
        }
    }
}

} // verus!
