//! A fixed-window rate limiter for the HTTP API: at most `limit` requests
//! within the window ending now.

use vstd::prelude::*;

verus! {

broadcast use vstd::seq_lib::group_seq_lib_default, Seq::lemma_filter_push;

/// The timestamps still inside the window at `now`.
pub open spec fn pruned(stamps: Seq<i64>, now: int, window: int) -> Seq<i64> {
    stamps.filter(|t: i64| now - t < window)
}

/// Fixed-window limiter state: the instants of the requests admitted
/// within the current window, oldest first.
pub struct RateLimiter {
    limit: u64,
    window: i64,
    stamps: Vec<i64>,
}

impl RateLimiter {
    /// Timestamps never decrease along the record.
    pub closed spec fn wf(&self) -> bool {
        &&& forall|i: int, j: int|
            0 <= i < j < self.stamps@.len() ==> self.stamps@[i] <= self.stamps@[j]
        &&& self.window >= 1
    }

    pub closed spec fn limit_spec(&self) -> int {
        self.limit as int
    }

    pub closed spec fn window_spec(&self) -> int {
        self.window as int
    }

    pub closed spec fn stamps_spec(&self) -> Seq<i64> {
        self.stamps@
    }

    /// A limiter admitting `limit` requests per `window` seconds.
    pub fn new(limit: u64, window: i64) -> (r: RateLimiter)
        requires
            window >= 1,
        ensures
            r.wf(),
            r.limit_spec() == limit,
            r.window_spec() == window,
            r.stamps_spec() == Seq::<i64>::empty(),
    {
        RateLimiter { limit, window, stamps: Vec::new() }
    }

    /// Admit or reject a request arriving at `now`: timestamps that have
    /// left the window are dropped; the request is admitted (and
    /// recorded) exactly when fewer than `limit` remain.
    pub fn allow(&mut self, now: i64) -> (r: bool)
        requires
            old(self).wf(),
            forall|i: int| 0 <= i < old(self).stamps_spec().len() ==> old(self).stamps_spec()[i]
                <= now,
        ensures
            final(self).wf(),
            final(self).limit_spec() == old(self).limit_spec(),
            final(self).window_spec() == old(self).window_spec(),
            r == (pruned(old(self).stamps_spec(), now as int, old(self).window_spec()).len()
                < old(self).limit_spec()),
            final(self).stamps_spec() == (if r {
                pruned(old(self).stamps_spec(), now as int, old(self).window_spec()).push(now)
            } else {
                pruned(old(self).stamps_spec(), now as int, old(self).window_spec())
            }),
    {
        let ghost w = self.window as int;
        let ghost before = self.stamps@;
        let ghost keep = |t: i64| now as int - t < w;
        let mut kept: Vec<i64> = Vec::new();
        let mut i: usize = 0;
        proof {
            assert(kept@ =~= before.take(0).filter(keep));
        }
        while i < self.stamps.len()
            invariant
                0 <= i <= self.stamps@.len(),
                self == old(self),
                before == self.stamps@,
                w == self.window as int,
                keep == (|t: i64| now as int - t < w),
                kept@ == before.take(i as int).filter(keep),
            decreases self.stamps@.len() - i,
        {
            let t = self.stamps[i];
            let wide = (now as i128) - (t as i128);
            if wide < self.window as i128 {
                kept.push(t);
            }
            proof {
                assert(before.take(i + 1) =~= before.take(i as int).push(before[i as int]));
                assert(kept@ =~= before.take(i + 1).filter(keep));
            }
            i = i + 1;
        }
        proof {
            assert(before.take(before.len() as int) =~= before);
        }
        let admitted = (kept.len() as u64) < self.limit;
        if admitted {
            kept.push(now);
        }
        self.stamps = kept;
        proof {
            assert(before == old(self).stamps_spec());
            assert(forall|i: int| 0 <= i < before.len() ==> before[i] <= now);
            lemma_pruned_sorted(before, now as int, w);
            assert(forall|i: int, j: int|
                0 <= i < j < pruned(before, now as int, w).len() ==> pruned(
                    before,
                    now as int,
                    w,
                )[i] <= pruned(before, now as int, w)[j]);
            if admitted {
                assert forall|a: int, b: int|
                    0 <= a < b < self.stamps@.len() implies self.stamps@[a]
                    <= self.stamps@[b] by {
                    let p = pruned(before, now as int, w);
                    if b < p.len() {
                    } else {
                        assert(self.stamps@[b] == now);
                        lemma_pruned_le(before, now as int, w, a);
                    }
                }
            }
        }
        admitted
    }
}

/// Pruning keeps the order.
proof fn lemma_pruned_sorted(stamps: Seq<i64>, now: int, w: int)
    requires
        forall|i: int, j: int| 0 <= i < j < stamps.len() ==> stamps[i] <= stamps[j],
    ensures
        forall|i: int, j: int|
            0 <= i < j < pruned(stamps, now, w).len() ==> pruned(stamps, now, w)[i] <= pruned(
                stamps,
                now,
                w,
            )[j],
    decreases stamps.len(),
{
    let keep = |t: i64| now - t < w;
    if stamps.len() > 0 {
        let t = stamps.drop_last();
        assert(forall|i: int, j: int| 0 <= i < j < t.len() ==> t[i] <= t[j]);
        lemma_pruned_sorted(t, now, w);
        assert(stamps =~= t.push(stamps.last()));
        t.lemma_filter_push(stamps.last(), keep);
        let ft = t.filter(keep);
        assert forall|i: int| 0 <= i < ft.len() implies ft[i] <= stamps.last() by {
            assert(ft.contains(ft[i]));
            t.lemma_filter_contains_rev(keep, ft[i]);
            let k = choose|k: int| 0 <= k < t.len() && t[k] == ft[i];
            assert(t[k] <= stamps.last());
        }
        let p = pruned(stamps, now, w);
        if keep(stamps.last()) {
            assert(p == ft.push(stamps.last()));
            assert forall|i: int, j: int| 0 <= i < j < p.len() implies p[i] <= p[j] by {
                if j < p.len() - 1 {
                    assert(ft == pruned(t, now, w));
                    assert(pruned(t, now, w)[i] <= pruned(t, now, w)[j]);
                } else {
                    assert(p[i] == ft[i]);
                    assert(p[j] == stamps.last());
                }
            }
        } else {
            assert(p == ft);
        }
    }
}

/// Every pruned timestamp came from the record, so it is at most `now`
/// whenever the record's entries are.
proof fn lemma_pruned_le(stamps: Seq<i64>, now: int, w: int, a: int)
    requires
        forall|i: int| 0 <= i < stamps.len() ==> stamps[i] <= now,
        0 <= a < pruned(stamps, now, w).len(),
    ensures
        pruned(stamps, now, w)[a] <= now,
{
    let keep = |t: i64| now - t < w;
    let p = pruned(stamps, now, w);
    assert(p.contains(p[a]));
    stamps.lemma_filter_contains_rev(keep, p[a]);
    let k = choose|k: int| 0 <= k < stamps.len() && stamps[k] == p[a];
}

} // verus!
