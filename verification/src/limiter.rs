//! Per-sender sliding-window admission control. Each key carries the
//! timestamps of its admitted requests; stale timestamps are pruned lazily
//! on every check. A configured maximum of zero disables limiting.

use vstd::prelude::*;

verus! {

/// A timestamp still counts against the window at `now`.
pub open spec fn in_window(t: u64, now: u64, window_ms: u64) -> bool {
    now - t < window_ms
}

/// The window-surviving timestamps, in order.
pub open spec fn prune(h: Seq<u64>, now: u64, window_ms: u64) -> Seq<u64>
    decreases h.len(),
{
    if h.len() == 0 {
        Seq::<u64>::empty()
    } else if in_window(h.last(), now, window_ms) {
        prune(h.drop_last(), now, window_ms).push(h.last())
    } else {
        prune(h.drop_last(), now, window_ms)
    }
}

/// Sliding-window counter keyed by sender identity.
pub struct RateLimiter {
    pub history: Vec<(String, Vec<u64>)>,
    pub max_requests: u64,
    pub window_ms: u64,
}

/// The first index holding the key, if any.
pub open spec fn hist_index_at(s: Seq<(String, Vec<u64>)>, k: Seq<char>, from: int) -> Option<int>
    decreases s.len() - from when 0 <= from <= s.len()
{
    if from >= s.len() {
        None
    } else if s[from].0@ == k {
        Some(from)
    } else {
        hist_index_at(s, k, from + 1)
    }
}

impl RateLimiter {
    /// Keys occur at most once.
    pub open spec fn wf(self) -> bool {
        forall|i: int, j: int|
            0 <= i < j < self.history@.len() ==> self.history@[i].0@ != self.history@[j].0@
    }

    /// The recorded timestamps of a key; empty where none are recorded.
    pub open spec fn times_of(self, k: Seq<char>) -> Seq<u64> {
        match hist_index_at(self.history@, k, 0) {
            Some(i) => self.history@[i].1@,
            None => Seq::<u64>::empty(),
        }
    }

    /// A limiter admitting at most `max_requests` per key within a window
    /// of `window_secs` seconds (saturating at the largest representable
    /// window).
    pub fn new(max_requests: u64, window_secs: u64) -> (r: RateLimiter)
        ensures
            r.wf(),
            r.max_requests == max_requests,
            r.window_ms == if window_secs <= u64::MAX / 1000 {
                (window_secs * 1000) as int
            } else {
                u64::MAX as int
            },
            forall|k: Seq<char>| r.times_of(k) == Seq::<u64>::empty(),
    {
        let window_ms: u64 = if window_secs <= u64::MAX / 1000 {
            window_secs * 1000
        } else {
            u64::MAX
        };
        RateLimiter { history: Vec::new(), max_requests, window_ms }
    }
}

proof fn lemma_hist_index_props(s: Seq<(String, Vec<u64>)>, k: Seq<char>, from: int)
    requires
        0 <= from <= s.len(),
    ensures
        (match hist_index_at(s, k, from) {
            Some(i) => from <= i < s.len() && s[i].0@ == k,
            None => forall|j: int| from <= j < s.len() ==> s[j].0@ != k,
        }),
    decreases s.len() - from,
{
    if from < s.len() && s[from].0@ != k {
        lemma_hist_index_props(s, k, from + 1);
    }
}

proof fn lemma_hist_index_same_keys(
    s1: Seq<(String, Vec<u64>)>,
    s2: Seq<(String, Vec<u64>)>,
    k: Seq<char>,
    from: int,
)
    requires
        0 <= from <= s1.len(),
        s1.len() == s2.len(),
        forall|j: int| 0 <= j < s1.len() ==> s1[j].0@ == s2[j].0@,
    ensures
        hist_index_at(s1, k, from) == hist_index_at(s2, k, from),
    decreases s1.len() - from,
{
    if from < s1.len() && s1[from].0@ != k {
        lemma_hist_index_same_keys(s1, s2, k, from + 1);
    }
}

proof fn lemma_hist_index_push(
    s: Seq<(String, Vec<u64>)>,
    p: (String, Vec<u64>),
    k: Seq<char>,
    from: int,
)
    requires
        0 <= from <= s.len(),
    ensures
        hist_index_at(s.push(p), k, from) == (match hist_index_at(s, k, from) {
            Some(i) => Some(i),
            None => if p.0@ == k {
                Some(s.len() as int)
            } else {
                None
            },
        }),
    decreases s.len() - from,
{
    assert(s.push(p).len() == s.len() + 1);
    if from < s.len() {
        assert(s.push(p)[from] == s[from]);
        if s[from].0@ != k {
            lemma_hist_index_push(s, p, k, from + 1);
        }
    } else {
        assert(s.push(p)[s.len() as int] == p);
    }
}

impl RateLimiter {
    fn find(&self, key: &str) -> (r: Option<usize>)
        ensures
            (r matches Some(i) ==> hist_index_at(self.history@, key@, 0) == Some(i as int) && i
                < self.history@.len()),
            (r is None ==> hist_index_at(self.history@, key@, 0) is None),
    {
        let mut n: usize = 0;
        while n < self.history.len()
            invariant
                n <= self.history@.len(),
                hist_index_at(self.history@, key@, 0) == hist_index_at(
                    self.history@,
                    key@,
                    n as int,
                ),
            decreases self.history@.len() - n,
        {
            if crate::text::str_eq(self.history[n].0.as_str(), key) {
                return Some(n);
            }
            n += 1;
        }
        None
    }

    /// One admission check at instant `now`: prune the key's stale
    /// timestamps; reject if the survivors already reach the maximum, else
    /// record `now` and accept. A maximum of zero always accepts and
    /// leaves the limiter untouched.
    #[verifier::loop_isolation(false)]
    pub fn check_at(&mut self, key: &str, now: u64) -> (r: bool)
        requires
            old(self).wf(),
        ensures
            final(self).wf(),
            final(self).max_requests == old(self).max_requests,
            final(self).window_ms == old(self).window_ms,
            old(self).max_requests == 0 ==> r && *final(self) == *old(self),
            old(self).max_requests > 0 ==> {
                let kept = prune(old(self).times_of(key@), now, old(self).window_ms);
                &&& r == (kept.len() < old(self).max_requests)
                &&& final(self).times_of(key@) == if r {
                    kept.push(now)
                } else {
                    kept
                }
            },
            forall|k: Seq<char>| k != key@ ==> final(self).times_of(k) == old(self).times_of(k),
    {
        if self.max_requests == 0 {
            return true;
        }
        proof {
            lemma_hist_index_props(self.history@, key@, 0);
        }
        let ghost olds = self.history@;
        let window_ms = self.window_ms;
        let max_requests = self.max_requests;
        match self.find(key) {
            Some(i) => {
                let entries = &self.history[i].1;
                let ghost h = entries@;
                let mut kept: Vec<u64> = Vec::new();
                let mut n: usize = 0;
                proof {
                    assert(h.subrange(0, 0) =~= Seq::<u64>::empty());
                }
                while n < entries.len()
                    invariant
                        n <= h.len(),
                        entries@ == h,
                        kept@ == prune(h.subrange(0, n as int), now, window_ms),
                    decreases h.len() - n,
                {
                    let t = entries[n];
                    proof {
                        assert(h.subrange(0, (n + 1) as int).drop_last() =~= h.subrange(
                            0,
                            n as int,
                        ));
                        assert(h.subrange(0, (n + 1) as int).last() == h[n as int]);
                    }
                    if t <= now {
                        if now - t < window_ms {
                            kept.push(t);
                        }
                    } else {
                        kept.push(t);
                    }
                    n += 1;
                }
                proof {
                    assert(h.subrange(0, h.len() as int) =~= h);
                }
                let allowed = (kept.len() as u64) < max_requests;
                if allowed {
                    kept.push(now);
                }
                let slot = &mut self.history[i];
                slot.1 = kept;
                proof {
                    lemma_hist_index_same_keys(olds, self.history@, key@, 0);
                    assert forall|k: Seq<char>| k != key@ implies self.times_of(k) == old(
                        self,
                    ).times_of(k) by {
                        lemma_hist_index_same_keys(olds, self.history@, k, 0);
                        lemma_hist_index_props(olds, k, 0);
                    }
                }
                allowed
            },
            None => {
                // no history yet: the pruned view is empty
                let allowed = 0 < max_requests;
                let mut kept: Vec<u64> = Vec::new();
                kept.push(now);
                let key_owned = crate::text::string_from_chars(&crate::text::chars_of(key));
                self.history.push((key_owned, kept));
                proof {
                    let p = self.history@[olds.len() as int];
                    assert(self.history@ =~= olds.push(p));
                    lemma_hist_index_push(olds, p, key@, 0);
                    assert(prune(Seq::<u64>::empty(), now, window_ms) =~= Seq::<u64>::empty());
                    assert(p.1@ =~= Seq::<u64>::empty().push(now));
                    assert forall|k: Seq<char>| k != key@ implies self.times_of(k) == old(
                        self,
                    ).times_of(k) by {
                        lemma_hist_index_push(olds, p, k, 0);
                        lemma_hist_index_props(olds, k, 0);
                    }
                    assert forall|a: int, b: int|
                        0 <= a < b < self.history@.len() implies self.history@[a].0@
                        != self.history@[b].0@ by {
                        lemma_hist_index_props(olds, key@, 0);
                    }
                }
                allowed
            },
        }
    }

    /// The admission check against the real clock: some instant `now`
    /// (the clock's reading, not otherwise constrained) relates the old
    /// and new state exactly as `check_at` does.
    pub fn check_rate_limit(&mut self, key: &str) -> (r: bool)
        requires
            old(self).wf(),
        ensures
            final(self).wf(),
            final(self).max_requests == old(self).max_requests,
            final(self).window_ms == old(self).window_ms,
            old(self).max_requests == 0 ==> r && *final(self) == *old(self),
            old(self).max_requests > 0 ==> exists|now: u64|
                check_outcome(*old(self), *final(self), key@, now, r),
            forall|k: Seq<char>| k != key@ ==> final(self).times_of(k) == old(self).times_of(k),
    {
        let now = now_millis();
        let r = self.check_at(key, now);
        proof {
            if old(self).max_requests > 0 {
                assert(check_outcome(*old(self), *self, key@, now, r));
            }
        }
        r
    }
}

/// What one admission check at instant `now` did: the key's pruned
/// history decided, and `now` was recorded exactly when it was admitted.
pub open spec fn check_outcome(
    pre: RateLimiter,
    post: RateLimiter,
    key: Seq<char>,
    now: u64,
    r: bool,
) -> bool {
    let kept = prune(pre.times_of(key), now, pre.window_ms);
    &&& r == (kept.len() < pre.max_requests)
    &&& post.times_of(key) == if r {
        kept.push(now)
    } else {
        kept
    }
}

/// Relies on std::time::SystemTime for milliseconds since the Unix epoch;
/// the clock's reading is not otherwise constrained.
#[verifier::external_body]
fn now_millis() -> (r: u64) {
    match std::time::SystemTime::now().duration_since(std::time::UNIX_EPOCH) {
        Ok(d) => {
            let ms = d.as_millis();
            if ms > u64::MAX as u128 {
                u64::MAX
            } else {
                ms as u64
            }
        },
        Err(_) => 0,
    }
}

// ---------------------------------------------------------------------------
// Laws of the sliding window
// ---------------------------------------------------------------------------

/// Pruning keeps exactly the in-window timestamps, in their order; in
/// particular it never grows the history.
pub proof fn lemma_prune_subset(h: Seq<u64>, now: u64, window_ms: u64)
    ensures
        prune(h, now, window_ms).len() <= h.len(),
        forall|i: int|
            0 <= i < prune(h, now, window_ms).len() ==> in_window(
                #[trigger] prune(h, now, window_ms)[i],
                now,
                window_ms,
            ),
    decreases h.len(),
{
    if h.len() > 0 {
        lemma_prune_subset(h.drop_last(), now, window_ms);
    }
}

/// If every recorded timestamp still lies in the window, pruning removes
/// nothing.
pub proof fn lemma_prune_keeps_fresh(h: Seq<u64>, now: u64, window_ms: u64)
    requires
        forall|i: int| 0 <= i < h.len() ==> in_window(#[trigger] h[i], now, window_ms),
    ensures
        prune(h, now, window_ms) == h,
    decreases h.len(),
{
    if h.len() > 0 {
        lemma_prune_keeps_fresh(h.drop_last(), now, window_ms);
        assert(prune(h, now, window_ms) =~= h);
    }
}

/// If every recorded timestamp has aged out of the window, pruning removes
/// everything.
pub proof fn lemma_prune_drops_stale(h: Seq<u64>, now: u64, window_ms: u64)
    requires
        forall|i: int| 0 <= i < h.len() ==> !in_window(#[trigger] h[i], now, window_ms),
    ensures
        prune(h, now, window_ms) == Seq::<u64>::empty(),
    decreases h.len(),
{
    if h.len() > 0 {
        lemma_prune_drops_stale(h.drop_last(), now, window_ms);
    }
}

/// The sliding-window law, one step at a time: with a positive maximum M,
/// a key whose history already holds M timestamps still inside the window
/// is rejected by the next check inside the window; and a key whose whole
/// history has aged out of the window is accepted again.
pub proof fn lemma_sliding_window(lim: RateLimiter, key: Seq<char>, now: u64)
    requires
        lim.wf(),
        lim.max_requests > 0,
    ensures
        (forall|i: int|
            0 <= i < lim.times_of(key).len() ==> in_window(
                #[trigger] lim.times_of(key)[i],
                now,
                lim.window_ms,
            )) && lim.times_of(key).len() >= lim.max_requests ==> prune(
            lim.times_of(key),
            now,
            lim.window_ms,
        ).len() >= lim.max_requests,
        (forall|i: int|
            0 <= i < lim.times_of(key).len() ==> !in_window(
                #[trigger] lim.times_of(key)[i],
                now,
                lim.window_ms,
            )) ==> prune(lim.times_of(key), now, lim.window_ms).len() == 0,
{
    let h = lim.times_of(key);
    if forall|i: int| 0 <= i < h.len() ==> in_window(#[trigger] h[i], now, lim.window_ms) {
        lemma_prune_keeps_fresh(h, now, lim.window_ms);
    }
    if forall|i: int| 0 <= i < h.len() ==> !in_window(#[trigger] h[i], now, lim.window_ms) {
        lemma_prune_drops_stale(h, now, lim.window_ms);
    }
}

} // verus!
