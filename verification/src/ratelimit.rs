//! Sliding-window rate limiting: an admission is allowed iff, after evicting
//! timestamps older than the window, fewer than `max_count` remain.
use vstd::prelude::*;

verus! {

/// Timestamps still inside the window at `now`: the stored sequence with its
/// expired prefix dropped.
pub open spec fn evict_expired(s: Seq<u64>, now: u64, window_ms: u64) -> Seq<u64>
    decreases s.len(),
{
    if s.len() > 0 && s[0] + window_ms < now {
        evict_expired(s.drop_first(), now, window_ms)
    } else {
        s
    }
}

/// If every stored timestamp is still inside the window, eviction keeps all.
pub proof fn lemma_evict_none(s: Seq<u64>, now: u64, window_ms: u64)
    requires
        forall|i: int| 0 <= i < s.len() ==> #[trigger] s[i] + window_ms >= now,
    ensures
        evict_expired(s, now, window_ms) == s,
{
}

/// If every stored timestamp has left the window, eviction empties the store.
pub proof fn lemma_evict_all(s: Seq<u64>, now: u64, window_ms: u64)
    requires
        forall|i: int| 0 <= i < s.len() ==> #[trigger] s[i] + window_ms < now,
    ensures
        evict_expired(s, now, window_ms) == Seq::<u64>::empty(),
    decreases s.len(),
{
    if s.len() > 0 {
        lemma_evict_all(s.drop_first(), now, window_ms);
    } else {
        assert(s =~= Seq::<u64>::empty());
    }
}

/// On a sorted store, everything eviction keeps is inside the window.
pub proof fn lemma_evict_in_window(s: Seq<u64>, now: u64, window_ms: u64)
    requires
        forall|i: int, j: int| 0 <= i <= j < s.len() ==> s[i] <= s[j],
    ensures
        forall|i: int|
            0 <= i < evict_expired(s, now, window_ms).len() ==> #[trigger] evict_expired(
                s,
                now,
                window_ms,
            )[i] + window_ms >= now,
    decreases s.len(),
{
    if s.len() > 0 && s[0] + window_ms < now {
        assert(forall|i: int, j: int|
            0 <= i <= j < s.drop_first().len() ==> s.drop_first()[i] <= s.drop_first()[j]);
        lemma_evict_in_window(s.drop_first(), now, window_ms);
        assert(evict_expired(s, now, window_ms) == evict_expired(s.drop_first(), now, window_ms));
        assert(forall|i: int|
            0 <= i < evict_expired(s, now, window_ms).len() ==> #[trigger] evict_expired(
                s,
                now,
                window_ms,
            )[i] + window_ms >= now) by {
            assert(forall|i: int|
                0 <= i < evict_expired(s.drop_first(), now, window_ms).len()
                    ==> #[trigger] evict_expired(s.drop_first(), now, window_ms)[i] + window_ms
                    >= now);
        }
    } else {
        assert(evict_expired(s, now, window_ms) == s);
        assert(forall|i: int| 0 <= i < s.len() ==> #[trigger] s[i] + window_ms >= now) by {
            assert(forall|i: int| 0 <= i < s.len() ==> s[0] <= #[trigger] s[i]);
        }
    }
}

/// Law: when `max_count` admissions stand inside the window, the next call
/// at `now` is denied and the store is left as it was — the `(N+1)`-th event
/// inside one window never passes.
pub proof fn lemma_rate_limiter_denies_when_full(l: RateLimiter, now_ms: u64)
    requires
        l.wf(),
        l.timestamps@.len() == l.max_count,
        forall|i: int|
            0 <= i < l.timestamps@.len() ==> #[trigger] l.timestamps@[i] + l.window_ms
                >= l.clamped(now_ms),
    ensures
        evict_expired(l.timestamps@, l.clamped(now_ms), l.window_ms) == l.timestamps@,
        !(evict_expired(l.timestamps@, l.clamped(now_ms), l.window_ms).len() < l.max_count),
{
    lemma_evict_none(l.timestamps@, l.clamped(now_ms), l.window_ms);
}

/// Law: once every stored admission has left the window, the store counts
/// for nothing — a call at `now` is admitted whenever the capacity is
/// positive, and a fresh run of `max_count` admissions can follow.
pub proof fn lemma_rate_limiter_resets_after_window(l: RateLimiter, now_ms: u64)
    requires
        l.wf(),
        forall|i: int|
            0 <= i < l.timestamps@.len() ==> #[trigger] l.timestamps@[i] + l.window_ms
                < l.clamped(now_ms),
    ensures
        evict_expired(l.timestamps@, l.clamped(now_ms), l.window_ms) == Seq::<u64>::empty(),
        l.max_count > 0 ==> evict_expired(l.timestamps@, l.clamped(now_ms), l.window_ms).len()
            < l.max_count,
{
    lemma_evict_all(l.timestamps@, l.clamped(now_ms), l.window_ms);
}

proof fn lemma_evict_len(s: Seq<u64>, now: u64, window_ms: u64)
    ensures
        evict_expired(s, now, window_ms).len() <= s.len(),
    decreases s.len(),
{
    if s.len() > 0 && s[0] + window_ms < now {
        lemma_evict_len(s.drop_first(), now, window_ms);
    }
}

/// Law: after eviction at `now` only in-window admissions remain, and they
/// number at most the capacity: what `remaining()` reports plus the
/// admissions still inside the window always account for the whole capacity.
pub proof fn lemma_rate_limiter_accounting(l: RateLimiter, now_ms: u64)
    requires
        l.wf(),
    ensures
        forall|i: int|
            0 <= i < evict_expired(l.timestamps@, l.clamped(now_ms), l.window_ms).len()
                ==> #[trigger] evict_expired(l.timestamps@, l.clamped(now_ms), l.window_ms)[i]
                + l.window_ms >= l.clamped(now_ms),
        evict_expired(l.timestamps@, l.clamped(now_ms), l.window_ms).len() <= l.max_count,
{
    lemma_evict_in_window(l.timestamps@, l.clamped(now_ms), l.window_ms);
    lemma_evict_len(l.timestamps@, l.clamped(now_ms), l.window_ms);
}

/// Sliding-window counter: capacity `max_count` over `window_ms` milliseconds.
pub struct RateLimiter {
    pub window_ms: u64,
    pub max_count: u32,
    pub timestamps: Vec<u64>,
    pub last_ms: u64,
}

impl RateLimiter {
    /// Stored timestamps are sorted, at most `max_count`, none after `last_ms`.
    pub open spec fn wf(self) -> bool {
        &&& self.timestamps@.len() <= self.max_count
        &&& forall|i: int, j: int|
            0 <= i <= j < self.timestamps@.len() ==> self.timestamps@[i] <= self.timestamps@[j]
        &&& forall|i: int|
            0 <= i < self.timestamps@.len() ==> #[trigger] self.timestamps@[i] <= self.last_ms
    }

    /// A fresh limiter admitting `max_count` events per `window_secs` seconds.
    pub fn new(max_count: u32, window_secs: u64) -> (r: RateLimiter)
        requires
            window_secs <= u64::MAX / 1000,
        ensures
            r.wf(),
            r.max_count == max_count,
            r.window_ms == window_secs * 1000,
            r.timestamps@ == Seq::<u64>::empty(),
    {
        RateLimiter { window_ms: window_secs * 1000, max_count, timestamps: Vec::new(), last_ms: 0 }
    }

    /// The effective clock the limiter uses for a call at `now_ms`: time never
    /// runs backwards past an already recorded admission.
    pub open spec fn clamped(self, now_ms: u64) -> u64 {
        if now_ms >= self.last_ms {
            now_ms
        } else {
            self.last_ms
        }
    }

    /// Admit-or-deny at `now_ms`.  Expired timestamps are dropped; the event
    /// is admitted iff fewer than `max_count` remain, and an admitted event's
    /// timestamp is recorded.
    pub fn check(&mut self, now_ms: u64) -> (admitted: bool)
        requires
            old(self).wf(),
        ensures
            final (self).wf(),
            final (self).window_ms == old(self).window_ms,
            final (self).max_count == old(self).max_count,
            admitted == (evict_expired(
                old(self).timestamps@,
                old(self).clamped(now_ms),
                old(self).window_ms,
            ).len() < old(self).max_count),
            final (self).timestamps@ == if admitted {
                evict_expired(
                    old(self).timestamps@,
                    old(self).clamped(now_ms),
                    old(self).window_ms,
                ).push(old(self).clamped(now_ms))
            } else {
                evict_expired(
                    old(self).timestamps@,
                    old(self).clamped(now_ms),
                    old(self).window_ms,
                )
            },
            final (self).last_ms == if admitted {
                old(self).clamped(now_ms)
            } else {
                old(self).last_ms
            },
    {
        let now = if now_ms >= self.last_ms {
            now_ms
        } else {
            self.last_ms
        };
        let ghost orig = self.timestamps@;
        if now >= self.window_ms {
            let cutoff = now - self.window_ms;
            while self.timestamps.len() > 0 && self.timestamps[0] < cutoff
                invariant
                    self.window_ms == old(self).window_ms,
                    self.max_count == old(self).max_count,
                    self.last_ms == old(self).last_ms,
                    now == old(self).clamped(now_ms),
                    now >= self.window_ms,
                    cutoff == now - self.window_ms,
                    evict_expired(orig, now, self.window_ms) == evict_expired(
                        self.timestamps@,
                        now,
                        self.window_ms,
                    ),
                    forall|i: int, j: int|
                        0 <= i <= j < self.timestamps@.len() ==> self.timestamps@[i]
                            <= self.timestamps@[j],
                    forall|i: int|
                        0 <= i < self.timestamps@.len() ==> #[trigger] self.timestamps@[i]
                            <= self.last_ms,
                    self.timestamps@.len() <= orig.len(),
                decreases self.timestamps@.len(),
            {
                let ghost pre = self.timestamps@;
                self.timestamps.remove(0);
                proof {
                    assert(self.timestamps@ =~= pre.drop_first());
                }
            }
        }
        proof {
            if self.timestamps@.len() > 0 {
                assert(self.timestamps@[0] + self.window_ms >= now);
            }
            assert(evict_expired(self.timestamps@, now, self.window_ms) == self.timestamps@);
        }
        if self.timestamps.len() >= self.max_count as usize {
            return false;
        }
        self.timestamps.push(now);
        self.last_ms = now;
        true
    }

    /// How many admissions are still free: `max_count` less the stored count.
    pub fn remaining(&self) -> (r: u32)
        requires
            self.wf(),
        ensures
            r == self.max_count - self.timestamps@.len(),
    {
        self.max_count - self.timestamps.len() as u32
    }
}

/// The two per-session limiters: messages per second and submits per minute.
pub struct SessionLimits {
    pub messages: RateLimiter,
    pub submits: RateLimiter,
}

impl SessionLimits {
    pub open spec fn wf(self) -> bool {
        self.messages.wf() && self.submits.wf()
    }

    pub fn new(messages_per_second: u32, submits_per_minute: u32) -> (r: SessionLimits)
        ensures
            r.wf(),
            r.messages.max_count == messages_per_second,
            r.messages.window_ms == 1000,
            r.messages.timestamps@ == Seq::<u64>::empty(),
            r.submits.max_count == submits_per_minute,
            r.submits.window_ms == 60000,
            r.submits.timestamps@ == Seq::<u64>::empty(),
    {
        SessionLimits {
            messages: RateLimiter::new(messages_per_second, 1),
            submits: RateLimiter::new(submits_per_minute, 60),
        }
    }
}

} // verus!
