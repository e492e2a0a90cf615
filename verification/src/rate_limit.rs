//! The deferred rate limiter: a local per-key counter cached in front of a
//! shared remote counter.
//!
//! The remote counter lives behind a network hop, so every decision here is
//! a pure function of the local state and of the remote's reply; the caller
//! performs the remote call (and the single-flight initialization) and
//! hands the reply back in. Remote failures degrade to local-only
//! accounting: the limiter fails open rather than denying users.
//!
//! Timestamps are seconds; a key is an integer identifier.

use vstd::prelude::*;
use vstd::pervasive::VecAdditionalExecFns;

verus! {

/// The limiter's answer for one call.
#[derive(Clone, Copy, Debug, PartialEq, Eq, Structural)]
pub enum DeferredRateLimitResult {
    Allowed,
    /// Denied until the given timestamp.
    RetryAt(u64),
    /// Permanently denied: the configured cap is zero.
    RetryNever,
}

/// What the remote counter replied: its post-increment count on success,
/// a retry time and count when over the cap, or a transport failure.
#[derive(Clone, Copy, Debug, PartialEq, Eq, Structural)]
pub enum RemoteRateLimitResult {
    /// The increment fit under the cap; the value is the post-increment count.
    Allowed(u64),
    /// Over the cap: retry at the timestamp; the count still advanced.
    RetryAt(u64, u64),
    /// The remote says the key is permanently denied.
    RetryNever,
    /// The remote could not be reached; no count is known.
    Error,
}

/// How a call that hit an existing local entry proceeds.
#[derive(Clone, Copy, Debug, PartialEq, Eq, Structural)]
pub enum LocalThrottleAction {
    /// The local counter already overshot the cap: deny without asking the
    /// remote.
    DenyLocal,
    /// Too close to the cap to defer: ask the remote and wait for it.
    CheckRemoteNow,
    /// Ample headroom: allow now, reconcile with the remote in the
    /// background.
    AllowDeferred,
}

/// The local count seeded for a fresh entry, and the initializer's answer,
/// for each possible remote reply. A remote failure seeds zero and allows:
/// the fail-open branch. A remote `RetryNever` against a positive cap is
/// treated defensively as a denial.
pub open spec fn spec_init_entry_outcome(remote: RemoteRateLimitResult) -> (u64,
    DeferredRateLimitResult) {
    match remote {
        RemoteRateLimitResult::Allowed(n) => (n, DeferredRateLimitResult::Allowed),
        RemoteRateLimitResult::RetryAt(t, n) => (n, DeferredRateLimitResult::RetryAt(t)),
        RemoteRateLimitResult::RetryNever => (0u64, DeferredRateLimitResult::RetryNever),
        RemoteRateLimitResult::Error => (0u64, DeferredRateLimitResult::Allowed),
    }
}

/// Decide a fresh entry's seed count and the initializer's result from the
/// remote's reply.
pub fn init_entry_outcome(remote: RemoteRateLimitResult) -> (r: (u64, DeferredRateLimitResult))
    ensures
        r == spec_init_entry_outcome(remote),
{
    match remote {
        RemoteRateLimitResult::Allowed(n) => (n, DeferredRateLimitResult::Allowed),
        RemoteRateLimitResult::RetryAt(t, n) => (n, DeferredRateLimitResult::RetryAt(t)),
        RemoteRateLimitResult::RetryNever => (0u64, DeferredRateLimitResult::RetryNever),
        RemoteRateLimitResult::Error => (0u64, DeferredRateLimitResult::Allowed),
    }
}

/// The action for a call whose increment took the local counter to
/// `new_local`: deny on overshoot, synchronize with the remote within
/// `threshold_pct` percent of the cap, otherwise allow and defer.
pub open spec fn spec_local_throttle_action(
    new_local: u64,
    max_per_period: u64,
    threshold_pct: u64,
) -> LocalThrottleAction {
    if new_local > max_per_period {
        LocalThrottleAction::DenyLocal
    } else if new_local > max_per_period * threshold_pct / 100 {
        LocalThrottleAction::CheckRemoteNow
    } else {
        LocalThrottleAction::AllowDeferred
    }
}

/// Decide how a cache-hit call proceeds, from the post-increment local
/// count. The local counter is never decremented on overshoot.
pub fn local_throttle_action(new_local: u64, max_per_period: u64, threshold_pct: u64) -> (r:
    LocalThrottleAction)
    requires
        max_per_period <= u64::MAX as u64 / 100,
        threshold_pct <= 100,
    ensures
        r == spec_local_throttle_action(new_local, max_per_period, threshold_pct),
{
    proof {
        assert(max_per_period * threshold_pct <= (u64::MAX as u64 / 100) * 100 <= u64::MAX)
            by (nonlinear_arith)
            requires
                max_per_period <= u64::MAX as u64 / 100,
                threshold_pct <= 100,
        ;
    }
    if new_local > max_per_period {
        LocalThrottleAction::DenyLocal
    } else if new_local > max_per_period * threshold_pct / 100 {
        LocalThrottleAction::CheckRemoteNow
    } else {
        LocalThrottleAction::AllowDeferred
    }
}

/// The authoritative count to store (if the remote supplied one) and the
/// result to report, for a remote reply received after an increment. On a
/// remote failure nothing is stored and the caller is allowed through.
pub open spec fn spec_remote_update_outcome(remote: RemoteRateLimitResult) -> (Option<u64>,
    DeferredRateLimitResult) {
    match remote {
        RemoteRateLimitResult::Allowed(n) => (Some(n), DeferredRateLimitResult::Allowed),
        RemoteRateLimitResult::RetryAt(t, n) => (Some(n), DeferredRateLimitResult::RetryAt(t)),
        RemoteRateLimitResult::RetryNever => (None, DeferredRateLimitResult::RetryNever),
        RemoteRateLimitResult::Error => (None, DeferredRateLimitResult::Allowed),
    }
}

/// Decide what a remote reply does to the local counter and what it
/// reports.
pub fn remote_update_outcome(remote: RemoteRateLimitResult) -> (r: (
    Option<u64>,
    DeferredRateLimitResult,
))
    ensures
        r == spec_remote_update_outcome(remote),
{
    match remote {
        RemoteRateLimitResult::Allowed(n) => (Some(n), DeferredRateLimitResult::Allowed),
        RemoteRateLimitResult::RetryAt(t, n) => (Some(n), DeferredRateLimitResult::RetryAt(t)),
        RemoteRateLimitResult::RetryNever => (None, DeferredRateLimitResult::RetryNever),
        RemoteRateLimitResult::Error => (None, DeferredRateLimitResult::Allowed),
    }
}

/// The first period boundary after `now`, for a period of `period`
/// seconds.
pub open spec fn spec_next_period(now: u64, period: u64) -> int {
    (now as int / period as int + 1) * period as int
}

/// The local count stored for `key`, if the sequence of entries holds one.
pub open spec fn lookup_count(s: Seq<(u64, u64)>, key: u64) -> Option<u64>
    decreases s.len(),
{
    if s.len() == 0 {
        None
    } else if s.last().0 == key {
        Some(s.last().1)
    } else {
        lookup_count(s.drop_last(), key)
    }
}

/// Entry keys appear at most once.
pub open spec fn unique_keys(s: Seq<(u64, u64)>) -> bool {
    forall|i: int, j: int| 0 <= i < j < s.len() ==> (#[trigger] s[i]).0 != (#[trigger] s[j]).0
}

/// The cap for one call: the override if given, the limiter's default
/// otherwise.
pub open spec fn spec_effective_max(max_per_period: Option<u64>, default_max: u64) -> u64 {
    match max_per_period {
        Some(m) => m,
        None => default_max,
    }
}

/// The entries and step produced by one local throttle check: a zero cap
/// denies forever; an unknown key asks for initialization; otherwise the
/// counter is bumped by `count` and the step follows the headroom.
pub open spec fn spec_throttle_check(
    s: Seq<(u64, u64)>,
    max_eff: u64,
    pct: u64,
    period: u64,
    key: u64,
    count: u64,
    now: u64,
) -> (Seq<(u64, u64)>, ThrottleStep) {
    if max_eff == 0 {
        (s, ThrottleStep::RetryNever)
    } else {
        match lookup_count(s, key) {
            None => (s, ThrottleStep::NeedInit),
            Some(prior) => {
                let new_local = (prior + count) as u64;
                let s2 = spec_update_count(s, key, new_local);
                match spec_local_throttle_action(new_local, max_eff, pct) {
                    LocalThrottleAction::DenyLocal => (
                        s2,
                        ThrottleStep::Deny(spec_next_period(now, period) as u64),
                    ),
                    LocalThrottleAction::CheckRemoteNow => (s2, ThrottleStep::SyncRemote),
                    LocalThrottleAction::AllowDeferred => (s2, ThrottleStep::AllowedDeferred),
                }
            },
        }
    }
}

/// A remote reply folded into the entries: an authoritative count
/// replaces the local one outright; otherwise nothing changes.
pub open spec fn spec_apply_remote(s: Seq<(u64, u64)>, key: u64, remote: RemoteRateLimitResult)
    -> Seq<(u64, u64)> {
    match spec_remote_update_outcome(remote).0 {
        Some(n) => spec_update_count(s, key, n),
        None => s,
    }
}

/// A whole throttle call, linearized: the local check followed by the
/// remote interaction its step asks for, with `remote` the reply the
/// remote counter gives when (and if) it is consulted. On the deferred
/// path the background reply is folded in as well, though the caller was
/// already allowed.
pub open spec fn spec_throttle(
    s: Seq<(u64, u64)>,
    cache_size: u64,
    max_eff: u64,
    pct: u64,
    period: u64,
    key: u64,
    count: u64,
    now: u64,
    remote: RemoteRateLimitResult,
) -> (Seq<(u64, u64)>, DeferredRateLimitResult) {
    let (s1, step) = spec_throttle_check(s, max_eff, pct, period, key, count, now);
    match step {
        ThrottleStep::RetryNever => (s1, DeferredRateLimitResult::RetryNever),
        ThrottleStep::NeedInit => (
            spec_insert_entry(s1, cache_size, key, spec_init_entry_outcome(remote).0),
            spec_init_entry_outcome(remote).1,
        ),
        ThrottleStep::Deny(t) => (s1, DeferredRateLimitResult::RetryAt(t)),
        ThrottleStep::SyncRemote => (
            spec_apply_remote(s1, key, remote),
            spec_remote_update_outcome(remote).1,
        ),
        ThrottleStep::AllowedDeferred => (
            spec_apply_remote(s1, key, remote),
            DeferredRateLimitResult::Allowed,
        ),
    }
}

/// A local cache that sits in front of a shared remote counter, keyed by
/// an integer identifier (an IP, a user key, a backend URL).
///
/// This is the limiter's sequential model: one call at a time, the remote
/// reply passed in. Entries are bounded by `cache_size`; the oldest entry
/// is evicted when a new key arrives at capacity (the concurrent cache
/// around it also expires entries after one period).
pub struct DeferredRateLimiter {
    prefix: String,
    period: u64,
    max_requests_per_period: u64,
    cache_size: u64,
    sync_threshold_pct: u64,
    entries: Vec<(u64, u64)>,
}

impl DeferredRateLimiter {
    /// Structural invariant: positive period, a sane threshold, a usable
    /// capacity, unique bounded entries, and a cap small enough for the
    /// percentage arithmetic.
    pub closed spec fn wf(&self) -> bool {
        &&& self.period >= 1
        &&& self.sync_threshold_pct <= 100
        &&& self.cache_size >= 1
        &&& self.max_requests_per_period <= u64::MAX as u64 / 100
        &&& unique_keys(self.entries@)
        &&& self.entries@.len() <= self.cache_size
    }

    pub closed spec fn spec_period(&self) -> u64 {
        self.period
    }

    pub closed spec fn spec_max(&self) -> u64 {
        self.max_requests_per_period
    }

    pub closed spec fn spec_threshold_pct(&self) -> u64 {
        self.sync_threshold_pct
    }

    pub closed spec fn spec_entries(&self) -> Seq<(u64, u64)> {
        self.entries@
    }

    pub closed spec fn spec_prefix(&self) -> Seq<char> {
        self.prefix@
    }

    pub closed spec fn spec_cache_size(&self) -> u64 {
        self.cache_size
    }

    /// Everything but the entries is unchanged.
    pub open spec fn same_config(&self, other: &Self) -> bool {
        &&& self.spec_period() == other.spec_period()
        &&& self.spec_max() == other.spec_max()
        &&& self.spec_threshold_pct() == other.spec_threshold_pct()
        &&& self.spec_cache_size() == other.spec_cache_size()
        &&& self.spec_prefix() == other.spec_prefix()
    }

    /// A fresh limiter: an empty local cache in front of a remote counter
    /// that resets every `period` seconds and caps `max_requests_per_period`
    /// increments per period. The remote is consulted synchronously within
    /// 99 percent of the cap.
    pub fn new(cache_size: u64, prefix: &str, period: u64, max_requests_per_period: u64) -> (r:
        Self)
        requires
            period >= 1,
            cache_size >= 1,
            max_requests_per_period <= u64::MAX as u64 / 100,
        ensures
            r.wf(),
            r.spec_entries() == Seq::<(u64, u64)>::empty(),
            r.spec_period() == period,
            r.spec_max() == max_requests_per_period,
            r.spec_cache_size() == cache_size,
            r.spec_threshold_pct() == 99,
            r.spec_prefix() == prefix@,
    {
        DeferredRateLimiter {
            prefix: prefix.to_owned(),
            period,
            max_requests_per_period,
            cache_size,
            sync_threshold_pct: 99,
            entries: Vec::new(),
        }
    }

    /// The same limiter with the remote-synchronization threshold set to
    /// `pct` percent of the cap.
    pub fn with_sync_threshold(self, pct: u64) -> (r: Self)
        requires
            self.wf(),
            pct <= 100,
        ensures
            r.wf(),
            r.spec_entries() == self.spec_entries(),
            r.spec_period() == self.spec_period(),
            r.spec_max() == self.spec_max(),
            r.spec_cache_size() == self.spec_cache_size(),
            r.spec_prefix() == self.spec_prefix(),
            r.spec_threshold_pct() == pct,
    {
        DeferredRateLimiter { sync_threshold_pct: pct, ..self }
    }

    /// The local count currently cached for `key`.
    pub fn local_count(&self, key: u64) -> (r: Option<u64>)
        requires
            self.wf(),
        ensures
            r == lookup_count(self.spec_entries(), key),
    {
        let mut i: usize = 0;
        while i < self.entries.len()
            invariant
                0 <= i <= self.entries@.len(),
                unique_keys(self.entries@),
                forall|j: int| 0 <= j < i ==> (#[trigger] self.entries@[j]).0 != key,
            decreases self.entries@.len() - i,
        {
            if self.entries[i].0 == key {
                proof {
                    lemma_lookup_at_unique(self.entries@, key, i as int);
                }
                return Some(self.entries[i].1);
            }
            i += 1;
        }
        proof {
            lemma_lookup_absent(self.entries@, key);
        }
        None
    }

    /// The first period boundary after `now`: when a denied caller may
    /// retry.
    pub fn next_period(&self, now: u64) -> (r: u64)
        requires
            self.wf(),
            now <= u64::MAX - self.spec_period(),
        ensures
            r == spec_next_period(now, self.spec_period()),
            r > now,
    {
        proof {
            lemma_next_period_bounds(now, self.period);
        }
        (now / self.period + 1) * self.period
    }

    /// Replace the count stored for a present key.
    fn update_count(&mut self, key: u64, v: u64)
        requires
            old(self).wf(),
            lookup_count(old(self).spec_entries(), key) is Some,
        ensures
            final(self).wf(),
            final(self).same_config(old(self)),
            final(self).spec_entries() == spec_update_count(old(self).spec_entries(), key, v),
    {
        let ghost s = self.entries@;
        let mut i: usize = 0;
        while i < self.entries.len()
            invariant
                0 <= i <= self.entries@.len(),
                old(self).wf(),
                self.same_config(old(self)),
                self.entries@ == s,
                s == old(self).spec_entries(),
                unique_keys(s),
                lookup_count(s, key) is Some,
                forall|j: int| 0 <= j < i ==> (#[trigger] s[j]).0 != key,
            decreases self.entries@.len() - i,
        {
            if self.entries[i].0 == key {
                self.entries.set(i, (key, v));
                proof {
                    assert forall|a: int, b: int|
                        0 <= a < b < self.entries@.len() implies (#[trigger] self.entries@[a]).0
                        != (#[trigger] self.entries@[b]).0 by {
                        assert(self.entries@[a].0 == s[a].0);
                        assert(self.entries@[b].0 == s[b].0);
                    }
                    assert(self.entries@ =~= spec_update_count(s, key, v));
                }
                return ;
            }
            i += 1;
        }
        proof {
            lemma_lookup_absent(s, key);
        }
    }

    /// Add an entry for a fresh key, evicting the oldest entry when the
    /// cache is full.
    fn insert_entry(&mut self, key: u64, v: u64)
        requires
            old(self).wf(),
            lookup_count(old(self).spec_entries(), key) is None,
        ensures
            final(self).wf(),
            final(self).same_config(old(self)),
            final(self).spec_entries() == spec_insert_entry(
                old(self).spec_entries(),
                old(self).spec_cache_size(),
                key,
                v,
            ),
    {
        let ghost s = self.entries@;
        proof {
            lemma_lookup_none_absent(s, key);
        }
        if self.entries.len() as u64 >= self.cache_size {
            self.entries.remove(0);
            proof {
                assert forall|a: int, b: int|
                    0 <= a < b < self.entries@.len() implies (#[trigger] self.entries@[a]).0
                    != (#[trigger] self.entries@[b]).0 by {
                    assert(self.entries@[a] == s[a + 1]);
                    assert(self.entries@[b] == s[b + 1]);
                }
            }
        }
        let ghost base = self.entries@;
        self.entries.push((key, v));
        proof {
            assert(forall|j: int|
                0 <= j < base.len() ==> (#[trigger] base[j]).0 != key) by {
                if self.cache_size <= s.len() {
                    assert(forall|j: int| 0 <= j < base.len() ==> base[j] == s[j + 1]);
                }
            }
            assert(forall|j: int|
                0 <= j < self.entries@.len() - 1 ==> (#[trigger] self.entries@[j]).0 != key);
        }
    }

    /// One throttle call against the local state alone: the decision and
    /// the follow-up the caller owes. On a cache hit the counter is bumped
    /// by `count` before anything is decided, and is never rolled back.
    pub fn throttle_check(&mut self, key: u64, max_per_period: Option<u64>, count: u64, now: u64)
        -> (r: ThrottleStep)
        requires
            old(self).wf(),
            max_per_period matches Some(m) ==> m <= u64::MAX as u64 / 100,
            now <= u64::MAX - old(self).spec_period(),
            lookup_count(old(self).spec_entries(), key) matches Some(prior) ==> prior + count
                <= u64::MAX,
        ensures
            final(self).wf(),
            final(self).same_config(old(self)),
            ({
                let (es, step) = spec_throttle_check(
                    old(self).spec_entries(),
                    spec_effective_max(max_per_period, old(self).spec_max()),
                    old(self).spec_threshold_pct(),
                    old(self).spec_period(),
                    key,
                    count,
                    now,
                );
                final(self).spec_entries() == es && r == step
            }),
    {
        let max_eff = match max_per_period {
            Some(m) => m,
            None => self.max_requests_per_period,
        };
        if max_eff == 0 {
            return ThrottleStep::RetryNever;
        }
        match self.local_count(key) {
            None => ThrottleStep::NeedInit,
            Some(prior) => {
                let new_local = prior + count;
                self.update_count(key, new_local);
                match local_throttle_action(new_local, max_eff, self.sync_threshold_pct) {
                    LocalThrottleAction::DenyLocal => ThrottleStep::Deny(self.next_period(now)),
                    LocalThrottleAction::CheckRemoteNow => ThrottleStep::SyncRemote,
                    LocalThrottleAction::AllowDeferred => ThrottleStep::AllowedDeferred,
                }
            },
        }
    }

    /// Seed a fresh entry from the single-flight remote reply and report
    /// the initializer's result. The remote was already incremented by
    /// that call; a remote failure seeds zero and lets the caller through.
    pub fn throttle_init(&mut self, key: u64, remote: RemoteRateLimitResult) -> (r:
        DeferredRateLimitResult)
        requires
            old(self).wf(),
            lookup_count(old(self).spec_entries(), key) is None,
        ensures
            final(self).wf(),
            final(self).same_config(old(self)),
            final(self).spec_entries() == spec_insert_entry(
                old(self).spec_entries(),
                old(self).spec_cache_size(),
                key,
                spec_init_entry_outcome(remote).0,
            ),
            r == spec_init_entry_outcome(remote).1,
    {
        let (seed, result) = init_entry_outcome(remote);
        self.insert_entry(key, seed);
        result
    }

    /// Fold a remote reply in: an authoritative count replaces the local
    /// one (never a decrement by this library; the remote may report any
    /// value), and the remote's verdict is reported. A reply for an
    /// entry that was evicted meanwhile changes nothing.
    pub fn throttle_remote_reply(&mut self, key: u64, remote: RemoteRateLimitResult) -> (r:
        DeferredRateLimitResult)
        requires
            old(self).wf(),
        ensures
            final(self).wf(),
            final(self).same_config(old(self)),
            final(self).spec_entries() == spec_apply_remote(
                old(self).spec_entries(),
                key,
                remote,
            ),
            r == spec_remote_update_outcome(remote).1,
    {
        let (store, result) = remote_update_outcome(remote);
        match store {
            Some(n) => {
                match self.local_count(key) {
                    Some(_) => self.update_count(key, n),
                    None => {
                        proof {
                            lemma_lookup_none_absent(self.entries@, key);
                            assert(spec_update_count(self.entries@, key, n) =~= self.entries@);
                        }
                    },
                }
            },
            None => {},
        }
        result
    }

    /// A whole throttle call, linearized: the local check, then the remote
    /// interaction that check asks for, with `remote` standing for the
    /// reply the remote counter gives when it is consulted (including on
    /// the deferred path, whose reply lands after the caller was allowed).
    pub fn throttle(
        &mut self,
        key: u64,
        max_per_period: Option<u64>,
        count: u64,
        now: u64,
        remote: RemoteRateLimitResult,
    ) -> (r: DeferredRateLimitResult)
        requires
            old(self).wf(),
            max_per_period matches Some(m) ==> m <= u64::MAX as u64 / 100,
            now <= u64::MAX - old(self).spec_period(),
            lookup_count(old(self).spec_entries(), key) matches Some(prior) ==> prior + count
                <= u64::MAX,
        ensures
            final(self).wf(),
            final(self).same_config(old(self)),
            ({
                let (es, result) = spec_throttle(
                    old(self).spec_entries(),
                    old(self).spec_cache_size(),
                    spec_effective_max(max_per_period, old(self).spec_max()),
                    old(self).spec_threshold_pct(),
                    old(self).spec_period(),
                    key,
                    count,
                    now,
                    remote,
                );
                final(self).spec_entries() == es && r == result
            }),
    {
        match self.throttle_check(key, max_per_period, count, now) {
            ThrottleStep::RetryNever => DeferredRateLimitResult::RetryNever,
            ThrottleStep::NeedInit => self.throttle_init(key, remote),
            ThrottleStep::Deny(t) => DeferredRateLimitResult::RetryAt(t),
            ThrottleStep::SyncRemote => self.throttle_remote_reply(key, remote),
            ThrottleStep::AllowedDeferred => {
                let _ = self.throttle_remote_reply(key, remote);
                DeferredRateLimitResult::Allowed
            },
        }
    }
}

/// One throttle call against the local state: either the caller must run
/// the single-flight initialization, or the local counter has been bumped
/// and the step says how to proceed.
#[derive(Clone, Copy, Debug, PartialEq, Eq, Structural)]
pub enum ThrottleStep {
    /// The cap is zero: permanently denied.
    RetryNever,
    /// No local entry: the caller performs the remote call (under the
    /// single-flight discipline) and hands the reply to `throttle_init`.
    NeedInit,
    /// The local counter overshot the cap: denied until the timestamp,
    /// without asking the remote. The counter stays bumped.
    Deny(u64),
    /// Too close to the cap to defer: the caller asks the remote now and
    /// hands the reply to `throttle_remote_reply`.
    SyncRemote,
    /// Allowed; the caller schedules a background remote call whose reply
    /// goes to `throttle_remote_reply` (its result is not reported).
    AllowedDeferred,
}

/// Every entry for `key` rewritten to count `v`; all other entries kept.
pub open spec fn spec_update_count(s: Seq<(u64, u64)>, key: u64, v: u64) -> Seq<(u64, u64)> {
    Seq::new(s.len(), |i: int| if s[i].0 == key { (key, v) } else { s[i] })
}

/// A fresh entry appended, after evicting the oldest entry if the cache
/// is full.
pub open spec fn spec_insert_entry(s: Seq<(u64, u64)>, cache_size: u64, key: u64, v: u64) -> Seq<
    (u64, u64),
> {
    let base = if s.len() >= cache_size {
        s.subrange(1, s.len() as int)
    } else {
        s
    };
    base.push((key, v))
}

/// With unique keys, holding the key at index `i` pins the lookup.
pub proof fn lemma_lookup_at_unique(s: Seq<(u64, u64)>, key: u64, i: int)
    requires
        unique_keys(s),
        0 <= i < s.len(),
        s[i].0 == key,
    ensures
        lookup_count(s, key) == Some(s[i].1),
    decreases s.len(),
{
    if i == s.len() - 1 {
    } else {
        assert(s.drop_last()[i] == s[i]);
        lemma_lookup_at_unique(s.drop_last(), key, i);
    }
}

/// A failed lookup means no entry holds the key.
pub proof fn lemma_lookup_none_absent(s: Seq<(u64, u64)>, key: u64)
    requires
        lookup_count(s, key) is None,
    ensures
        forall|j: int| 0 <= j < s.len() ==> (#[trigger] s[j]).0 != key,
    decreases s.len(),
{
    if s.len() > 0 {
        lemma_lookup_none_absent(s.drop_last(), key);
        assert forall|j: int| 0 <= j < s.len() implies (#[trigger] s[j]).0 != key by {
            if j < s.len() - 1 {
                assert(s[j] == s.drop_last()[j]);
            } else {
                assert(s[j] == s.last());
            }
        }
    }
}

/// A key held by no entry is not found.
pub proof fn lemma_lookup_absent(s: Seq<(u64, u64)>, key: u64)
    requires
        forall|j: int| 0 <= j < s.len() ==> (#[trigger] s[j]).0 != key,
    ensures
        lookup_count(s, key) is None,
    decreases s.len(),
{
    if s.len() > 0 {
        lemma_lookup_absent(s.drop_last(), key);
    }
}

/// Bounds used by `next_period`: the next boundary is within one period of
/// `now` and strictly after it.
proof fn lemma_next_period_bounds(now: u64, period: u64)
    requires
        period >= 1,
        now <= u64::MAX - period,
    ensures
        now < (now as int / period as int + 1) * period as int <= now + period,
{
    let q = now as int / period as int;
    let p = period as int;
    vstd::arithmetic::div_mod::lemma_fundamental_div_mod(now as int, p);
    assert((q + 1) * p == q * p + p) by (nonlinear_arith);
    assert(0 <= now as int % p < p) by {
        vstd::arithmetic::div_mod::lemma_mod_bound(now as int, p);
    }
}


/// Rewriting a present key's count keeps keys unique and pins the new
/// lookup.
pub proof fn lemma_update_count_props(s: Seq<(u64, u64)>, key: u64, v: u64)
    requires
        unique_keys(s),
        lookup_count(s, key) is Some,
    ensures
        unique_keys(spec_update_count(s, key, v)),
        lookup_count(spec_update_count(s, key, v), key) == Some(v),
{
    lemma_lookup_found_at(s, key);
    let i = choose|i: int| 0 <= i < s.len() && (#[trigger] s[i]).0 == key;
    let s2 = spec_update_count(s, key, v);
    assert(s2[i] == (key, v));
    assert forall|a: int, b: int| 0 <= a < b < s2.len() implies (#[trigger] s2[a]).0 != (
    #[trigger] s2[b]).0 by {
        assert(s2[a].0 == s[a].0);
        assert(s2[b].0 == s[b].0);
    }
    lemma_lookup_at_unique(s2, key, i);
}

/// A throttle check that hit an existing entry performs exactly one
/// increment of that key's counter — never a rollback — and denies
/// exactly when the incremented count overshoots the cap: the `Add`
/// events the counting laws below speak of.
pub proof fn lemma_throttle_check_is_one_add(
    s: Seq<(u64, u64)>,
    max_eff: u64,
    pct: u64,
    period: u64,
    key: u64,
    count: u64,
    now: u64,
    prior: u64,
)
    requires
        unique_keys(s),
        max_eff >= 1,
        lookup_count(s, key) == Some(prior),
        prior + count <= u64::MAX,
    ensures
        lookup_count(spec_throttle_check(s, max_eff, pct, period, key, count, now).0, key)
            == Some((prior + count) as u64),
        (spec_throttle_check(s, max_eff, pct, period, key, count, now).1 matches ThrottleStep::Deny(
            _,
        )) <==> prior + count > max_eff,
{
    lemma_update_count_props(s, key, (prior + count) as u64);
}

/// A found key names its index.
proof fn lemma_lookup_found_at(s: Seq<(u64, u64)>, key: u64)
    requires
        lookup_count(s, key) is Some,
    ensures
        exists|i: int| 0 <= i < s.len() && (#[trigger] s[i]).0 == key,
    decreases s.len(),
{
    if s.len() > 0 {
        if s.last().0 == key {
            assert(s[s.len() - 1].0 == key);
        } else {
            lemma_lookup_found_at(s.drop_last(), key);
            let i = choose|i: int|
                0 <= i < s.drop_last().len() && (#[trigger] s.drop_last()[i]).0 == key;
            assert(s[i].0 == key);
        }
    }
}

/// One observable change to a key's local counter: a caller's increment,
/// or an outright replacement by a remote reply.
#[derive(Clone, Copy, Debug, PartialEq, Eq, Structural)]
pub enum CounterEvent {
    /// `fetch_add` by a throttle call.
    Add(u64),
    /// `store` of a remote counter's authoritative value.
    Replace(u64),
}

/// The counter's value after a sequence of events, starting from `c0`.
pub open spec fn counter_after(c0: nat, evs: Seq<CounterEvent>) -> nat
    decreases evs.len(),
{
    if evs.len() == 0 {
        c0
    } else {
        match evs.last() {
            CounterEvent::Add(v) => (counter_after(c0, evs.drop_last()) + v) as nat,
            CounterEvent::Replace(v) => v as nat,
        }
    }
}

/// How many increments were admitted: an `Add` is admitted exactly when
/// the counter it produced is still within the cap.
pub open spec fn allowed_adds(c0: nat, evs: Seq<CounterEvent>, max: nat) -> nat
    decreases evs.len(),
{
    if evs.len() == 0 {
        0
    } else {
        allowed_adds(c0, evs.drop_last(), max) + match evs.last() {
            CounterEvent::Add(v) => if counter_after(c0, evs.drop_last()) + v <= max {
                1nat
            } else {
                0nat
            },
            CounterEvent::Replace(_) => 0nat,
        }
    }
}

/// Every increment is by at least one unit.
pub open spec fn positive_adds(evs: Seq<CounterEvent>) -> bool {
    forall|i: int|
        0 <= i < evs.len() ==> ((#[trigger] evs[i]) matches CounterEvent::Add(v) ==> v >= 1)
}

/// Every replacement writes at least the counter's value at that moment:
/// what a healthy remote reports, since the local count is a lower bound
/// on the shared one.
pub open spec fn healthy_replacements(c0: nat, evs: Seq<CounterEvent>) -> bool
    decreases evs.len(),
{
    if evs.len() == 0 {
        true
    } else {
        healthy_replacements(c0, evs.drop_last()) && match evs.last() {
            CounterEvent::Replace(v) => v >= counter_after(c0, evs.drop_last()),
            CounterEvent::Add(_) => true,
        }
    }
}

/// No replacement occurs: the stretch between two remote replies.
pub open spec fn no_replacements(evs: Seq<CounterEvent>) -> bool {
    forall|i: int| 0 <= i < evs.len() ==> !((#[trigger] evs[i]) is Replace)
}

/// For one key, over any interleaving of throttle increments and remote
/// replies within one period: when every remote reply is healthy (it
/// never reports less than the local count it replaces), at most `max`
/// increments are admitted. `c0` is the seeded count and `a0` how many
/// admissions it already accounts for (one, when the initializer itself
/// was allowed).
pub proof fn lemma_allowed_calls_bounded(c0: nat, a0: nat, evs: Seq<CounterEvent>, max: nat)
    requires
        a0 <= c0,
        a0 <= max,
        positive_adds(evs),
        healthy_replacements(c0, evs),
    ensures
        a0 + allowed_adds(c0, evs, max) <= max,
        a0 + allowed_adds(c0, evs, max) <= counter_after(c0, evs),
    decreases evs.len(),
{
    if evs.len() > 0 {
        assert(positive_adds(evs.drop_last())) by {
            assert(forall|i: int|
                0 <= i < evs.len() - 1 ==> evs.drop_last()[i] == (#[trigger] evs[i]));
        }
        lemma_allowed_calls_bounded(c0, a0, evs.drop_last(), max);
        match evs.last() {
            CounterEvent::Add(v) => {
                assert(evs[evs.len() - 1] matches CounterEvent::Add(w) ==> w >= 1);
            },
            CounterEvent::Replace(v) => {},
        }
    }
}

/// Between remote replies the local counter never decreases: increments
/// only add.
pub proof fn lemma_counter_monotone_between_replies(c0: nat, evs: Seq<CounterEvent>)
    requires
        no_replacements(evs),
    ensures
        counter_after(c0, evs) >= c0,
    decreases evs.len(),
{
    if evs.len() > 0 {
        assert(no_replacements(evs.drop_last())) by {
            assert(forall|i: int|
                0 <= i < evs.len() - 1 ==> evs.drop_last()[i] == (#[trigger] evs[i]));
        }
        lemma_counter_monotone_between_replies(c0, evs.drop_last());
        assert(!(evs[evs.len() - 1] is Replace));
    }
}

/// When the remote counter fails, the limiter fails open: every throttle
/// call whose local counter does not overshoot the cap is allowed. (A
/// call that does overshoot locally is denied without consulting the
/// remote, failure or not.)
pub proof fn lemma_fail_open(
    s: Seq<(u64, u64)>,
    cache_size: u64,
    max_eff: u64,
    pct: u64,
    period: u64,
    key: u64,
    count: u64,
    now: u64,
)
    requires
        max_eff >= 1,
        lookup_count(s, key) matches Some(prior) ==> prior + count <= max_eff,
    ensures
        spec_throttle(
            s,
            cache_size,
            max_eff,
            pct,
            period,
            key,
            count,
            now,
            RemoteRateLimitResult::Error,
        ).1 == DeferredRateLimitResult::Allowed,
{
}

/// The remote reply a call consumes is healthy for the state it meets:
/// any count it carries is at least the local count after that call's own
/// increment (the local count is a lower bound on the shared one), a
/// granted count is within the cap, and the counter has room to count.
pub open spec fn healthy_reply_at(
    s: Seq<(u64, u64)>,
    key: u64,
    max_eff: u64,
    reply: RemoteRateLimitResult,
) -> bool {
    lookup_count(s, key) matches Some(c) && c < u64::MAX && match reply {
        RemoteRateLimitResult::Allowed(n) => n <= max_eff && n >= c + 1,
        RemoteRateLimitResult::RetryAt(_, n) => n >= c + 1,
        RemoteRateLimitResult::RetryNever => true,
        RemoteRateLimitResult::Error => true,
    }
}

/// The entries and the number of calls answered `Allowed` after a run of
/// single-unit throttle calls for one key, the remote answering each call
/// as `replies` says.
pub open spec fn spec_run_throttle(
    s: Seq<(u64, u64)>,
    cache_size: u64,
    max_eff: u64,
    pct: u64,
    period: u64,
    key: u64,
    now: u64,
    replies: Seq<RemoteRateLimitResult>,
) -> (Seq<(u64, u64)>, nat)
    decreases replies.len(),
{
    if replies.len() == 0 {
        (s, 0nat)
    } else {
        let prev = spec_run_throttle(
            s,
            cache_size,
            max_eff,
            pct,
            period,
            key,
            now,
            replies.drop_last(),
        );
        let step = spec_throttle(
            prev.0,
            cache_size,
            max_eff,
            pct,
            period,
            key,
            1,
            now,
            replies.last(),
        );
        (
            step.0,
            prev.1 + if step.1 == DeferredRateLimitResult::Allowed {
                1nat
            } else {
                0nat
            },
        )
    }
}

/// Every reply in the run is healthy for the state it meets.
pub open spec fn healthy_run(
    s: Seq<(u64, u64)>,
    cache_size: u64,
    max_eff: u64,
    pct: u64,
    period: u64,
    key: u64,
    now: u64,
    replies: Seq<RemoteRateLimitResult>,
) -> bool
    decreases replies.len(),
{
    if replies.len() == 0 {
        true
    } else {
        healthy_run(s, cache_size, max_eff, pct, period, key, now, replies.drop_last())
            && healthy_reply_at(
            spec_run_throttle(
                s,
                cache_size,
                max_eff,
                pct,
                period,
                key,
                now,
                replies.drop_last(),
            ).0,
            key,
            max_eff,
            replies.last(),
        )
    }
}

/// For one key and any interleaving of single-unit throttle calls within
/// one period, while the remote is healthy — its counts never fall below
/// the local counter they replace and never grant past the cap — at most
/// the cap's worth of calls are answered `Allowed`. `a0` is how many
/// grants the seeded count `c0` already stands for (one, when the
/// initializer itself was allowed).
pub proof fn lemma_throttle_run_allowed_bounded(
    s: Seq<(u64, u64)>,
    cache_size: u64,
    max_eff: u64,
    pct: u64,
    period: u64,
    key: u64,
    now: u64,
    replies: Seq<RemoteRateLimitResult>,
    a0: nat,
)
    requires
        unique_keys(s),
        max_eff >= 1,
        lookup_count(s, key) matches Some(c0) && a0 <= c0,
        a0 <= max_eff,
        healthy_run(s, cache_size, max_eff, pct, period, key, now, replies),
    ensures
        a0 + spec_run_throttle(s, cache_size, max_eff, pct, period, key, now, replies).1
            <= max_eff,
        ({
            let run = spec_run_throttle(s, cache_size, max_eff, pct, period, key, now, replies);
            &&& unique_keys(run.0)
            &&& lookup_count(run.0, key) matches Some(c) && a0 + run.1 <= c
        }),
    decreases replies.len(),
{
    if replies.len() > 0 {
        lemma_throttle_run_allowed_bounded(
            s,
            cache_size,
            max_eff,
            pct,
            period,
            key,
            now,
            replies.drop_last(),
            a0,
        );
        let prev = spec_run_throttle(
            s,
            cache_size,
            max_eff,
            pct,
            period,
            key,
            now,
            replies.drop_last(),
        );
        let a = a0 + prev.1;
        let c = lookup_count(prev.0, key)->Some_0;
        let reply = replies.last();
        let bumped = spec_update_count(prev.0, key, (c + 1) as u64);
        lemma_update_count_props(prev.0, key, (c + 1) as u64);
        match spec_remote_update_outcome(reply).0 {
            Some(n) => {
                lemma_update_count_props(bumped, key, n);
            },
            None => {},
        }
    }
}

} // verus!
