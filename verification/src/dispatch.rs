//! Tiered dispatch: picking an upstream backend for each request.
//!
//! A pool is an ordered set of backends sharing a chain. Selection walks
//! the backends that are synced to the pool's head, lightest relative
//! load first (ties by configuration order), and admits the first one
//! that is neither busy nor rate-limited. The network calls themselves,
//! and the sleeps between rate-limit retries, happen outside the library;
//! their verdicts and replies are handed back in.

use crate::cache::key_view;
use crate::cache::CacheKeyView;
use crate::cache::lookup_entry;
use crate::cache::spec_cache_insert;
use crate::cache::CacheKey;
use crate::cache::ResponseCache;
use crate::config::Web3ConnectionConfig;
use crate::jsonrpc::ClientError;
use crate::jsonrpc::JsonRpcErrorData;
use crate::jsonrpc::JsonRpcForwardedResponse;
use crate::jsonrpc::JsonRpcForwardedResponseEnum;
use crate::jsonrpc::JsonRpcRequest;
use crate::jsonrpc::JsonRpcRequestEnum;
use crate::jsonrpc::ProviderError;
use crate::jsonrpc::INTERNAL_ERROR_CODE;
use crate::jsonrpc::INVALID_REQUEST_CODE;
use crate::jsonrpc::JsonRpcParseError;
use crate::jsonrpc::spec_parse_error_message;
use crate::rate_limit::DeferredRateLimitResult;
use vstd::prelude::*;

verus! {

/// One upstream node as the dispatcher sees it: a point-in-time snapshot
/// of its head block and load.
pub struct BackendInfo {
    /// The display name reported in response headers.
    pub name: String,
    /// The last head block seen from this backend.
    pub head_block_number: u64,
    /// Maximum concurrent in-flight requests.
    pub soft_limit: u64,
    /// Requests in flight right now.
    pub in_flight: u64,
    /// Whether this backend is only a backup.
    pub backup: bool,
}

/// Relative load never exceeding: `a.in_flight / a.soft_limit <=
/// b.in_flight / b.soft_limit`, compared without division.
pub open spec fn load_le(a: BackendInfo, b: BackendInfo) -> bool {
    a.in_flight as int * b.soft_limit as int <= b.in_flight as int * a.soft_limit as int
}

/// A backend is selectable at all: synced to the required head, and with
/// a usable concurrency budget (a zero soft limit can never admit).
pub open spec fn eligible(b: BackendInfo, min_head: u64) -> bool {
    b.head_block_number >= min_head && b.soft_limit >= 1
}

/// Index `i` is served before index `j`: strictly lighter relative load,
/// or an equal load and an earlier configuration position.
pub open spec fn prefer(backends: Seq<BackendInfo>, i: usize, j: usize) -> bool {
    if load_le(backends[i as int], backends[j as int]) && load_le(
        backends[j as int],
        backends[i as int],
    ) {
        i < j
    } else {
        load_le(backends[i as int], backends[j as int])
    }
}

/// `load_le` is transitive over positive soft limits.
proof fn lemma_load_le_trans(a: BackendInfo, b: BackendInfo, c: BackendInfo)
    requires
        a.soft_limit >= 1,
        b.soft_limit >= 1,
        c.soft_limit >= 1,
        load_le(a, b),
        load_le(b, c),
    ensures
        load_le(a, c),
{
    let (ia, sa) = (a.in_flight as int, a.soft_limit as int);
    let (ib, sb) = (b.in_flight as int, b.soft_limit as int);
    let (ic, sc) = (c.in_flight as int, c.soft_limit as int);
    assert(ia * sc <= ic * sa) by (nonlinear_arith)
        requires
            ia * sb <= ib * sa,
            ib * sc <= ic * sb,
            sa >= 1,
            sb >= 1,
            sc >= 1,
    ;
}

/// Index `i` inserted into an already load-sorted sequence of indices,
/// after every index whose load does not exceed `i`'s.
pub open spec fn spec_insert_by_load(backends: Seq<BackendInfo>, s: Seq<usize>, i: usize) -> Seq<
    usize,
>
    decreases s.len(),
{
    if s.len() == 0 {
        seq![i]
    } else if load_le(backends[s[0] as int], backends[i as int]) {
        seq![s[0]] + spec_insert_by_load(backends, s.drop_first(), i)
    } else {
        seq![i] + s
    }
}

/// The selection order over the first `n` backends: the eligible indices,
/// lightest relative load first, ties by configuration order.
pub open spec fn spec_candidate_order(backends: Seq<BackendInfo>, min_head: u64, n: int) -> Seq<
    usize,
>
    decreases n,
{
    if n <= 0 {
        Seq::<usize>::empty()
    } else {
        let prev = spec_candidate_order(backends, min_head, n - 1);
        if eligible(backends[n - 1], min_head) {
            spec_insert_by_load(backends, prev, (n - 1) as usize)
        } else {
            prev
        }
    }
}

/// The indices in a selection order, as a set-membership statement.
pub open spec fn order_contains(s: Seq<usize>, t: usize) -> bool {
    exists|a: int| 0 <= a < s.len() && s[a] == t
}

/// Inserting an index keeps the order sorted and adds exactly that index,
/// provided every present index is smaller (earlier in configuration) and
/// eligible soft limits are positive.
proof fn lemma_insert_by_load_props(backends: Seq<BackendInfo>, s: Seq<usize>, i: usize)
    requires
        i < backends.len(),
        forall|a: int| 0 <= a < s.len() ==> (#[trigger] s[a]) < i,
        forall|a: int| 0 <= a < s.len() ==> backends[(#[trigger] s[a]) as int].soft_limit >= 1,
        backends[i as int].soft_limit >= 1,
        forall|a: int, b: int|
            0 <= a < b < s.len() ==> prefer(backends, #[trigger] s[a], #[trigger] s[b]),
    ensures
        spec_insert_by_load(backends, s, i).len() == s.len() + 1,
        forall|t: usize|
            order_contains(spec_insert_by_load(backends, s, i), t) ==> (order_contains(s, t) || t
                == i),
        forall|t: usize|
            order_contains(s, t) ==> order_contains(spec_insert_by_load(backends, s, i), t),
        order_contains(spec_insert_by_load(backends, s, i), i),
        forall|a: int, b: int|
            0 <= a < b < spec_insert_by_load(backends, s, i).len() ==> prefer(
                backends,
                #[trigger] spec_insert_by_load(backends, s, i)[a],
                #[trigger] spec_insert_by_load(backends, s, i)[b],
            ),
    decreases s.len(),
{
    let r = spec_insert_by_load(backends, s, i);
    if s.len() == 0 {
        assert(r =~= seq![i]);
        assert forall|t: usize| order_contains(r, t) implies (order_contains(s, t) || t == i) by {
            let a = choose|a: int| 0 <= a < r.len() && r[a] == t;
        }
        assert(r[0] == i);
        assert(order_contains(r, i));
    } else if load_le(backends[s[0] as int], backends[i as int]) {
        let tail = s.drop_first();
        assert(forall|a: int| 0 <= a < tail.len() ==> (#[trigger] tail[a]) == s[a + 1]);
        lemma_insert_by_load_props(backends, tail, i);
        let rest = spec_insert_by_load(backends, tail, i);
        assert(r =~= seq![s[0]] + rest);
        assert(forall|b: int| 1 <= b < r.len() ==> (#[trigger] r[b]) == rest[b - 1]);
        // the head precedes the inserted index and everything it preceded
        assert(prefer(backends, s[0], i));
        assert forall|t: usize| order_contains(rest, t) implies prefer(backends, s[0], t) by {
            if t == i {
            } else {
                assert(order_contains(tail, t));
                let w = choose|w: int| 0 <= w < tail.len() && tail[w] == t;
                assert(tail[w] == s[w + 1]);
                assert(prefer(backends, s[0], s[w + 1]));
            }
        }
        assert forall|a: int, b: int| 0 <= a < b < r.len() implies prefer(
            backends,
            #[trigger] r[a],
            #[trigger] r[b],
        ) by {
            if a == 0 {
                assert(r[b] == rest[b - 1]);
                assert(order_contains(rest, rest[b - 1]));
            } else {
                assert(r[a] == rest[a - 1]);
                assert(r[b] == rest[b - 1]);
            }
        }
        // membership both ways
        assert forall|t: usize| order_contains(r, t) implies (order_contains(s, t) || t == i) by {
            let a = choose|a: int| 0 <= a < r.len() && r[a] == t;
            if a == 0 {
                assert(s[0] == t);
            } else {
                assert(rest[a - 1] == t);
                assert(order_contains(rest, t));
                if order_contains(tail, t) {
                    let w = choose|w: int| 0 <= w < tail.len() && tail[w] == t;
                    assert(s[w + 1] == t);
                }
            }
        }
        assert(order_contains(r, i)) by {
            let w = choose|w: int| 0 <= w < rest.len() && rest[w] == i;
            assert(r[w + 1] == i);
        }
        assert forall|t: usize| order_contains(s, t) implies order_contains(r, t) by {
            let w = choose|w: int| 0 <= w < s.len() && s[w] == t;
            if w == 0 {
                assert(r[0] == t);
            } else {
                assert(tail[w - 1] == t);
                assert(order_contains(tail, t));
                assert(order_contains(rest, t));
                let w2 = choose|w2: int| 0 <= w2 < rest.len() && rest[w2] == t;
                assert(r[w2 + 1] == t);
            }
        }
    } else {
        assert(r =~= seq![i] + s);
        assert(forall|b: int| 1 <= b < r.len() ==> (#[trigger] r[b]) == s[b - 1]);
        // i is strictly lighter than s[0], hence than every member
        assert forall|b: int| 0 <= b < s.len() implies prefer(backends, i, #[trigger] s[b]) by {
            assert(load_le(backends[i as int], backends[s[0] as int]));
            if b == 0 {
            } else {
                assert(prefer(backends, s[0], s[b]));
                assert(load_le(backends[s[0] as int], backends[s[b] as int]));
                lemma_load_le_trans(
                    backends[i as int],
                    backends[s[0] as int],
                    backends[s[b] as int],
                );
                if load_le(backends[s[b] as int], backends[i as int]) {
                    lemma_load_le_trans(
                        backends[s[0] as int],
                        backends[s[b] as int],
                        backends[i as int],
                    );
                    assert(false);
                }
            }
        }
        assert forall|a: int, b: int| 0 <= a < b < r.len() implies prefer(
            backends,
            #[trigger] r[a],
            #[trigger] r[b],
        ) by {
            if a == 0 {
                assert(r[b] == s[b - 1]);
            } else {
                assert(r[a] == s[a - 1]);
                assert(r[b] == s[b - 1]);
            }
        }
        assert forall|t: usize| order_contains(r, t) implies (order_contains(s, t) || t == i) by {
            let a = choose|a: int| 0 <= a < r.len() && r[a] == t;
            if a > 0 {
                assert(s[a - 1] == t);
            }
        }
        assert(r[0] == i);
        assert(order_contains(r, i));
        assert forall|t: usize| order_contains(s, t) implies order_contains(r, t) by {
            let w = choose|w: int| 0 <= w < s.len() && s[w] == t;
            assert(r[w + 1] == t);
        }
    }
}

/// The selection order holds exactly the eligible indices, each once,
/// lightest relative load first with ties broken by configuration order.
pub proof fn lemma_candidate_order_props(backends: Seq<BackendInfo>, min_head: u64, n: int)
    requires
        0 <= n <= backends.len(),
        n <= usize::MAX,
    ensures
        forall|a: int|
            0 <= a < spec_candidate_order(backends, min_head, n).len() ==> (
            #[trigger] spec_candidate_order(backends, min_head, n)[a]) < n && eligible(
                backends[spec_candidate_order(backends, min_head, n)[a] as int],
                min_head,
            ),
        forall|t: usize|
            0 <= (t as int) < n && eligible(backends[t as int], min_head) ==> order_contains(
                spec_candidate_order(backends, min_head, n),
                t,
            ),
        forall|a: int, b: int|
            0 <= a < b < spec_candidate_order(backends, min_head, n).len() ==> prefer(
                backends,
                #[trigger] spec_candidate_order(backends, min_head, n)[a],
                #[trigger] spec_candidate_order(backends, min_head, n)[b],
            ),
    decreases n,
{
    if n > 0 {
        lemma_candidate_order_props(backends, min_head, n - 1);
        let prev = spec_candidate_order(backends, min_head, n - 1);
        let cur = spec_candidate_order(backends, min_head, n);
        if eligible(backends[n - 1], min_head) {
            assert forall|a: int| 0 <= a < prev.len() implies (#[trigger] prev[a]) < (n - 1)
                as usize by {
                assert(prev[a] < n - 1);
            }
            assert forall|a: int|
                0 <= a < prev.len() implies backends[(#[trigger] prev[a]) as int].soft_limit
                >= 1 by {
                assert(eligible(backends[prev[a] as int], min_head));
            }
            lemma_insert_by_load_props(backends, prev, (n - 1) as usize);
            assert forall|a: int| 0 <= a < cur.len() implies (#[trigger] cur[a]) < n && eligible(
                backends[cur[a] as int],
                min_head,
            ) by {
                assert(order_contains(cur, cur[a]));
                let t = cur[a];
                if order_contains(prev, t) {
                    let w = choose|w: int| 0 <= w < prev.len() && prev[w] == t;
                    assert(prev[w] < n - 1);
                } else {
                    assert(t == (n - 1) as usize);
                }
            }
            assert forall|t: usize|
                0 <= (t as int) < n && eligible(backends[t as int], min_head) implies
            order_contains(cur, t) by {
                if (t as int) < n - 1 {
                    assert(order_contains(prev, t));
                } else {
                    assert(t == (n - 1) as usize);
                }
            }
        }
    }
}

/// Whether `a`'s relative load does not exceed `b`'s, without division.
fn load_le_exec(a: &BackendInfo, b: &BackendInfo) -> (r: bool)
    ensures
        r == load_le(*a, *b),
{
    proof {
        assert(a.in_flight as int * b.soft_limit as int <= u64::MAX as int * u64::MAX as int
            && b.in_flight as int * a.soft_limit as int <= u64::MAX as int * u64::MAX as int)
            by (nonlinear_arith)
            requires
                a.in_flight <= u64::MAX,
                b.soft_limit <= u64::MAX,
                b.in_flight <= u64::MAX,
                a.soft_limit <= u64::MAX,
        ;
    }
    (a.in_flight as u128) * (b.soft_limit as u128) <= (b.in_flight as u128) * (a.soft_limit
        as u128)
}

/// The order in which a pool's backends are tried: the backends synced to
/// `min_head` with a usable soft limit, lightest relative load first,
/// ties broken by configuration order.
pub fn backend_candidates(backends: &Vec<BackendInfo>, min_head: u64) -> (r: Vec<usize>)
    ensures
        r@ == spec_candidate_order(backends@, min_head, backends@.len() as int),
{
    let mut order: Vec<usize> = Vec::new();
    let mut i: usize = 0;
    while i < backends.len()
        invariant
            i <= backends@.len(),
            order@ == spec_candidate_order(backends@, min_head, i as int),
            forall|a: int| 0 <= a < order@.len() ==> (#[trigger] order@[a]) < i,
        decreases backends@.len() - i,
    {
        proof {
            lemma_candidate_order_props(backends@, min_head, i as int);
        }
        if backends[i].head_block_number >= min_head && backends[i].soft_limit >= 1 {
            let ghost s0 = order@;
            proof {
                assert(s0.skip(0) =~= s0);
                assert(s0.take(0) + spec_insert_by_load(backends@, s0, i as usize)
                    =~= spec_insert_by_load(backends@, s0, i as usize));
            }
            let mut pos: usize = 0;
            while pos < order.len() && load_le_exec(&backends[order[pos]], &backends[i])
                invariant
                    pos <= order@.len(),
                    order@ == s0,
                    i < backends@.len(),
                    forall|a: int| 0 <= a < order@.len() ==> (#[trigger] order@[a]) < i,
                    spec_insert_by_load(backends@, s0, i as usize) == s0.take(pos as int)
                        + spec_insert_by_load(backends@, s0.skip(pos as int), i as usize),
                decreases order@.len() - pos,
            {
                proof {
                    let sk = s0.skip(pos as int);
                    assert(sk[0] == s0[pos as int]);
                    assert(sk.drop_first() =~= s0.skip(pos as int + 1));
                    assert(s0.take(pos as int).push(s0[pos as int]) =~= s0.take(pos as int + 1));
                    assert(s0.take(pos as int) + (seq![s0[pos as int]] + spec_insert_by_load(
                        backends@,
                        sk.drop_first(),
                        i as usize,
                    )) =~= s0.take(pos as int + 1) + spec_insert_by_load(
                        backends@,
                        s0.skip(pos as int + 1),
                        i as usize,
                    ));
                }
                pos += 1;
            }
            proof {
                let sk = s0.skip(pos as int);
                if pos < s0.len() {
                    assert(sk[0] == s0[pos as int]);
                    assert(seq![i as usize] + sk == spec_insert_by_load(backends@, sk, i as usize));
                } else {
                    assert(sk =~= Seq::<usize>::empty());
                }
                assert(spec_insert_by_load(backends@, s0, i as usize) =~= s0.insert(
                    pos as int,
                    i as usize,
                ));
            }
            order.insert(pos, i);
        }
        i += 1;
    }
    proof {
        assert(order@ == spec_candidate_order(backends@, min_head, backends@.len() as int));
    }
    order
}

/// A pool's answer to a selection attempt.
#[derive(Clone, Copy, Debug, PartialEq, Eq, Structural)]
pub enum NextUpstream {
    /// The chosen backend's index; the claim on its soft-limit slot is the
    /// caller's.
    Server(usize),
    /// Every otherwise-usable backend was rate-limited; the earliest time
    /// any becomes available.
    RateLimited(u64),
    /// No backend is synced and free: nothing to wait for here.
    NotSynced,
}

/// The smaller of an accumulated earliest time and a new one.
pub open spec fn opt_min(acc: Option<u64>, t: u64) -> u64 {
    match acc {
        Some(x) => if x <= t {
            x
        } else {
            t
        },
        None => t,
    }
}

/// Walk the candidates from position `from`, `acc` holding the earliest
/// retry time seen: the first candidate that is not excluded (already
/// tried and failed this request), not busy (no free soft-limit slot)
/// and not rate-limited wins; when none wins, the earliest retry time if
/// any candidate was rate-limited, else nothing.
pub open spec fn spec_pick_from(
    backends: Seq<BackendInfo>,
    cands: Seq<usize>,
    verdicts: Seq<DeferredRateLimitResult>,
    excluded: Seq<bool>,
    from: int,
    acc: Option<u64>,
) -> NextUpstream
    decreases cands.len() - from,
{
    if from < 0 || from >= cands.len() {
        match acc {
            Some(t) => NextUpstream::RateLimited(t),
            None => NextUpstream::NotSynced,
        }
    } else {
        let b = cands[from];
        if excluded[b as int] || backends[b as int].in_flight >= backends[b as int].soft_limit {
            spec_pick_from(backends, cands, verdicts, excluded, from + 1, acc)
        } else {
            match verdicts[b as int] {
                DeferredRateLimitResult::Allowed => NextUpstream::Server(b),
                DeferredRateLimitResult::RetryAt(t) => spec_pick_from(
                    backends,
                    cands,
                    verdicts,
                    excluded,
                    from + 1,
                    Some(opt_min(acc, t)),
                ),
                DeferredRateLimitResult::RetryNever => spec_pick_from(
                    backends,
                    cands,
                    verdicts,
                    excluded,
                    from + 1,
                    acc,
                ),
            }
        }
    }
}

/// Try the candidates in order: excluded and busy backends are passed
/// over, a rate-limited backend contributes its retry time, and the first
/// free, admitted backend is returned.
pub fn next_upstream_from(
    backends: &Vec<BackendInfo>,
    cands: &Vec<usize>,
    verdicts: &Vec<DeferredRateLimitResult>,
    excluded: &Vec<bool>,
) -> (r: NextUpstream)
    requires
        forall|a: int| 0 <= a < cands@.len() ==> (#[trigger] cands@[a]) < backends@.len(),
        verdicts@.len() == backends@.len(),
        excluded@.len() == backends@.len(),
    ensures
        r == spec_pick_from(backends@, cands@, verdicts@, excluded@, 0, None),
{
    let mut acc: Option<u64> = None;
    let mut j: usize = 0;
    while j < cands.len()
        invariant
            j <= cands@.len(),
            forall|a: int| 0 <= a < cands@.len() ==> (#[trigger] cands@[a]) < backends@.len(),
            verdicts@.len() == backends@.len(),
            excluded@.len() == backends@.len(),
            spec_pick_from(backends@, cands@, verdicts@, excluded@, 0, None) == spec_pick_from(
                backends@,
                cands@,
                verdicts@,
                excluded@,
                j as int,
                acc,
            ),
        decreases cands@.len() - j,
    {
        let b = cands[j];
        if !excluded[b] && backends[b].in_flight < backends[b].soft_limit {
            match verdicts[b] {
                DeferredRateLimitResult::Allowed => {
                    return NextUpstream::Server(b);
                },
                DeferredRateLimitResult::RetryAt(t) => {
                    acc = Some(
                        match acc {
                            Some(x) => if x <= t {
                                x
                            } else {
                                t
                            },
                            None => t,
                        },
                    );
                },
                DeferredRateLimitResult::RetryNever => {},
            }
        }
        j += 1;
    }
    match acc {
        Some(t) => NextUpstream::RateLimited(t),
        None => NextUpstream::NotSynced,
    }
}

/// An ordered set of backends sharing a chain: one tier of the proxy.
pub struct ConnectionPool {
    /// The highest block this pool has seen across its backends.
    pub head_block_number: u64,
    /// The backends, in configuration order.
    pub backends: Vec<BackendInfo>,
}

impl BackendInfo {
    /// A request was handed to this backend: one more in flight.
    pub fn note_request_started(&mut self)
        requires
            old(self).in_flight < u64::MAX,
        ensures
            final (self).in_flight == old(self).in_flight + 1,
            final (self).name == old(self).name,
            final (self).head_block_number == old(self).head_block_number,
            final (self).soft_limit == old(self).soft_limit,
            final (self).backup == old(self).backup,
    {
        self.in_flight = self.in_flight + 1;
    }

    /// A request finished (or its future was dropped): its soft-limit
    /// slot is released.
    pub fn note_request_finished(&mut self)
        ensures
            final (self).in_flight == if old(self).in_flight > 0 {
                (old(self).in_flight - 1) as u64
            } else {
                0u64
            },
            final (self).name == old(self).name,
            final (self).head_block_number == old(self).head_block_number,
            final (self).soft_limit == old(self).soft_limit,
            final (self).backup == old(self).backup,
    {
        if self.in_flight > 0 {
            self.in_flight = self.in_flight - 1;
        }
    }

    /// A new head block seen from this backend: the recorded head only
    /// ever rises.
    pub fn raise_head_block(&mut self, observed: u64)
        ensures
            final (self).head_block_number == if observed > old(self).head_block_number {
                observed
            } else {
                old(self).head_block_number
            },
            final (self).name == old(self).name,
            final (self).in_flight == old(self).in_flight,
            final (self).soft_limit == old(self).soft_limit,
            final (self).backup == old(self).backup,
    {
        if observed > self.head_block_number {
            self.head_block_number = observed;
        }
    }
}

/// The head a backend must have reached to be tried: the pool's head,
/// less the allowed lag.
pub open spec fn spec_min_head(pool_head: u64, allowed_lag: u64) -> u64 {
    if pool_head >= allowed_lag {
        (pool_head - allowed_lag) as u64
    } else {
        0u64
    }
}

/// What `next_upstream_server` answers: the §4.4 walk over the eligible
/// backends in load order.
pub open spec fn spec_next_upstream(
    pool: ConnectionPool,
    allowed_lag: u64,
    verdicts: Seq<DeferredRateLimitResult>,
    excluded: Seq<bool>,
) -> NextUpstream {
    spec_pick_from(
        pool.backends@,
        spec_candidate_order(
            pool.backends@,
            spec_min_head(pool.head_block_number, allowed_lag),
            pool.backends@.len() as int,
        ),
        verdicts,
        excluded,
        0,
        None,
    )
}

impl ConnectionPool {
    /// Choose the next backend to serve a request: among the backends
    /// synced to within `allowed_lag` of the pool's head, lightest
    /// relative load first (ties by configuration order), the first that
    /// has a free soft-limit slot and whose hard-limit verdict admits it.
    /// When all otherwise-usable backends are rate-limited, the earliest
    /// retry time is reported instead.
    ///
    /// `verdicts[b]` is the hard-limit (deferred rate limiter) verdict for
    /// backend `b`; a backend with no hard limit is `Allowed`.
    /// `excluded[b]` marks a backend already tried for this request (a
    /// transport failure there): it is passed over.
    pub fn next_upstream_server(
        &self,
        allowed_lag: u64,
        verdicts: &Vec<DeferredRateLimitResult>,
        excluded: &Vec<bool>,
    ) -> (r: NextUpstream)
        requires
            verdicts@.len() == self.backends@.len(),
            excluded@.len() == self.backends@.len(),
        ensures
            r == spec_next_upstream(*self, allowed_lag, verdicts@, excluded@),
    {
        let min_head = if self.head_block_number >= allowed_lag {
            self.head_block_number - allowed_lag
        } else {
            0
        };
        let cands = backend_candidates(&self.backends, min_head);
        let nb = self.backends.len();
        proof {
            assert(self.backends@.len() == nb);
            lemma_candidate_order_props(
                self.backends@,
                min_head,
                self.backends@.len() as int,
            );
        }
        next_upstream_from(&self.backends, &cands, verdicts, excluded)
    }
}

/// The error object reported for a failed backend call: an upstream
/// JSON-RPC error object is copied verbatim; any other failure keeps its
/// message under the internal-error code.
pub open spec fn spec_backend_error_data(e: ProviderError) -> JsonRpcErrorData {
    match e {
        ProviderError::JsonRpcClientError(ClientError::JsonRpcError(d)) => d,
        ProviderError::JsonRpcClientError(ClientError::Other(m)) => JsonRpcErrorData {
            code: INTERNAL_ERROR_CODE,
            message: m,
            data: None,
        },
        ProviderError::Other(m) => JsonRpcErrorData {
            code: INTERNAL_ERROR_CODE,
            message: m,
            data: None,
        },
    }
}

/// `resp` is exactly the response the dispatcher owes for a backend's
/// reply to the request with this id.
pub open spec fn response_matches(
    resp: JsonRpcForwardedResponse,
    id: String,
    reply: Result<String, ProviderError>,
) -> bool {
    &&& resp.id == id
    &&& resp.jsonrpc@ == "2.0"@
    &&& match reply {
        Ok(partial) => resp.result == Some(partial) && resp.error is None,
        Err(e) => resp.result is None && resp.error == Some(spec_backend_error_data(e)),
    }
}

/// Every response the dispatcher assembles for a backend reply carries the
/// request's id exactly, byte for byte: success, upstream error object and
/// transport failure alike.
pub proof fn lemma_response_preserves_id(
    resp: JsonRpcForwardedResponse,
    id: String,
    reply: Result<String, ProviderError>,
)
    requires
        response_matches(resp, id, reply),
    ensures
        resp.id == id,
        resp.id@ == id@,
{
}

/// Turn a backend's reply into the response sent to the caller, under the
/// caller's own id. Errors are translated as §spec_backend_error_data.
pub fn handle_backend_reply(reply: Result<String, ProviderError>, id: String) -> (r:
    JsonRpcForwardedResponse)
    ensures
        response_matches(r, id, reply),
{
    match reply {
        Ok(partial) => JsonRpcForwardedResponse::from_response(partial, id),
        Err(e) => {
            let d = match e {
                ProviderError::JsonRpcClientError(ClientError::JsonRpcError(d)) => d,
                ProviderError::JsonRpcClientError(ClientError::Other(m)) => JsonRpcErrorData {
                    code: INTERNAL_ERROR_CODE,
                    message: m,
                    data: None,
                },
                ProviderError::Other(m) => JsonRpcErrorData {
                    code: INTERNAL_ERROR_CODE,
                    message: m,
                    data: None,
                },
            };
            JsonRpcForwardedResponse {
                jsonrpc: "2.0".to_owned(),
                id,
                result: None,
                error: Some(d),
            }
        },
    }
}

/// What the dispatcher does with a backend's reply.
pub enum ReplyAction {
    /// Answer the caller with this response.
    Respond(JsonRpcForwardedResponse),
    /// A transport-level failure: exclude the backend that was tried and
    /// scan for the next one; when none is left, answer with the carried
    /// translation of this failure.
    TryNextThen(JsonRpcForwardedResponse),
}

/// Decide a backend reply's fate. A result, and an upstream JSON-RPC
/// error object (which is authoritative), answer the caller at once. A
/// transport-level failure — connection refused, timeout, anything
/// without an upstream error object — is retried on the next backend:
/// its internal-error translation is surfaced only when every backend
/// has been exhausted. Every carried response is under the caller's own
/// id.
pub fn backend_reply_action(reply: Result<String, ProviderError>, id: String) -> (r: ReplyAction)
    ensures
        match reply {
            Ok(_) => r matches ReplyAction::Respond(resp) && response_matches(resp, id, reply),
            Err(ProviderError::JsonRpcClientError(ClientError::JsonRpcError(_))) => r
                matches ReplyAction::Respond(resp) && response_matches(resp, id, reply),
            Err(_) => r matches ReplyAction::TryNextThen(resp) && response_matches(
                resp,
                id,
                reply,
            ),
        },
{
    let transport_failure = match &reply {
        Ok(_) => false,
        Err(ProviderError::JsonRpcClientError(ClientError::JsonRpcError(_))) => false,
        Err(_) => true,
    };
    let resp = handle_backend_reply(reply, id);
    if transport_failure {
        ReplyAction::TryNextThen(resp)
    } else {
        ReplyAction::Respond(resp)
    }
}

/// The first successful reply wins the fanout; replies after it are not
/// read, and errors never displace a success.
pub fn first_ok(replies: &Vec<Result<String, ProviderError>>) -> (r: Option<usize>)
    ensures
        match r {
            Some(i) => i < replies@.len() && replies@[i as int] is Ok && forall|j: int|
                0 <= j < i ==> (#[trigger] replies@[j]) is Err,
            None => forall|j: int| 0 <= j < replies@.len() ==> (#[trigger] replies@[j]) is Err,
        },
{
    let mut i: usize = 0;
    while i < replies.len()
        invariant
            i <= replies@.len(),
            forall|j: int| 0 <= j < i ==> (#[trigger] replies@[j]) is Err,
        decreases replies@.len() - i,
    {
        if replies[i].is_ok() {
            return Some(i);
        }
        i += 1;
    }
    None
}

/// `resp` is the error object owed for a batch slot whose request could
/// not be read: the invalid-request code under the null id, the other
/// slots unaffected.
pub open spec fn parse_error_matches(resp: JsonRpcForwardedResponse, e: JsonRpcParseError) -> bool {
    &&& resp.jsonrpc@ == "2.0"@
    &&& resp.id@ == "null"@
    &&& resp.result is None
    &&& resp.error matches Some(err) && err.code == INVALID_REQUEST_CODE && err.message@
        == spec_parse_error_message(e) && err.data is None
}

/// How many of the first `n` batch slots parsed: the slots whose calls
/// went to a backend, in order.
pub open spec fn ok_slots(
    slots: Seq<Result<JsonRpcRequest, JsonRpcParseError>>,
    n: int,
) -> nat
    decreases n,
{
    if n <= 0 {
        0nat
    } else {
        ok_slots(slots, n - 1) + if slots[n - 1] is Ok {
            1nat
        } else {
            0nat
        }
    }
}

/// Counting parsed slots never decreases as the prefix grows.
proof fn lemma_ok_slots_mono(slots: Seq<Result<JsonRpcRequest, JsonRpcParseError>>, i: int, j: int)
    requires
        0 <= i <= j,
    ensures
        ok_slots(slots, i) <= ok_slots(slots, j),
    decreases j - i,
{
    if i < j {
        lemma_ok_slots_mono(slots, i, j - 1);
    }
}

/// Assemble a batch's responses, one per slot and in slot order: a parsed
/// slot is answered from its backend reply under its own id, and a
/// malformed slot carries the invalid-request error object while the
/// other slots are unaffected. `replies` holds the backend replies of the
/// parsed slots, in order.
pub fn proxy_web3_rpc_requests(
    slots: &Vec<Result<JsonRpcRequest, JsonRpcParseError>>,
    replies: &Vec<Result<String, ProviderError>>,
) -> (rs: Vec<JsonRpcForwardedResponse>)
    requires
        replies@.len() == ok_slots(slots@, slots@.len() as int),
    ensures
        rs@.len() == slots@.len(),
        forall|i: int|
            0 <= i < slots@.len() ==> match slots@[i] {
                Ok(q) => response_matches(
                    #[trigger] rs@[i],
                    q.id,
                    replies@[ok_slots(slots@, i) as int],
                ),
                Err(e) => parse_error_matches(rs@[i], e),
            },
{
    let mut rs: Vec<JsonRpcForwardedResponse> = Vec::new();
    let nr = replies.len();
    let mut k: usize = 0;
    let mut i: usize = 0;
    while i < slots.len()
        invariant
            i <= slots@.len(),
            rs@.len() == i,
            k == ok_slots(slots@, i as int),
            nr == replies@.len(),
            replies@.len() == ok_slots(slots@, slots@.len() as int),
            forall|j: int|
                0 <= j < i ==> match slots@[j] {
                    Ok(q) => response_matches(
                        #[trigger] rs@[j],
                        q.id,
                        replies@[ok_slots(slots@, j) as int],
                    ),
                    Err(e) => parse_error_matches(rs@[j], e),
                },
        decreases slots@.len() - i,
    {
        match &slots[i] {
            Ok(q) => {
                proof {
                    lemma_ok_slots_mono(slots@, i as int + 1, slots@.len() as int);
                }
                let reply_copy: Result<String, ProviderError> = match &replies[k] {
                    Ok(partial) => Ok(partial.clone()),
                    Err(e) => Err(e.duplicate()),
                };
                rs.push(handle_backend_reply(reply_copy, q.id.clone()));
                k += 1;
            },
            Err(e) => {
                rs.push(JsonRpcForwardedResponse::from_parse_error(*e));
            },
        }
        i += 1;
    }
    rs
}

/// One response object per request object: a single request is answered
/// singly, a batch by a batch of the same length, slot for slot, every id
/// preserved and every malformed slot carrying its error object.
pub fn proxy_web3_rpc(request: &JsonRpcRequestEnum, replies: &Vec<Result<String, ProviderError>>)
    -> (r: JsonRpcForwardedResponseEnum)
    requires
        request matches JsonRpcRequestEnum::Single(_) ==> replies@.len() == 1,
        request matches JsonRpcRequestEnum::Batch(slots) ==> replies@.len() == ok_slots(
            slots@,
            slots@.len() as int,
        ),
    ensures
        match *request {
            JsonRpcRequestEnum::Single(q) => r matches JsonRpcForwardedResponseEnum::Single(resp)
                && response_matches(resp, q.id, replies@[0]),
            JsonRpcRequestEnum::Batch(slots) => r matches JsonRpcForwardedResponseEnum::Batch(rs)
                && rs@.len() == slots@.len() && forall|i: int|
                0 <= i < slots@.len() ==> match slots@[i] {
                    Ok(q) => response_matches(
                        #[trigger] rs@[i],
                        q.id,
                        replies@[ok_slots(slots@, i) as int],
                    ),
                    Err(e) => parse_error_matches(rs@[i], e),
                },
        },
{
    match request {
        JsonRpcRequestEnum::Single(q) => {
            let reply_copy: Result<String, ProviderError> = match &replies[0] {
                Ok(partial) => Ok(partial.clone()),
                Err(e) => Err(e.duplicate()),
            };
            JsonRpcForwardedResponseEnum::Single(handle_backend_reply(reply_copy, q.id.clone()))
        },
        JsonRpcRequestEnum::Batch(slots) => {
            JsonRpcForwardedResponseEnum::Batch(proxy_web3_rpc_requests(slots, replies))
        },
    }
}

/// The response cache holds this many entries unless configured
/// otherwise.
pub const RESPONSE_CACHE_CAP: usize = 1024;

/// What one scan over the tiers decided.
#[derive(Clone, Copy, Debug, PartialEq, Eq, Structural)]
pub enum TierScan {
    /// Send the request to this backend of this pool (an index into the
    /// walked pool order, the private pool last).
    Use { pool: usize, backend: usize },
    /// Every usable backend across the tiers was rate-limited; sleep until
    /// this time and scan again.
    Backoff(u64),
    /// No pool had a synced, free backend and none was rate-limited: there
    /// is nothing to wait for.
    NoneSynced,
}

/// What one dispatch round decided for a request on the tiered path.
pub enum RoundOutcome {
    /// Answer straight from the response cache; no backend is contacted.
    CacheHit(JsonRpcForwardedResponse),
    /// Send the request to this backend of this pool.
    CallBackend { pool: usize, backend: usize },
    /// Sleep until this time, then run another round.
    Backoff(u64),
    /// No server is in sync: fail the request.
    NoServers,
}

/// How the private transaction fanout starts.
pub enum PrivateFanout {
    /// Send the call to all of these backends at once.
    Fanout(Vec<usize>),
    /// All were rate-limited: sleep until this time and try again.
    Wait(u64),
    /// No private backend can take the call and none is rate-limited.
    NoPrivate,
}

/// The application: the tiers in preference order, the optional private
/// pool for transaction broadcasts, and the response cache. This is the
/// dispatcher's decision state; network calls, clocks and locks live with
/// the caller, which feeds their outcomes back in.
pub struct Web3ProxyApp {
    /// The highest block observed across all pools.
    pub best_head_block_number: u64,
    /// Send requests to the best server available, walking these in order.
    pub balanced_rpc_tiers: Vec<ConnectionPool>,
    /// Send private requests (transaction broadcasts) to all of these.
    pub private_rpcs: Option<ConnectionPool>,
    pub response_cache: ResponseCache,
}

/// The pools in the order a scan walks them: the balanced tiers, then the
/// private pool as a last resort when one is configured.
pub open spec fn spec_all_pools(app: Web3ProxyApp) -> Seq<ConnectionPool> {
    app.balanced_rpc_tiers@ + match app.private_rpcs {
        Some(p) => seq![p],
        None => Seq::<ConnectionPool>::empty(),
    }
}

/// The cache key a request is answered under: the best head block at
/// dispatch time, the method, and the canonical params text.
pub open spec fn spec_request_cache_key(app: Web3ProxyApp, request: JsonRpcRequest)
    -> CacheKeyView {
    (
        app.best_head_block_number,
        request.method@,
        match request.params {
            Some(p) => Some(p@),
            None => None,
        },
    )
}

/// Walk the pools from position `from`: a pool whose head lags the best
/// head is skipped; the first pool that yields a server wins; rate-limit
/// refusals accumulate their earliest retry time.
pub open spec fn spec_scan_from(
    pools: Seq<ConnectionPool>,
    best_head: u64,
    allowed_lag: u64,
    verdicts: Seq<Vec<DeferredRateLimitResult>>,
    excluded: Seq<Vec<bool>>,
    from: int,
    acc: Option<u64>,
) -> TierScan
    decreases pools.len() - from,
{
    if from < 0 || from >= pools.len() {
        match acc {
            Some(t) => TierScan::Backoff(t),
            None => TierScan::NoneSynced,
        }
    } else if pools[from].head_block_number < best_head {
        spec_scan_from(pools, best_head, allowed_lag, verdicts, excluded, from + 1, acc)
    } else {
        match spec_next_upstream(pools[from], allowed_lag, verdicts[from]@, excluded[from]@) {
            NextUpstream::Server(b) => TierScan::Use { pool: from as usize, backend: b },
            NextUpstream::RateLimited(t) => spec_scan_from(
                pools,
                best_head,
                allowed_lag,
                verdicts,
                excluded,
                from + 1,
                Some(opt_min(acc, t)),
            ),
            NextUpstream::NotSynced => spec_scan_from(
                pools,
                best_head,
                allowed_lag,
                verdicts,
                excluded,
                from + 1,
                acc,
            ),
        }
    }
}

/// The private backends that admit a fanout right now: not busy, and with
/// an allowing hard-limit verdict; in configuration order.
pub open spec fn spec_fanout_handles(
    backends: Seq<BackendInfo>,
    verdicts: Seq<DeferredRateLimitResult>,
    n: int,
) -> Seq<usize>
    decreases n,
{
    if n <= 0 {
        Seq::<usize>::empty()
    } else {
        let prev = spec_fanout_handles(backends, verdicts, n - 1);
        if backends[n - 1].in_flight < backends[n - 1].soft_limit && verdicts[n - 1]
            is Allowed {
            prev.push((n - 1) as usize)
        } else {
            prev
        }
    }
}

/// The earliest retry time among the private backends that were refused
/// with one.
pub open spec fn spec_fanout_min_retry(
    verdicts: Seq<DeferredRateLimitResult>,
    n: int,
    acc: Option<u64>,
) -> Option<u64>
    decreases n,
{
    if n <= 0 {
        acc
    } else {
        let prev = spec_fanout_min_retry(verdicts, n - 1, acc);
        match verdicts[n - 1] {
            DeferredRateLimitResult::RetryAt(t) => Some(opt_min(prev, t)),
            _ => prev,
        }
    }
}

impl Web3ProxyApp {
    /// The application is usable: its cache invariant holds.
    pub open spec fn wf(&self) -> bool {
        self.response_cache.wf()
    }

    /// Build the dispatcher state from configuration: one pool per
    /// balanced tier in order, the private pool only when any private
    /// backend is configured, every head block and in-flight count at
    /// zero, and an empty response cache.
    pub fn try_new(
        balanced_rpc_tiers: &Vec<Vec<Web3ConnectionConfig>>,
        private_rpcs: &Vec<Web3ConnectionConfig>,
    ) -> (r: Self)
        ensures
            r.wf(),
            r.best_head_block_number == 0,
            r.response_cache.entries() == Seq::<((u64, Seq<char>, Option<Seq<char>>), Seq<
                char,
            >)>::empty(),
            r.response_cache.spec_capacity() == RESPONSE_CACHE_CAP,
            r.balanced_rpc_tiers@.len() == balanced_rpc_tiers@.len(),
            forall|t: int|
                0 <= t < balanced_rpc_tiers@.len() ==> pool_matches_configs(
                    #[trigger] r.balanced_rpc_tiers@[t],
                    balanced_rpc_tiers@[t]@,
                ),
            private_rpcs@.len() == 0 ==> r.private_rpcs is None,
            private_rpcs@.len() > 0 ==> (r.private_rpcs matches Some(p) && pool_matches_configs(
                p,
                private_rpcs@,
            )),
    {
        let mut tiers: Vec<ConnectionPool> = Vec::new();
        let mut t: usize = 0;
        while t < balanced_rpc_tiers.len()
            invariant
                t <= balanced_rpc_tiers@.len(),
                tiers@.len() == t,
                forall|u: int|
                    0 <= u < t ==> pool_matches_configs(
                        #[trigger] tiers@[u],
                        balanced_rpc_tiers@[u]@,
                    ),
            decreases balanced_rpc_tiers@.len() - t,
        {
            tiers.push(pool_from_configs(&balanced_rpc_tiers[t]));
            t += 1;
        }
        let private = if private_rpcs.len() == 0 {
            None
        } else {
            Some(pool_from_configs(private_rpcs))
        };
        Web3ProxyApp {
            best_head_block_number: 0,
            balanced_rpc_tiers: tiers,
            private_rpcs: private,
            response_cache: ResponseCache::new(RESPONSE_CACHE_CAP),
        }
    }

    /// Record a newly observed head block: the best head only ever rises
    /// (a compare-and-set raise, many observers racing).
    pub fn raise_best_head(&mut self, observed: u64)
        ensures
            final (self).best_head_block_number == if observed > old(self).best_head_block_number {
                observed
            } else {
                old(self).best_head_block_number
            },
            final (self).balanced_rpc_tiers == old(self).balanced_rpc_tiers,
            final (self).private_rpcs == old(self).private_rpcs,
            final (self).response_cache == old(self).response_cache,
    {
        if observed > self.best_head_block_number {
            self.best_head_block_number = observed;
        }
    }

    /// Whether this request takes the private fanout path: a transaction
    /// broadcast while a private pool is configured.
    pub fn use_private_fanout(&self, request: &JsonRpcRequest) -> (r: bool)
        ensures
            r == (request.method@ == "eth_sendRawTransaction"@ && self.private_rpcs is Some),
    {
        if self.private_rpcs.is_some() {
            let broadcast_method: String = "eth_sendRawTransaction".to_owned();
            request.method.eq(&broadcast_method)
        } else {
            false
        }
    }

    /// The key this request is cached under right now.
    pub fn cache_key_for(&self, request: &JsonRpcRequest) -> (k: CacheKey)
        ensures
            key_view(k) == spec_request_cache_key(*self, *request),
    {
        (
            self.best_head_block_number,
            request.method.clone(),
            match &request.params {
                Some(p) => Some(p.clone()),
                None => None,
            },
        )
    }

    /// Probe the response cache. A hit is answered under the request's own
    /// id, and no backend is contacted.
    pub fn check_cache(&self, request: &JsonRpcRequest) -> (r: Option<JsonRpcForwardedResponse>)
        ensures
            match r {
                Some(resp) => resp.id == request.id && resp.jsonrpc@ == "2.0"@ && resp.error
                    is None && resp.result is Some && match resp.result {
                    Some(v) => Some(v@),
                    None => None,
                } == lookup_entry(
                    self.response_cache.entries(),
                    spec_request_cache_key(*self, *request),
                ),
                None => lookup_entry(
                    self.response_cache.entries(),
                    spec_request_cache_key(*self, *request),
                ) is None,
            },
    {
        let key = self.cache_key_for(request);
        match self.response_cache.get(&key) {
            Some(cached) => Some(
                JsonRpcForwardedResponse::from_response(cached.clone(), request.id.clone()),
            ),
            None => None,
        }
    }

    /// Store a backend result under the key it was dispatched with. The
    /// caller may skip this on lock contention: an entry is only a
    /// speed-up.
    pub fn store_response(&mut self, key: CacheKey, result: String)
        requires
            old(self).wf(),
        ensures
            final (self).wf(),
            final (self).response_cache.entries() == spec_cache_insert(
                old(self).response_cache.entries(),
                old(self).response_cache.spec_capacity(),
                key_view(key),
                result@,
            ),
            final (self).best_head_block_number == old(self).best_head_block_number,
            final (self).balanced_rpc_tiers == old(self).balanced_rpc_tiers,
            final (self).private_rpcs == old(self).private_rpcs,
    {
        self.response_cache.insert(key, result);
    }

    /// One scan over the tiers, the private pool appended as a last
    /// resort: the first pool synced to the best head that yields a
    /// backend wins; otherwise the earliest rate-limit retry time, if any
    /// pool reported one.
    ///
    /// `verdicts[p][b]` is the hard-limit verdict for backend `b` of pool
    /// `p` in the walked order; `excluded[p][b]` marks a backend already
    /// tried for this request (a transport failure there), to be passed
    /// over when the scan runs again.
    pub fn scan_tiers(
        &self,
        allowed_lag: u64,
        verdicts: &Vec<Vec<DeferredRateLimitResult>>,
        excluded: &Vec<Vec<bool>>,
    ) -> (r: TierScan)
        requires
            verdicts@.len() == spec_all_pools(*self).len(),
            excluded@.len() == spec_all_pools(*self).len(),
            forall|p: int|
                0 <= p < spec_all_pools(*self).len() ==> (#[trigger] verdicts@[p])@.len()
                    == spec_all_pools(*self)[p].backends@.len(),
            forall|p: int|
                0 <= p < spec_all_pools(*self).len() ==> (#[trigger] excluded@[p])@.len()
                    == spec_all_pools(*self)[p].backends@.len(),
        ensures
            r == spec_scan_from(
                spec_all_pools(*self),
                self.best_head_block_number,
                allowed_lag,
                verdicts@,
                excluded@,
                0,
                None,
            ),
    {
        let ghost pools = spec_all_pools(*self);
        let nt = self.balanced_rpc_tiers.len();
        proof {
            assert(forall|u: int|
                0 <= u < self.balanced_rpc_tiers@.len() ==> pools[u]
                    == (#[trigger] self.balanced_rpc_tiers@[u]));
        }
        let mut acc: Option<u64> = None;
        let mut j: usize = 0;
        while j < nt
            invariant
                j <= nt,
                nt == self.balanced_rpc_tiers@.len(),
                pools == spec_all_pools(*self),
                verdicts@.len() == pools.len(),
                excluded@.len() == pools.len(),
                forall|p: int|
                    0 <= p < pools.len() ==> (#[trigger] verdicts@[p])@.len()
                        == pools[p].backends@.len(),
                forall|p: int|
                    0 <= p < pools.len() ==> (#[trigger] excluded@[p])@.len()
                        == pools[p].backends@.len(),
                forall|u: int|
                    0 <= u < self.balanced_rpc_tiers@.len() ==> pools[u]
                        == (#[trigger] self.balanced_rpc_tiers@[u]),
                spec_scan_from(
                    pools,
                    self.best_head_block_number,
                    allowed_lag,
                    verdicts@,
                    excluded@,
                    0,
                    None,
                ) == spec_scan_from(
                    pools,
                    self.best_head_block_number,
                    allowed_lag,
                    verdicts@,
                    excluded@,
                    j as int,
                    acc,
                ),
            decreases nt - j,
        {
            let pool = &self.balanced_rpc_tiers[j];
            if pool.head_block_number >= self.best_head_block_number {
                match pool.next_upstream_server(allowed_lag, &verdicts[j], &excluded[j]) {
                    NextUpstream::Server(b) => {
                        return TierScan::Use { pool: j, backend: b };
                    },
                    NextUpstream::RateLimited(t) => {
                        acc = Some(
                            match acc {
                                Some(x) => if x <= t {
                                    x
                                } else {
                                    t
                                },
                                None => t,
                            },
                        );
                    },
                    NextUpstream::NotSynced => {},
                }
            }
            j += 1;
        }
        let ghost acc0 = acc;
        match &self.private_rpcs {
            Some(pool) => {
                proof {
                    assert(pools.len() == nt + 1);
                    assert(pools[nt as int] == *pool);
                }
                if pool.head_block_number >= self.best_head_block_number {
                    match pool.next_upstream_server(allowed_lag, &verdicts[nt], &excluded[nt]) {
                        NextUpstream::Server(b) => {
                            return TierScan::Use { pool: nt, backend: b };
                        },
                        NextUpstream::RateLimited(t) => {
                            acc = Some(
                                match acc {
                                    Some(x) => if x <= t {
                                        x
                                    } else {
                                        t
                                    },
                                    None => t,
                                },
                            );
                            proof {
                                assert(spec_scan_from(
                                    pools,
                                    self.best_head_block_number,
                                    allowed_lag,
                                    verdicts@,
                                    excluded@,
                                    nt as int,
                                    acc0,
                                ) == spec_scan_from(
                                    pools,
                                    self.best_head_block_number,
                                    allowed_lag,
                                    verdicts@,
                                    excluded@,
                                    nt + 1,
                                    acc,
                                ));
                            }
                        },
                        NextUpstream::NotSynced => {
                            proof {
                                assert(spec_scan_from(
                                    pools,
                                    self.best_head_block_number,
                                    allowed_lag,
                                    verdicts@,
                                    excluded@,
                                    nt as int,
                                    acc0,
                                ) == spec_scan_from(
                                    pools,
                                    self.best_head_block_number,
                                    allowed_lag,
                                    verdicts@,
                                    excluded@,
                                    nt + 1,
                                    acc,
                                ));
                            }
                        },
                    }
                } else {
                    proof {
                        assert(spec_scan_from(
                            pools,
                            self.best_head_block_number,
                            allowed_lag,
                            verdicts@,
                            excluded@,
                            nt as int,
                            acc0,
                        ) == spec_scan_from(
                            pools,
                            self.best_head_block_number,
                            allowed_lag,
                            verdicts@,
                            excluded@,
                            nt + 1,
                            acc,
                        ));
                    }
                }
            },
            None => {
                proof {
                    assert(pools.len() == nt as int);
                }
            },
        }
        match acc {
            Some(t) => TierScan::Backoff(t),
            None => TierScan::NoneSynced,
        }
    }

    /// One dispatch round for a request on the tiered path: the cache
    /// answers if it holds the key (no backend is contacted); otherwise
    /// the tier scan decides where to send the call, whether to back off,
    /// or that no server is left. Backends whose calls already failed at
    /// the transport level this request are `excluded` and passed over,
    /// so a transport failure is retried on the next backend.
    pub fn dispatch_round(
        &self,
        request: &JsonRpcRequest,
        allowed_lag: u64,
        verdicts: &Vec<Vec<DeferredRateLimitResult>>,
        excluded: &Vec<Vec<bool>>,
    ) -> (r: RoundOutcome)
        requires
            verdicts@.len() == spec_all_pools(*self).len(),
            excluded@.len() == spec_all_pools(*self).len(),
            forall|p: int|
                0 <= p < spec_all_pools(*self).len() ==> (#[trigger] verdicts@[p])@.len()
                    == spec_all_pools(*self)[p].backends@.len(),
            forall|p: int|
                0 <= p < spec_all_pools(*self).len() ==> (#[trigger] excluded@[p])@.len()
                    == spec_all_pools(*self)[p].backends@.len(),
        ensures
            ({
                let hit = lookup_entry(
                    self.response_cache.entries(),
                    spec_request_cache_key(*self, *request),
                );
                let scan = spec_scan_from(
                    spec_all_pools(*self),
                    self.best_head_block_number,
                    allowed_lag,
                    verdicts@,
                    excluded@,
                    0,
                    None,
                );
                match r {
                    RoundOutcome::CacheHit(resp) => hit == match resp.result {
                        Some(v) => Some(v@),
                        None => None::<Seq<char>>,
                    } && resp.id == request.id && resp.jsonrpc@ == "2.0"@ && resp.error is None
                        && resp.result is Some,
                    RoundOutcome::CallBackend { pool, backend } => hit is None && scan
                        == TierScan::Use { pool, backend },
                    RoundOutcome::Backoff(t) => hit is None && scan == TierScan::Backoff(t),
                    RoundOutcome::NoServers => hit is None && scan == TierScan::NoneSynced,
                }
            }),
    {
        match self.check_cache(request) {
            Some(resp) => RoundOutcome::CacheHit(resp),
            None => {
                match self.scan_tiers(allowed_lag, verdicts, excluded) {
                    TierScan::Use { pool, backend } => RoundOutcome::CallBackend { pool, backend },
                    TierScan::Backoff(t) => RoundOutcome::Backoff(t),
                    TierScan::NoneSynced => RoundOutcome::NoServers,
                }
            },
        }
    }

    /// Admission for a private transaction fanout: every private backend
    /// that is neither busy nor rate-limited takes the call, all at once.
    /// When none can, the earliest retry time decides whether to wait.
    /// The cache is neither consulted nor populated on this path.
    pub fn private_handles(&self, verdicts: &Vec<DeferredRateLimitResult>) -> (r: PrivateFanout)
        requires
            self.private_rpcs matches Some(p) ==> verdicts@.len() == p.backends@.len(),
        ensures
            match self.private_rpcs {
                None => r is NoPrivate,
                Some(p) => {
                    let handles = spec_fanout_handles(
                        p.backends@,
                        verdicts@,
                        p.backends@.len() as int,
                    );
                    if handles.len() > 0 {
                        r matches PrivateFanout::Fanout(hs) && hs@ == handles
                    } else {
                        match spec_fanout_min_retry(verdicts@, verdicts@.len() as int, None) {
                            Some(t) => r == PrivateFanout::Wait(t),
                            None => r is NoPrivate,
                        }
                    }
                },
            },
    {
        let pool = match &self.private_rpcs {
            Some(p) => p,
            None => {
                return PrivateFanout::NoPrivate;
            },
        };
        let mut handles: Vec<usize> = Vec::new();
        let mut i: usize = 0;
        while i < pool.backends.len()
            invariant
                i <= pool.backends@.len(),
                verdicts@.len() == pool.backends@.len(),
                handles@ == spec_fanout_handles(pool.backends@, verdicts@, i as int),
            decreases pool.backends@.len() - i,
        {
            if pool.backends[i].in_flight < pool.backends[i].soft_limit && matches!(
                verdicts[i],
                DeferredRateLimitResult::Allowed,
            ) {
                handles.push(i);
            }
            i += 1;
        }
        if handles.len() > 0 {
            return PrivateFanout::Fanout(handles);
        }
        let mut acc: Option<u64> = None;
        let mut i: usize = 0;
        while i < verdicts.len()
            invariant
                i <= verdicts@.len(),
                acc == spec_fanout_min_retry(verdicts@, i as int, None),
            decreases verdicts@.len() - i,
        {
            match verdicts[i] {
                DeferredRateLimitResult::RetryAt(t) => {
                    acc = Some(
                        match acc {
                            Some(x) => if x <= t {
                                x
                            } else {
                                t
                            },
                            None => t,
                        },
                    );
                },
                _ => {},
            }
            i += 1;
        }
        match acc {
            Some(t) => PrivateFanout::Wait(t),
            None => PrivateFanout::NoPrivate,
        }
    }
}

/// The backend built for a configured connection: fresh, synced to
/// nothing yet, named by its url.
pub open spec fn backend_matches_config(b: BackendInfo, c: Web3ConnectionConfig) -> bool {
    &&& b.name@ == c.spec_url()
    &&& b.head_block_number == 0
    &&& b.soft_limit == c.spec_soft_limit() as u64
    &&& b.in_flight == 0
    &&& !b.backup
}

/// The pool built for a tier's configured connections.
pub open spec fn pool_matches_configs(p: ConnectionPool, cs: Seq<Web3ConnectionConfig>) -> bool {
    &&& p.head_block_number == 0
    &&& p.backends@.len() == cs.len()
    &&& forall|i: int|
        0 <= i < cs.len() ==> backend_matches_config(#[trigger] p.backends@[i], cs[i])
}

/// One tier's pool from its configuration.
fn pool_from_configs(configs: &Vec<Web3ConnectionConfig>) -> (r: ConnectionPool)
    ensures
        pool_matches_configs(r, configs@),
{
    let mut backends: Vec<BackendInfo> = Vec::new();
    let mut i: usize = 0;
    while i < configs.len()
        invariant
            i <= configs@.len(),
            backends@.len() == i,
            forall|j: int|
                0 <= j < i ==> backend_matches_config(#[trigger] backends@[j], configs@[j]),
        decreases configs@.len() - i,
    {
        let c = &configs[i];
        backends.push(
            BackendInfo {
                name: c.url().clone(),
                head_block_number: 0,
                soft_limit: c.soft_limit() as u64,
                in_flight: 0,
                backup: false,
            },
        );
        i += 1;
    }
    ConnectionPool { head_block_number: 0, backends }
}

} // verus!
