//! Backend selection: round robin, least connections, weighted round robin
//! and client-address hashing, each over the backends that may take traffic.
use vstd::prelude::*;

use std::collections::hash_map::DefaultHasher;
use vstd::std_specs::hash::DefaultHasherAdditionalSpecFns;

use crate::backend::{
    inc_usize, wrapping_inc_usize, BackendRuntime, HealthStatus, IpAddress, RuntimeState,
    SocketAddress,
};
use crate::text::{
    lemma_text_lt_irreflexive, lemma_text_lt_total, lemma_text_lt_transitive, text_less, text_lt,
};
use std::hash::Hasher;

verus! {

/// The name of this part of the library.
pub fn janus_balancer() -> (r: &'static str)
    ensures
        r@ == "janus-balancer"@,
{
    "janus-balancer"
}

/// A backend that a balancer may choose, with its state at selection time.
#[derive(Debug)]
pub struct BackendCandidate {
    pub runtime: BackendRuntime,
}

impl Clone for BackendCandidate {
    fn clone(&self) -> (r: Self)
        ensures
            r.runtime@ == self.runtime@,
    {
        BackendCandidate { runtime: self.runtime.clone() }
    }
}

/// The backend a balancer chose: its position among the candidates it was
/// given, and its state.
#[derive(Debug)]
pub struct SelectedBackend {
    pub index: usize,
    pub runtime: BackendRuntime,
}

impl Clone for SelectedBackend {
    fn clone(&self) -> (r: Self)
        ensures
            r.index == self.index,
            r.runtime@ == self.runtime@,
    {
        SelectedBackend { index: self.index, runtime: self.runtime.clone() }
    }
}

/// What a balancer may know of the request it routes.
#[derive(Debug, Clone, Copy)]
pub struct SelectionContext {
    pub client_addr: Option<SocketAddress>,
}

// ---------------------------------------------------------------------------
// Routable backends
// ---------------------------------------------------------------------------

/// A backend takes traffic while it is healthy or not yet probed.
pub open spec fn routable(c: BackendCandidate) -> bool {
    c.runtime@.health == HealthStatus::Healthy || c.runtime@.health == HealthStatus::Unknown
}

/// The positions of the routable candidates, in order.
pub open spec fn routable_indices(cs: Seq<BackendCandidate>) -> Seq<int>
    decreases cs.len(),
{
    if cs.len() == 0 {
        Seq::empty()
    } else if routable(cs.last()) {
        routable_indices(cs.drop_last()).push(cs.len() - 1)
    } else {
        routable_indices(cs.drop_last())
    }
}

/// The positions listed by [`routable_indices`] are in range, increasing,
/// and are exactly the routable ones.
pub proof fn lemma_routable_indices(cs: Seq<BackendCandidate>)
    ensures
        forall|k: int|
            0 <= k < routable_indices(cs).len() ==> 0 <= #[trigger] routable_indices(cs)[k]
                < cs.len() && routable(cs[routable_indices(cs)[k]]),
        forall|k1: int, k2: int|
            0 <= k1 < k2 < routable_indices(cs).len() ==> #[trigger] routable_indices(cs)[k1]
                < #[trigger] routable_indices(cs)[k2],
        forall|i: int|
            0 <= i < cs.len() && routable(#[trigger] cs[i]) ==> exists|k: int|
                0 <= k < routable_indices(cs).len() && routable_indices(cs)[k] == i,
        routable_indices(cs).len() <= cs.len(),
    decreases cs.len(),
{
    if cs.len() > 0 {
        let prev = cs.drop_last();
        lemma_routable_indices(prev);
        assert forall|i: int| 0 <= i < cs.len() && routable(#[trigger] cs[i]) implies exists|k: int|
            0 <= k < routable_indices(cs).len() && routable_indices(cs)[k] == i by {
            if i < cs.len() - 1 {
                assert(prev[i] == cs[i]);
                let k = choose|k: int|
                    0 <= k < routable_indices(prev).len() && routable_indices(prev)[k] == i;
                assert(routable_indices(cs)[k] == i);
            } else {
                assert(routable_indices(cs)[routable_indices(prev).len() as int] == i);
            }
        }
    }
}

/// The routable candidates, in order.
pub fn healthy_candidates(candidates: &[BackendCandidate]) -> (r: Vec<BackendCandidate>)
    ensures
        r@.len() == routable_indices(candidates@).len(),
        forall|k: int|
            0 <= k < r@.len() ==> (#[trigger] r@[k]).runtime@ == candidates@[routable_indices(
                candidates@,
            )[k]].runtime@,
{
    let mut out: Vec<BackendCandidate> = Vec::new();
    let mut i: usize = 0;
    while i < candidates.len()
        invariant
            i <= candidates@.len(),
            out@.len() == routable_indices(candidates@.take(i as int)).len(),
            forall|k: int|
                0 <= k < out@.len() ==> (#[trigger] out@[k]).runtime@ == candidates@[routable_indices(
                    candidates@.take(i as int),
                )[k]].runtime@,
        decreases candidates@.len() - i,
    {
        let ghost prev = candidates@.take(i as int);
        assert(candidates@.take(i + 1).drop_last() =~= prev);
        let h = candidates[i].runtime.health();
        if h == HealthStatus::Healthy || h == HealthStatus::Unknown {
            out.push(candidates[i].clone());
        }
        i = i + 1;
    }
    assert(candidates@.take(candidates@.len() as int) =~= candidates@);
    out
}

/// The positions of the routable candidates.
fn routable_positions(candidates: &[BackendCandidate]) -> (r: Vec<usize>)
    ensures
        r@.len() == routable_indices(candidates@).len(),
        forall|k: int| 0 <= k < r@.len() ==> #[trigger] r@[k] == routable_indices(candidates@)[k],
{
    let mut out: Vec<usize> = Vec::new();
    let mut i: usize = 0;
    while i < candidates.len()
        invariant
            i <= candidates@.len(),
            out@.len() == routable_indices(candidates@.take(i as int)).len(),
            forall|k: int|
                0 <= k < out@.len() ==> #[trigger] out@[k] == routable_indices(
                    candidates@.take(i as int),
                )[k],
        decreases candidates@.len() - i,
    {
        let ghost prev = candidates@.take(i as int);
        assert(candidates@.take(i + 1).drop_last() =~= prev);
        let h = candidates[i].runtime.health();
        if h == HealthStatus::Healthy || h == HealthStatus::Unknown {
            out.push(i);
        }
        i = i + 1;
    }
    assert(candidates@.take(candidates@.len() as int) =~= candidates@);
    out
}


/// The candidates a listener offers its balancer: every backend of the
/// state, in order, with its current state.
pub fn candidates_of(state: &RuntimeState) -> (r: Vec<BackendCandidate>)
    ensures
        r@.len() == state@.len(),
        forall|i: int| 0 <= i < r@.len() ==> (#[trigger] r@[i]).runtime@ == state@[i]@,
{
    let backends = state.backends();
    let mut out: Vec<BackendCandidate> = Vec::new();
    let mut i: usize = 0;
    while i < backends.len()
        invariant
            backends@ == state@,
            i <= backends@.len(),
            out@.len() == i,
            forall|j: int| 0 <= j < i ==> (#[trigger] out@[j]).runtime@ == backends@[j]@,
        decreases backends@.len() - i,
    {
        out.push(BackendCandidate { runtime: backends[i].clone() });
        i = i + 1;
    }
    out
}

fn select_at(candidates: &[BackendCandidate], index: usize) -> (r: SelectedBackend)
    requires
        index < candidates@.len(),
    ensures
        r.index == index,
        r.runtime@ == candidates@[index as int].runtime@,
{
    SelectedBackend { index, runtime: candidates[index].runtime.clone() }
}

/// `r` is a choice among `cs` that a balancer may make: nothing exactly when
/// no candidate is routable, otherwise a routable one, with its state.
pub open spec fn valid_choice(cs: Seq<BackendCandidate>, r: Option<SelectedBackend>) -> bool {
    &&& r is None <==> routable_indices(cs).len() == 0
    &&& r matches Some(s) ==> {
        &&& s.index < cs.len()
        &&& routable(cs[s.index as int])
        &&& s.runtime@ == cs[s.index as int].runtime@
    }
}

/// `r` chose the candidate at position `index`, or nothing when `index` is
/// `None`.
pub open spec fn chose(cs: Seq<BackendCandidate>, r: Option<SelectedBackend>, index: Option<int>) -> bool {
    match index {
        None => r is None,
        Some(i) => r matches Some(s) && s.index == i && s.runtime@ == cs[i].runtime@,
    }
}

/// A strategy that picks one backend per request.
pub trait LoadBalancer {
    fn select(&mut self, candidates: &[BackendCandidate], ctx: &SelectionContext) -> (r: Option<
        SelectedBackend,
    >)
        ensures
            valid_choice(candidates@, r),
    ;
}

// ---------------------------------------------------------------------------
// Round robin
// ---------------------------------------------------------------------------

/// Round robin: the routable candidates in turn.
#[derive(Debug, Default)]
pub struct RoundRobinBalancer {
    cursor: usize,
}

impl View for RoundRobinBalancer {
    type V = usize;

    closed spec fn view(&self) -> usize {
        self.cursor
    }
}

/// The position round robin picks at `cursor`.
pub open spec fn round_robin_pick(cs: Seq<BackendCandidate>, cursor: usize) -> Option<int> {
    let ri = routable_indices(cs);
    if ri.len() == 0 {
        None
    } else {
        Some(ri[cursor as int % ri.len() as int])
    }
}

impl RoundRobinBalancer {
    pub fn new() -> (r: Self)
        ensures
            r@ == 0,
    {
        RoundRobinBalancer { cursor: 0 }
    }
}

impl LoadBalancer for RoundRobinBalancer {
    fn select(&mut self, candidates: &[BackendCandidate], ctx: &SelectionContext) -> (r: Option<
        SelectedBackend,
    >)
        ensures
            chose(candidates@, r, round_robin_pick(candidates@, old(self)@)),
            final(self)@ == if r is None {
                old(self)@
            } else {
                wrapping_inc_usize(old(self)@)
            },
    {
        proof {
            lemma_routable_indices(candidates@);
        }
        let healthy = routable_positions(candidates);
        if healthy.len() == 0 {
            return None;
        }
        let slot = self.cursor % healthy.len();
        self.cursor = inc_usize(self.cursor);
        Some(select_at(candidates, healthy[slot]))
    }
}


// ---------------------------------------------------------------------------
// First minimum by a key
// ---------------------------------------------------------------------------

/// The sort key of a candidate: its active connections (when `by_load`,
/// otherwise zero for all) and then its identifier.
pub open spec fn key_of(by_load: bool, c: BackendCandidate) -> (int, Seq<char>) {
    (if by_load { c.runtime@.active as int } else { 0 }, c.runtime@.backend.id.0@)
}

/// Lexicographic order on keys.
pub open spec fn key_lt(a: (int, Seq<char>), b: (int, Seq<char>)) -> bool {
    a.0 < b.0 || (a.0 == b.0 && text_lt(a.1, b.1))
}

/// `i` is the first routable candidate with the smallest key, which is what
/// `Iterator::min_by` gives over the routable candidates.
pub open spec fn is_first_min(cs: Seq<BackendCandidate>, by_load: bool, i: int) -> bool {
    &&& 0 <= i < cs.len()
    &&& routable(cs[i])
    &&& forall|j: int|
        0 <= j < cs.len() && routable(#[trigger] cs[j]) ==> !key_lt(
            key_of(by_load, cs[j]),
            key_of(by_load, cs[i]),
        )
    &&& forall|j: int|
        0 <= j < i && routable(#[trigger] cs[j]) ==> key_lt(
            key_of(by_load, cs[i]),
            key_of(by_load, cs[j]),
        )
}

/// The first routable candidate with the smallest key, if any.
pub open spec fn first_min(cs: Seq<BackendCandidate>, by_load: bool) -> Option<int> {
    if exists|i: int| is_first_min(cs, by_load, i) {
        Some(choose|i: int| is_first_min(cs, by_load, i))
    } else {
        None
    }
}

proof fn lemma_key_lt_order(a: (int, Seq<char>), b: (int, Seq<char>), c: (int, Seq<char>))
    ensures
        !key_lt(a, a),
        key_lt(a, b) && key_lt(b, c) ==> key_lt(a, c),
        key_lt(a, b) || key_lt(b, a) || a == b,
{
    lemma_text_lt_irreflexive(a.1);
    if key_lt(a, b) && key_lt(b, c) && a.0 == b.0 && b.0 == c.0 {
        lemma_text_lt_transitive(a.1, b.1, c.1);
    }
    lemma_text_lt_total(a.1, b.1);
}

proof fn lemma_first_min_unique(cs: Seq<BackendCandidate>, by_load: bool, i: int)
    requires
        is_first_min(cs, by_load, i),
    ensures
        first_min(cs, by_load) == Some(i),
{
    let k = choose|k: int| is_first_min(cs, by_load, k);
    assert(is_first_min(cs, by_load, k));
    if k < i {
        assert(routable(cs[k]));
        assert(!key_lt(key_of(by_load, cs[i]), key_of(by_load, cs[k])));
    } else if i < k {
        assert(routable(cs[i]));
        assert(!key_lt(key_of(by_load, cs[k]), key_of(by_load, cs[i])));
    }
}

fn key_less(a: &BackendCandidate, b: &BackendCandidate, by_load: bool) -> (r: bool)
    ensures
        r == key_lt(key_of(by_load, *a), key_of(by_load, *b)),
{
    let la = if by_load { a.runtime.active_connections() } else { 0 };
    let lb = if by_load { b.runtime.active_connections() } else { 0 };
    if la != lb {
        la < lb
    } else {
        text_less(a.runtime.backend().id.0.as_str(), b.runtime.backend().id.0.as_str())
    }
}

/// The first routable candidate with the smallest key; `positions` lists the
/// routable ones and is not empty.
fn first_minimum(candidates: &[BackendCandidate], positions: &Vec<usize>, by_load: bool) -> (r:
    usize)
    requires
        positions@.len() > 0,
        positions@.len() == routable_indices(candidates@).len(),
        forall|k: int|
            0 <= k < positions@.len() ==> #[trigger] positions@[k] == routable_indices(
                candidates@,
            )[k],
    ensures
        is_first_min(candidates@, by_load, r as int),
{
    let ghost cs = candidates@;
    let ghost ri = routable_indices(cs);
    proof {
        lemma_routable_indices(cs);
    }
    let mut best = positions[0];
    let mut m: usize = 1;
    proof {
        let kb = key_of(by_load, cs[best as int]);
        lemma_key_lt_order(kb, kb, kb);
    }
    while m < positions.len()
        invariant
            cs == candidates@,
            ri == routable_indices(cs),
            1 <= m <= positions@.len(),
            positions@.len() == ri.len(),
            forall|k: int| 0 <= k < positions@.len() ==> #[trigger] positions@[k] == ri[k],
            forall|k: int| 0 <= k < ri.len() ==> 0 <= #[trigger] ri[k] < cs.len() && routable(cs[ri[k]]),
            forall|k1: int, k2: int| 0 <= k1 < k2 < ri.len() ==> #[trigger] ri[k1] < #[trigger] ri[k2],
            exists|kb: int| 0 <= kb < m && positions@[kb] == best,
            forall|k: int|
                0 <= k < m ==> !key_lt(
                    key_of(by_load, cs[#[trigger] positions@[k] as int]),
                    key_of(by_load, cs[best as int]),
                ),
            forall|k: int|
                0 <= k < m && #[trigger] positions@[k] < best ==> key_lt(
                    key_of(by_load, cs[best as int]),
                    key_of(by_load, cs[positions@[k] as int]),
                ),
        decreases positions@.len() - m,
    {
        let p = positions[m];
        if key_less(&candidates[p], &candidates[best], by_load) {
            let ghost old_best = best;
            proof {
                assert forall|k: int| 0 <= k <= m implies !key_lt(
                    key_of(by_load, cs[#[trigger] positions@[k] as int]),
                    key_of(by_load, cs[p as int]),
                ) by {
                    lemma_key_lt_order(
                        key_of(by_load, cs[positions@[k] as int]),
                        key_of(by_load, cs[p as int]),
                        key_of(by_load, cs[old_best as int]),
                    );
                }
                assert forall|k: int| 0 <= k <= m && #[trigger] positions@[k] < p implies key_lt(
                    key_of(by_load, cs[p as int]),
                    key_of(by_load, cs[positions@[k] as int]),
                ) by {
                    let a = key_of(by_load, cs[p as int]);
                    let b = key_of(by_load, cs[old_best as int]);
                    let c = key_of(by_load, cs[positions@[k] as int]);
                    lemma_key_lt_order(a, b, c);
                    lemma_key_lt_order(b, c, a);
                    lemma_key_lt_order(c, b, a);
                    if k == m {
                    } else {
                        assert(k < m);
                    }
                }
            }
            best = p;
        } else {
            proof {
                assert(positions@[m as int] > best) by {
                    let kb = choose|kb: int| 0 <= kb < m && positions@[kb] == best;
                    assert(ri[kb] < ri[m as int]);
                }
            }
        }
        m = m + 1;
    }
    proof {
        let kb = choose|kb: int| 0 <= kb < m && positions@[kb] == best;
        assert forall|j: int| 0 <= j < cs.len() && routable(#[trigger] cs[j]) implies !key_lt(
            key_of(by_load, cs[j]),
            key_of(by_load, cs[best as int]),
        ) by {
            let k = choose|k: int| 0 <= k < ri.len() && ri[k] == j;
            assert(positions@[k] == j);
        }
        assert forall|j: int| 0 <= j < best && routable(#[trigger] cs[j]) implies key_lt(
            key_of(by_load, cs[best as int]),
            key_of(by_load, cs[j]),
        ) by {
            let k = choose|k: int| 0 <= k < ri.len() && ri[k] == j;
            assert(positions@[k] == j);
        }
    }
    best
}

// ---------------------------------------------------------------------------
// Least connections
// ---------------------------------------------------------------------------

/// Least connections: the routable candidate with the fewest active
/// connections, the smaller identifier breaking ties.
#[derive(Debug, Default)]
pub struct LeastConnectionsBalancer;

impl LeastConnectionsBalancer {
    pub fn new() -> (r: Self) {
        LeastConnectionsBalancer
    }
}

impl LoadBalancer for LeastConnectionsBalancer {
    fn select(&mut self, candidates: &[BackendCandidate], ctx: &SelectionContext) -> (r: Option<
        SelectedBackend,
    >)
        ensures
            chose(candidates@, r, first_min(candidates@, true)),
    {
        let healthy = routable_positions(candidates);
        if healthy.len() == 0 {
            proof {
                if exists|i: int| is_first_min(candidates@, true, i) {
                    let i = choose|i: int| is_first_min(candidates@, true, i);
                    lemma_routable_indices(candidates@);
                    assert(routable(candidates@[i]));
                }
            }
            return None;
        }
        let i = first_minimum(candidates, &healthy, true);
        proof {
            lemma_first_min_unique(candidates@, true, i as int);
        }
        Some(select_at(candidates, i))
    }
}

// ---------------------------------------------------------------------------
// Client address hashing
// ---------------------------------------------------------------------------

/// The octets of an IP address.
pub open spec fn ip_octets(ip: IpAddress) -> Seq<u8> {
    match ip {
        IpAddress::V4(o) => o@,
        IpAddress::V6(o) => o@,
    }
}

/// The hash of a client address: `DefaultHasher` fed its octets.
pub open spec fn client_hash(ip: IpAddress) -> u64 {
    DefaultHasher::spec_finish(seq![ip_octets(ip)])
}

/// Hashes the octets of a client address with `DefaultHasher`.
pub fn hash_client_ip(ip: &IpAddress) -> (r: u64)
    ensures
        r == client_hash(*ip),
{
    let mut hasher = DefaultHasher::new();
    match ip {
        IpAddress::V4(o) => hasher.write(o.as_slice()),
        IpAddress::V6(o) => hasher.write(o.as_slice()),
    }
    hasher.finish()
}

/// The position IP hashing picks: by the client address's hash among the
/// routable candidates, or the smallest identifier without an address.
pub open spec fn ip_hash_pick(cs: Seq<BackendCandidate>, ctx: SelectionContext) -> Option<int> {
    let ri = routable_indices(cs);
    if ri.len() == 0 {
        None
    } else {
        match ctx.client_addr {
            Some(addr) => Some(ri[(client_hash(addr.ip) as usize) as int % ri.len() as int]),
            None => first_min(cs, false),
        }
    }
}

/// IP hash: the same client address goes to the same backend while the set
/// of routable backends stays the same.
#[derive(Debug, Default)]
pub struct IpHashBalancer;

impl IpHashBalancer {
    pub fn new() -> (r: Self) {
        IpHashBalancer
    }
}

impl LoadBalancer for IpHashBalancer {
    fn select(&mut self, candidates: &[BackendCandidate], ctx: &SelectionContext) -> (r: Option<
        SelectedBackend,
    >)
        ensures
            chose(candidates@, r, ip_hash_pick(candidates@, *ctx)),
    {
        proof {
            lemma_routable_indices(candidates@);
        }
        let healthy = routable_positions(candidates);
        if healthy.len() == 0 {
            return None;
        }
        match ctx.client_addr {
            Some(addr) => {
                let h = hash_client_ip(&addr.ip);
                let slot = (h as usize) % healthy.len();
                Some(select_at(candidates, healthy[slot]))
            },
            None => {
                let i = first_minimum(candidates, &healthy, false);
                proof {
                    lemma_first_min_unique(candidates@, false, i as int);
                }
                Some(select_at(candidates, i))
            },
        }
    }
}


// ---------------------------------------------------------------------------
// Weighted round robin
// ---------------------------------------------------------------------------

/// The slots of a weighted rotation: position `i` repeated `ws[i]` times,
/// positions in order.
pub open spec fn expand(ws: Seq<u32>) -> Seq<usize>
    decreases ws.len(),
{
    if ws.len() == 0 {
        Seq::empty()
    } else {
        expand(ws.drop_last()) + Seq::new(ws.last() as nat, |_j: int| (ws.len() - 1) as usize)
    }
}

/// The sum of the weights.
pub open spec fn total_weight(ws: Seq<u32>) -> nat
    decreases ws.len(),
{
    if ws.len() == 0 {
        0
    } else {
        total_weight(ws.drop_last()) + ws.last() as nat
    }
}

/// The configured weights of the candidates.
pub open spec fn weights(cs: Seq<BackendCandidate>) -> Seq<u32> {
    cs.map_values(|c: BackendCandidate| c.runtime@.backend.weight)
}

/// The weights of the routable candidates, in order.
pub open spec fn routable_weights(cs: Seq<BackendCandidate>) -> Seq<u32> {
    routable_indices(cs).map_values(|i: int| cs[i].runtime@.backend.weight)
}

/// Slot `s` of the rotation belongs to position `k` exactly when `s` lies
/// between the weights of the positions before `k` and those up to `k`; so
/// the rotation has as many slots as the total weight, and position `k`
/// holds `ws[k]` of them.
pub proof fn lemma_expand_slots(ws: Seq<u32>)
    requires
        ws.len() <= usize::MAX,
    ensures
        expand(ws).len() == total_weight(ws),
        forall|s: int, k: int|
            0 <= s < expand(ws).len() && 0 <= k < ws.len() ==> (#[trigger] expand(ws)[s] == k
                <==> total_weight(#[trigger] ws.take(k)) <= s < total_weight(ws.take(k + 1))),
        forall|s: int| 0 <= s < expand(ws).len() ==> #[trigger] expand(ws)[s] < ws.len(),
    decreases ws.len(),
{
    if ws.len() > 0 {
        let prev = ws.drop_last();
        lemma_expand_slots(prev);
        let n = ws.len() - 1;
        assert(ws.take(n) =~= prev);
        assert(ws.take(n + 1) =~= ws);
        assert forall|k: int| 0 <= k < n implies #[trigger] ws.take(k) == prev.take(k) && ws.take(
            k + 1,
        ) == prev.take(k + 1) by {
            assert(ws.take(k) =~= prev.take(k));
            assert(ws.take(k + 1) =~= prev.take(k + 1));
        }
        assert forall|k: int| 0 <= k <= n implies total_weight(#[trigger] ws.take(k)) <= total_weight(
            prev,
        ) by {
            lemma_total_weight_prefix(prev, k);
            if k < n {
                assert(ws.take(k) == prev.take(k));
            }
        }
        assert forall|s: int, k: int|
            0 <= s < expand(ws).len() && 0 <= k < ws.len() implies (#[trigger] expand(ws)[s] == k
            <==> total_weight(#[trigger] ws.take(k)) <= s < total_weight(ws.take(k + 1))) by {
            let e = expand(prev);
            if s < e.len() {
                assert(expand(ws)[s] == e[s]);
                if k < n {
                    assert(ws.take(k) == prev.take(k));
                    assert(ws.take(k + 1) == prev.take(k + 1));
                }
            } else {
                let block = Seq::new(ws.last() as nat, |_j: int| (ws.len() - 1) as usize);
                assert(expand(ws) == e + block);
                assert(expand(ws)[s] == block[s - e.len()]);
                assert(expand(ws)[s] == n);
                if k < n {
                    assert(ws.take(k + 1) == prev.take(k + 1));
                    lemma_total_weight_prefix(prev, k + 1);
                }
            }
        }
    }
}

proof fn lemma_total_weight_prefix(ws: Seq<u32>, k: int)
    requires
        0 <= k <= ws.len(),
    ensures
        total_weight(ws.take(k)) <= total_weight(ws),
    decreases ws.len() - k,
{
    if k < ws.len() {
        lemma_total_weight_prefix(ws, k + 1);
        assert(ws.take(k + 1).drop_last() =~= ws.take(k));
    } else {
        assert(ws.take(k) =~= ws);
    }
}

/// The rotation slots of the candidates: the position of each, repeated as
/// many times as its weight.
pub fn expanded_indexes(candidates: &[BackendCandidate]) -> (r: Vec<usize>)
    ensures
        r@ == expand(weights(candidates@)),
{
    let ghost ws = weights(candidates@);
    let mut expanded: Vec<usize> = Vec::new();
    let mut idx: usize = 0;
    while idx < candidates.len()
        invariant
            ws == weights(candidates@),
            idx <= candidates@.len(),
            expanded@ == expand(ws.take(idx as int)),
        decreases candidates@.len() - idx,
    {
        let weight = candidates[idx].runtime.backend().weight;
        let ghost before = expanded@;
        let mut t: u32 = 0;
        while t < weight
            invariant
                t <= weight,
                expanded@ == before + Seq::new(t as nat, |_j: int| idx),
            decreases weight - t,
        {
            expanded.push(idx);
            t = t + 1;
            assert(expanded@ =~= before + Seq::new(t as nat, |_j: int| idx));
        }
        proof {
            assert(ws.take(idx + 1).drop_last() =~= ws.take(idx as int));
            assert(ws.take(idx + 1).last() == weight);
            assert(expanded@ =~= expand(ws.take(idx + 1)));
        }
        idx = idx + 1;
    }
    assert(ws.take(candidates@.len() as int) =~= ws);
    expanded
}

/// Weighted round robin: each routable candidate in turn, as many times in a
/// row as its weight; by plain rotation when every weight is zero.
#[derive(Debug, Default)]
pub struct WeightedRoundRobinBalancer {
    cursor: usize,
}

impl View for WeightedRoundRobinBalancer {
    type V = usize;

    closed spec fn view(&self) -> usize {
        self.cursor
    }
}

/// The position weighted round robin picks at `cursor`.
pub open spec fn weighted_pick(cs: Seq<BackendCandidate>, cursor: usize) -> Option<int> {
    let ri = routable_indices(cs);
    let slots = expand(routable_weights(cs));
    if ri.len() == 0 {
        None
    } else if slots.len() == 0 {
        Some(ri[cursor as int % ri.len() as int])
    } else {
        Some(ri[slots[cursor as int % slots.len() as int] as int])
    }
}

impl WeightedRoundRobinBalancer {
    pub fn new() -> (r: Self)
        ensures
            r@ == 0,
    {
        WeightedRoundRobinBalancer { cursor: 0 }
    }
}

impl LoadBalancer for WeightedRoundRobinBalancer {
    fn select(&mut self, candidates: &[BackendCandidate], ctx: &SelectionContext) -> (r: Option<
        SelectedBackend,
    >)
        ensures
            chose(candidates@, r, weighted_pick(candidates@, old(self)@)),
            final(self)@ == if r is None {
                old(self)@
            } else {
                wrapping_inc_usize(old(self)@)
            },
    {
        proof {
            lemma_routable_indices(candidates@);
        }
        let positions = routable_positions(candidates);
        let healthy = healthy_candidates(candidates);
        if healthy.len() == 0 {
            return None;
        }
        let expanded = expanded_indexes(healthy.as_slice());
        proof {
            assert(weights(healthy@) =~= routable_weights(candidates@));
            lemma_expand_slots(routable_weights(candidates@));
        }
        let idx;
        if expanded.len() == 0 {
            idx = self.cursor % healthy.len();
        } else {
            let slot = self.cursor % expanded.len();
            idx = expanded[slot];
        }
        self.cursor = inc_usize(self.cursor);
        Some(select_at(candidates, positions[idx]))
    }
}


// ---------------------------------------------------------------------------
// Laws
// ---------------------------------------------------------------------------

proof fn lemma_rotation_slot(c: int, n: int, i: int)
    requires
        0 <= c,
        0 < n,
        0 <= i < n,
    ensures
        0 <= c % n < n,
        (c + i) % n == if c % n + i < n {
            c % n + i
        } else {
            c % n + i - n
        },
{
    vstd::arithmetic::div_mod::lemma_fundamental_div_mod(c, n);
    vstd::arithmetic::div_mod::lemma_mod_pos_bound(c, n);
    let q = c / n;
    let r = c % n;
    assert(n * q == q * n) by (nonlinear_arith);
    assert((q + 1) * n == q * n + n) by (nonlinear_arith);
    if r + i < n {
        vstd::arithmetic::div_mod::lemma_fundamental_div_mod_converse_mod(c + i, n, q, r + i);
    } else {
        vstd::arithmetic::div_mod::lemma_fundamental_div_mod_converse_mod(
            c + i,
            n,
            q + 1,
            r + i - n,
        );
    }
}

/// Round robin visits every routable candidate once in each run of as many
/// consecutive selections as there are routable candidates (while the
/// cursor does not wrap): the picks are pairwise different and cover them
/// all.
pub proof fn lemma_round_robin_rotation(cs: Seq<BackendCandidate>, c: usize)
    requires
        routable_indices(cs).len() > 0,
        c + routable_indices(cs).len() <= usize::MAX + 1,
    ensures
        forall|i: int, j: int|
            0 <= i < j < routable_indices(cs).len() ==> #[trigger] round_robin_pick(
                cs,
                (c + i) as usize,
            ) != #[trigger] round_robin_pick(cs, (c + j) as usize),
        forall|k: int|
            #![trigger routable_indices(cs)[k]]
            0 <= k < routable_indices(cs).len() ==> exists|i: int|
                0 <= i < routable_indices(cs).len() && #[trigger] round_robin_pick(
                    cs,
                    (c + i) as usize,
                ) == Some(routable_indices(cs)[k]),
{
    let ri = routable_indices(cs);
    let n = ri.len() as int;
    lemma_routable_indices(cs);
    assert forall|i: int, j: int| 0 <= i < j < n implies #[trigger] round_robin_pick(
        cs,
        (c + i) as usize,
    ) != #[trigger] round_robin_pick(cs, (c + j) as usize) by {
        lemma_rotation_slot(c as int, n, i);
        lemma_rotation_slot(c as int, n, j);
        let si = (c + i) % n;
        let sj = (c + j) % n;
        assert(si != sj);
        if si < sj {
            assert(ri[si] < ri[sj]);
        } else {
            assert(ri[sj] < ri[si]);
        }
    }
    assert forall|k: int| #![trigger ri[k]] 0 <= k < n implies exists|i: int|
        0 <= i < n && #[trigger] round_robin_pick(cs, (c + i) as usize) == Some(ri[k]) by {
        lemma_rotation_slot(c as int, n, 0);
        let r = c as int % n;
        let i = if k >= r {
            k - r
        } else {
            k + n - r
        };
        lemma_rotation_slot(c as int, n, i);
        assert(round_robin_pick(cs, (c + i) as usize) == Some(ri[k]));
    }
}


/// Weighted round robin hands routable candidate `k` exactly the cursor
/// positions (modulo the total weight) between the weights of the routable
/// candidates before it and those up to it: `weight_k` slots of every
/// `total` consecutive selections.
pub proof fn lemma_weighted_pick_share(cs: Seq<BackendCandidate>, c: usize, k: int)
    requires
        cs.len() <= usize::MAX,
        0 <= k < routable_indices(cs).len(),
        total_weight(routable_weights(cs)) > 0,
    ensures
        ({
            let ws = routable_weights(cs);
            let slot = c as int % total_weight(ws) as int;
            weighted_pick(cs, c) == Some(routable_indices(cs)[k]) <==> total_weight(ws.take(k))
                <= slot < total_weight(ws.take(k + 1))
        }),
{
    let ri = routable_indices(cs);
    let ws = routable_weights(cs);
    lemma_routable_indices(cs);
    lemma_expand_slots(ws);
    let e = expand(ws);
    let slot = c as int % e.len() as int;
    let j = e[slot] as int;
    assert(0 <= j < ri.len());
    if j != k {
        if j < k {
            assert(ri[j] < ri[k]);
        } else {
            assert(ri[k] < ri[j]);
        }
    }
}

/// Least connections never picks a backend with more active connections than
/// another routable one.
pub proof fn lemma_least_connections_minimal(cs: Seq<BackendCandidate>, i: int, j: int)
    requires
        first_min(cs, true) == Some(i),
        0 <= j < cs.len(),
        routable(cs[j]),
    ensures
        cs[i].runtime@.active <= cs[j].runtime@.active,
{
    let w = choose|w: int| is_first_min(cs, true, w);
    assert(is_first_min(cs, true, w));
    assert(!key_lt(key_of(true, cs[j]), key_of(true, cs[i])));
}

/// With a client address, IP hashing picks the routable candidate whose
/// place among the routable ones is the address's hash modulo their number:
/// every routable candidate, the last one included, is the pick for the
/// addresses whose hash falls on its place.
pub proof fn lemma_ip_hash_slot(cs: Seq<BackendCandidate>, ctx: SelectionContext, k: int)
    requires
        0 <= k < routable_indices(cs).len(),
        ctx.client_addr matches Some(a) && (client_hash(a.ip) as usize) as int
            % routable_indices(cs).len() as int == k,
    ensures
        ip_hash_pick(cs, ctx) == Some(routable_indices(cs)[k]),
        0 <= routable_indices(cs)[k] < cs.len(),
        routable(cs[routable_indices(cs)[k]]),
{
    lemma_routable_indices(cs);
}

/// Two client addresses whose hashes fall on different places among the
/// routable candidates are sent to different backends: IP hashing spreads
/// clients over all routable candidates.
pub proof fn lemma_ip_hash_spreads(
    cs: Seq<BackendCandidate>,
    ctx1: SelectionContext,
    ctx2: SelectionContext,
)
    requires
        routable_indices(cs).len() > 0,
        ctx1.client_addr matches Some(a1) && ctx2.client_addr matches Some(a2) && (client_hash(
            a1.ip,
        ) as usize) as int % routable_indices(cs).len() as int != (client_hash(a2.ip) as usize) as int
            % routable_indices(cs).len() as int,
    ensures
        ip_hash_pick(cs, ctx1) is Some,
        ip_hash_pick(cs, ctx2) is Some,
        ip_hash_pick(cs, ctx1) != ip_hash_pick(cs, ctx2),
{
    lemma_routable_indices(cs);
    let n = routable_indices(cs).len() as int;
    let a1 = ctx1.client_addr->Some_0;
    let a2 = ctx2.client_addr->Some_0;
    let k1 = (client_hash(a1.ip) as usize) as int % n;
    let k2 = (client_hash(a2.ip) as usize) as int % n;
    assert(0 <= k1 < n && 0 <= k2 < n);
    if k1 < k2 {
        assert(routable_indices(cs)[k1] < routable_indices(cs)[k2]);
    } else {
        assert(routable_indices(cs)[k2] < routable_indices(cs)[k1]);
    }
}

/// IP hashing depends only on the client address and on which candidates
/// are routable: the same address gets the same backend while that set of
/// positions is unchanged, whatever else changes (loads, identifiers,
/// health of the others).
pub proof fn lemma_ip_hash_sticky(
    cs1: Seq<BackendCandidate>,
    cs2: Seq<BackendCandidate>,
    ctx1: SelectionContext,
    ctx2: SelectionContext,
)
    requires
        routable_indices(cs1) == routable_indices(cs2),
        ctx1.client_addr matches Some(a1) && ctx2.client_addr matches Some(a2) && a1.ip == a2.ip,
    ensures
        ip_hash_pick(cs1, ctx1) == ip_hash_pick(cs2, ctx2),
{
}

} // verus!
