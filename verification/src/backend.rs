//! Backends and the live state the proxy keeps for each of them.
use vstd::prelude::*;

verus! {

/// The name of this part of the library.
pub fn janus_core() -> (r: &'static str)
    ensures
        r@ == "janus-core"@,
{
    "janus-core"
}

/// The wire protocol a service speaks.
#[derive(Debug, Clone, Copy, PartialEq, Eq, Structural)]
pub enum Protocol {
    Tcp,
    Http1,
}

/// The identity of a backend; balancers break ties by it.
#[derive(Debug)]
pub struct BackendId(pub String);

impl Clone for BackendId {
    fn clone(&self) -> (r: Self)
        ensures
            r == *self,
    {
        BackendId(self.0.clone())
    }
}

/// An IP address, by its octets in network order.
#[derive(Debug, Clone, Copy)]
pub enum IpAddress {
    V4([u8; 4]),
    V6([u8; 16]),
}

/// An IP address and a port.
#[derive(Debug, Clone, Copy)]
pub struct SocketAddress {
    pub ip: IpAddress,
    pub port: u16,
}

/// Where a backend listens.
#[derive(Debug, Clone, Copy)]
pub struct BackendAddress(pub SocketAddress);

/// A backend as configured.
#[derive(Debug)]
pub struct Backend {
    pub id: BackendId,
    pub address: BackendAddress,
    pub weight: u32,
}

impl Clone for Backend {
    fn clone(&self) -> (r: Self)
        ensures
            r == *self,
    {
        Backend { id: self.id.clone(), address: self.address, weight: self.weight }
    }
}

/// What the health checks last concluded about a backend.
#[derive(Debug, Clone, Copy, PartialEq, Eq, Structural)]
pub enum HealthStatus {
    Unknown,
    Healthy,
    Unhealthy,
    Draining,
}

/// `x + 1`, wrapping to zero past the largest value, as an atomic add does.
pub open spec fn wrapping_inc_usize(x: usize) -> usize {
    if x == usize::MAX {
        0
    } else {
        (x + 1) as usize
    }
}

/// `x - 1`, wrapping to the largest value below zero, as an atomic sub does.
pub open spec fn wrapping_dec_usize(x: usize) -> usize {
    if x == 0 {
        usize::MAX
    } else {
        (x - 1) as usize
    }
}

pub open spec fn wrapping_inc_u64(x: u64) -> u64 {
    if x == u64::MAX {
        0
    } else {
        (x + 1) as u64
    }
}

pub fn inc_usize(x: usize) -> (r: usize)
    ensures
        r == wrapping_inc_usize(x),
{
    if x == usize::MAX {
        0
    } else {
        x + 1
    }
}

pub fn dec_usize(x: usize) -> (r: usize)
    ensures
        r == wrapping_dec_usize(x),
{
    if x == 0 {
        usize::MAX
    } else {
        x - 1
    }
}

pub fn inc_u64(x: u64) -> (r: u64)
    ensures
        r == wrapping_inc_u64(x),
{
    if x == u64::MAX {
        0
    } else {
        x + 1
    }
}


/// Counting a connection and then releasing it leaves the active count as
/// it was, and adds one to the total.
pub proof fn lemma_begin_end_restores_active(active: usize, total: u64)
    ensures
        wrapping_dec_usize(wrapping_inc_usize(active)) == active,
        wrapping_inc_u64(total) == if total == u64::MAX {
            0
        } else {
            total + 1
        },
{
}

/// The live state of one backend: its configuration, its health and its
/// connection and failure counters.
#[derive(Debug)]
pub struct BackendRuntime {
    backend: Backend,
    health: HealthStatus,
    active: usize,
    total: u64,
    failures: u64,
}

/// The abstract state of a [`BackendRuntime`].
pub struct RuntimeView {
    pub backend: Backend,
    pub health: HealthStatus,
    pub active: usize,
    pub total: u64,
    pub failures: u64,
}

impl View for BackendRuntime {
    type V = RuntimeView;

    closed spec fn view(&self) -> RuntimeView {
        RuntimeView {
            backend: self.backend,
            health: self.health,
            active: self.active,
            total: self.total,
            failures: self.failures,
        }
    }
}

impl Clone for BackendRuntime {
    fn clone(&self) -> (r: Self)
        ensures
            r@ == self@,
    {
        BackendRuntime {
            backend: self.backend.clone(),
            health: self.health,
            active: self.active,
            total: self.total,
            failures: self.failures,
        }
    }
}

impl BackendRuntime {
    /// A backend whose health is not yet known and that has served nothing.
    pub fn new(backend: Backend) -> (r: Self)
        ensures
            r@.backend == backend,
            r@.health == HealthStatus::Unknown,
            r@.active == 0,
            r@.total == 0,
            r@.failures == 0,
    {
        BackendRuntime { backend, health: HealthStatus::Unknown, active: 0, total: 0, failures: 0 }
    }

    pub fn backend(&self) -> (r: &Backend)
        ensures
            *r == self@.backend,
    {
        &self.backend
    }

    pub fn health(&self) -> (r: HealthStatus)
        ensures
            r == self@.health,
    {
        self.health
    }

    pub fn set_health(&mut self, health: HealthStatus)
        ensures
            final(self)@ == (RuntimeView { health, ..old(self)@ }),
    {
        self.health = health;
    }

    pub fn active_connections(&self) -> (r: usize)
        ensures
            r == self@.active,
    {
        self.active
    }

    pub fn total_connections(&self) -> (r: u64)
        ensures
            r == self@.total,
    {
        self.total
    }

    pub fn failure_count(&self) -> (r: u64)
        ensures
            r == self@.failures,
    {
        self.failures
    }

    /// Counts a new connection: one more active, one more in total.
    pub fn begin_connection(&mut self)
        ensures
            final(self)@ == (RuntimeView {
                active: wrapping_inc_usize(old(self)@.active),
                total: wrapping_inc_u64(old(self)@.total),
                ..old(self)@
            }),
    {
        self.active = inc_usize(self.active);
        self.total = inc_u64(self.total);
    }

    /// Releases a connection counted by [`Self::begin_connection`].
    pub fn end_connection(&mut self)
        ensures
            final(self)@ == (RuntimeView { active: wrapping_dec_usize(old(self)@.active), ..old(self)@ }),
    {
        self.active = dec_usize(self.active);
    }

    /// Counts a failure to reach or talk to the backend.
    pub fn record_failure(&mut self)
        ensures
            final(self)@ == (RuntimeView { failures: wrapping_inc_u64(old(self)@.failures), ..old(self)@ }),
    {
        self.failures = inc_u64(self.failures);
    }
}

/// The live state of every backend of a service, in configuration order.
#[derive(Debug)]
pub struct RuntimeState {
    backends: Vec<BackendRuntime>,
}

impl View for RuntimeState {
    type V = Seq<BackendRuntime>;

    closed spec fn view(&self) -> Seq<BackendRuntime> {
        self.backends@
    }
}

impl RuntimeState {
    pub fn new(backends: Vec<BackendRuntime>) -> (r: Self)
        ensures
            r@ == backends@,
    {
        RuntimeState { backends }
    }

    pub fn backends(&self) -> (r: &[BackendRuntime])
        ensures
            r@ == self@,
    {
        self.backends.as_slice()
    }

    /// Sets the health of backend `index`; the others are unchanged.
    pub fn set_health(&mut self, index: usize, health: HealthStatus)
        requires
            index < old(self)@.len(),
        ensures
            final(self)@.len() == old(self)@.len(),
            final(self)@[index as int]@ == (RuntimeView { health, ..old(self)@[index as int]@ }),
            forall|j: int|
                0 <= j < old(self)@.len() && j != index ==> final(self)@[j] == old(self)@[j],
    {
        let mut b = self.backends.remove(index);
        b.set_health(health);
        self.backends.insert(index, b);
    }

    /// Counts a new connection to backend `index`.
    pub fn begin_connection(&mut self, index: usize)
        requires
            index < old(self)@.len(),
        ensures
            final(self)@.len() == old(self)@.len(),
            final(self)@[index as int]@ == (RuntimeView {
                active: wrapping_inc_usize(old(self)@[index as int]@.active),
                total: wrapping_inc_u64(old(self)@[index as int]@.total),
                ..old(self)@[index as int]@
            }),
            forall|j: int|
                0 <= j < old(self)@.len() && j != index ==> final(self)@[j] == old(self)@[j],
    {
        let mut b = self.backends.remove(index);
        b.begin_connection();
        self.backends.insert(index, b);
    }

    /// Releases a connection to backend `index`.
    pub fn end_connection(&mut self, index: usize)
        requires
            index < old(self)@.len(),
        ensures
            final(self)@.len() == old(self)@.len(),
            final(self)@[index as int]@ == (RuntimeView {
                active: wrapping_dec_usize(old(self)@[index as int]@.active),
                ..old(self)@[index as int]@
            }),
            forall|j: int|
                0 <= j < old(self)@.len() && j != index ==> final(self)@[j] == old(self)@[j],
    {
        let mut b = self.backends.remove(index);
        b.end_connection();
        self.backends.insert(index, b);
    }

    /// Counts a failure of backend `index`.
    pub fn record_failure(&mut self, index: usize)
        requires
            index < old(self)@.len(),
        ensures
            final(self)@.len() == old(self)@.len(),
            final(self)@[index as int]@ == (RuntimeView {
                failures: wrapping_inc_u64(old(self)@[index as int]@.failures),
                ..old(self)@[index as int]@
            }),
            forall|j: int|
                0 <= j < old(self)@.len() && j != index ==> final(self)@[j] == old(self)@[j],
    {
        let mut b = self.backends.remove(index);
        b.record_failure();
        self.backends.insert(index, b);
    }
}

} // verus!
