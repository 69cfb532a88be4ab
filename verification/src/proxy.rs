//! Proxy-wide settings and counters, and the bookkeeping of a forwarded TCP
//! connection.
use vstd::prelude::*;

use crate::backend::{
    inc_u64, wrapping_inc_u64, RuntimeState, RuntimeView, SocketAddress,
};

verus! {

/// The name of this part of the library.
pub fn janus_proxy() -> (r: &'static str)
    ensures
        r@ == "janus-proxy"@,
{
    "janus-proxy"
}

/// Which requests may be sent again after a failure.
#[derive(Debug)]
pub struct RetryConfig {
    /// Methods (ASCII case ignored) that are safe to repeat.
    pub retryable_methods: Vec<String>,
}

/// Traffic counters of the whole proxy. Every counter wraps around past its
/// largest value.
#[derive(Debug)]
pub struct ProxyMetrics {
    pub bytes_in: u64,
    pub bytes_out: u64,
    pub responses_1xx: u64,
    pub responses_2xx: u64,
    pub responses_3xx: u64,
    pub responses_4xx: u64,
    pub responses_5xx: u64,
}

/// `a + b`, wrapping around past the largest value.
pub open spec fn wrapping_add_u64(a: u64, b: u64) -> u64 {
    if a + b <= u64::MAX {
        (a + b) as u64
    } else {
        (a + b - u64::MAX - 1) as u64
    }
}

fn add_u64(a: u64, b: u64) -> (r: u64)
    ensures
        r == wrapping_add_u64(a, b),
{
    if a <= u64::MAX - b {
        a + b
    } else {
        b - (u64::MAX - a) - 1
    }
}

/// The metrics after counting a response with status `status`: its class
/// (1xx to 4xx) or, for any other status, 5xx.
pub open spec fn record_status_spec(m: ProxyMetrics, status: u16) -> ProxyMetrics {
    let class = status / 100;
    if class == 1 {
        ProxyMetrics { responses_1xx: wrapping_inc_u64(m.responses_1xx), ..m }
    } else if class == 2 {
        ProxyMetrics { responses_2xx: wrapping_inc_u64(m.responses_2xx), ..m }
    } else if class == 3 {
        ProxyMetrics { responses_3xx: wrapping_inc_u64(m.responses_3xx), ..m }
    } else if class == 4 {
        ProxyMetrics { responses_4xx: wrapping_inc_u64(m.responses_4xx), ..m }
    } else {
        ProxyMetrics { responses_5xx: wrapping_inc_u64(m.responses_5xx), ..m }
    }
}

impl ProxyMetrics {
    /// Counts a response by its status class.
    pub fn record_status(&mut self, status: u16)
        ensures
            *final(self) == record_status_spec(*old(self), status),
    {
        let class = status / 100;
        if class == 1 {
            self.responses_1xx = inc_u64(self.responses_1xx);
        } else if class == 2 {
            self.responses_2xx = inc_u64(self.responses_2xx);
        } else if class == 3 {
            self.responses_3xx = inc_u64(self.responses_3xx);
        } else if class == 4 {
            self.responses_4xx = inc_u64(self.responses_4xx);
        } else {
            self.responses_5xx = inc_u64(self.responses_5xx);
        }
    }

    /// Counts the bytes of a forwarded connection.
    pub fn record_transfer(&mut self, client_to_backend: u64, backend_to_client: u64)
        ensures
            *final(self) == (ProxyMetrics {
                bytes_in: wrapping_add_u64(old(self).bytes_in, client_to_backend),
                bytes_out: wrapping_add_u64(old(self).bytes_out, backend_to_client),
                ..*old(self)
            }),
    {
        self.bytes_in = add_u64(self.bytes_in, client_to_backend);
        self.bytes_out = add_u64(self.bytes_out, backend_to_client);
    }
}

/// The proxy's listening address.
#[derive(Debug, Clone, Copy)]
pub struct ListenerConfig {
    pub listen_addr: SocketAddress,
}

/// The number of one client connection.
#[derive(Debug, Clone, Copy)]
pub struct ConnectionId(pub u64);

/// Time limits of a connection, in milliseconds.
#[derive(Debug, Clone, Copy)]
pub struct TimeoutConfig {
    pub connect_timeout_ms: u64,
    pub read_timeout_ms: u64,
    pub write_timeout_ms: u64,
    pub request_timeout_ms: u64,
    pub idle_timeout_ms: u64,
}

impl Default for TimeoutConfig {
    /// 2 s to connect, 30 s per read and per write, 60 s per request and
    /// of idleness.
    fn default() -> (r: Self)
        ensures
            r.connect_timeout_ms == 2000,
            r.read_timeout_ms == 30000,
            r.write_timeout_ms == 30000,
            r.request_timeout_ms == 60000,
            r.idle_timeout_ms == 60000,
    {
        TimeoutConfig {
            connect_timeout_ms: 2000,
            read_timeout_ms: 30000,
            write_timeout_ms: 30000,
            request_timeout_ms: 60000,
            idle_timeout_ms: 60000,
        }
    }
}

/// Counts one more open client connection and returns the new count.
pub fn increment_active_connections(active_connections: &mut usize) -> (r: usize)
    requires
        *old(active_connections) < usize::MAX,
    ensures
        *final(active_connections) == *old(active_connections) + 1,
        r == *final(active_connections),
{
    *active_connections = *active_connections + 1;
    *active_connections
}

/// Counts one fewer open client connection and returns the new count.
pub fn decrement_active_connections(active_connections: &mut usize) -> (r: usize)
    requires
        *old(active_connections) > 0,
    ensures
        *final(active_connections) == *old(active_connections) - 1,
        r == *final(active_connections),
{
    *active_connections = *active_connections - 1;
    *active_connections
}

/// How a forwarded TCP connection ended.
#[derive(Debug, Clone, Copy)]
pub enum TcpOutcome {
    /// The backend could not be reached.
    ConnectFailed,
    /// Both directions were copied until closed, with these byte counts.
    Forwarded { client_to_backend: u64, backend_to_client: u64 },
    /// Copying failed part way.
    ForwardFailed,
}

/// Books the end of a forwarded TCP connection to backend `index`: a failure
/// is charged to the backend when it could not be reached or the copy
/// failed; the bytes of a completed copy are added to the metrics.
pub fn settle_tcp_connection(
    outcome: TcpOutcome,
    state: &mut RuntimeState,
    index: usize,
    metrics: &mut ProxyMetrics,
)
    requires
        index < old(state)@.len(),
    ensures
        final(state)@.len() == old(state)@.len(),
        forall|j: int|
            0 <= j < old(state)@.len() && j != index ==> final(state)@[j] == old(state)@[j],
        match outcome {
            TcpOutcome::Forwarded { client_to_backend, backend_to_client } => {
                &&& final(state)@[index as int] == old(state)@[index as int]
                &&& *final(metrics) == (ProxyMetrics {
                    bytes_in: wrapping_add_u64(old(metrics).bytes_in, client_to_backend),
                    bytes_out: wrapping_add_u64(old(metrics).bytes_out, backend_to_client),
                    ..*old(metrics)
                })
            },
            _ => {
                &&& final(state)@[index as int]@ == (RuntimeView {
                    failures: wrapping_inc_u64(old(state)@[index as int]@.failures),
                    ..old(state)@[index as int]@
                })
                &&& *final(metrics) == *old(metrics)
            },
        },
{
    match outcome {
        TcpOutcome::Forwarded { client_to_backend, backend_to_client } => {
            metrics.record_transfer(client_to_backend, backend_to_client);
        },
        _ => {
            state.record_failure(index);
        },
    }
}

} // verus!
