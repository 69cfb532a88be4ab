use janus::backend::{
    janus_core, Backend, BackendAddress, BackendId, BackendRuntime, HealthStatus, IpAddress,
    Protocol, RuntimeState, SocketAddress,
};
use janus::balancer::janus_balancer;
use janus::cli::{parse_args, CliCommand};
use janus::config::{janus_config, startup_target, JanusConfig, ServiceConfig};
use janus::error::Error;
use janus::exchange::{BodyTransfer, ExchangeAction, ExchangeEvent, ExchangeStage, HttpExchange};
use janus::http::{HttpHeader, HttpRequestHead, HttpResponseHead};
use janus::proxy::{
    decrement_active_connections, increment_active_connections, janus_proxy,
    settle_tcp_connection, ProxyMetrics, TcpOutcome, TimeoutConfig,
};

fn addr(port: u16) -> SocketAddress {
    SocketAddress { ip: IpAddress::V4([127, 0, 0, 1]), port }
}

fn runtime(id: &str) -> BackendRuntime {
    BackendRuntime::new(Backend { id: BackendId(id.into()), address: BackendAddress(addr(9000)), weight: 1 })
}

fn metrics() -> ProxyMetrics {
    ProxyMetrics {
        bytes_in: 0,
        bytes_out: 0,
        responses_1xx: 0,
        responses_2xx: 0,
        responses_3xx: 0,
        responses_4xx: 0,
        responses_5xx: 0,
    }
}

fn header(name: &str, value: &str) -> HttpHeader {
    HttpHeader { name: name.into(), value: value.into() }
}

fn request(method: &str, headers: Vec<HttpHeader>) -> HttpRequestHead {
    HttpRequestHead { method: method.into(), target: "/".into(), version: "HTTP/1.1".into(), headers }
}

fn response(status: u16, headers: Vec<HttpHeader>) -> HttpResponseHead {
    HttpResponseHead { version: "HTTP/1.1".into(), status, reason: "OK".into(), headers }
}

#[test]
fn active_connection_counter_increments_and_decrements() {
    let mut active_connections: usize = 0;

    let first = increment_active_connections(&mut active_connections);
    let second = increment_active_connections(&mut active_connections);
    let remaining = decrement_active_connections(&mut active_connections);

    assert_eq!(first, 1);
    assert_eq!(second, 2);
    assert_eq!(remaining, 1);
    assert_eq!(active_connections, 1);
}

#[test]
fn part_names() {
    assert_eq!(janus_core(), "janus-core");
    assert_eq!(janus_config(), "janus-config");
    assert_eq!(janus_balancer(), "janus-balancer");
    assert_eq!(janus_proxy(), "janus-proxy");
}

#[test]
fn records_status_classes() {
    let mut m = metrics();
    for s in [100, 101, 200, 204, 301, 404, 500, 503, 0, 99, 600, 65535] {
        m.record_status(s);
    }
    assert_eq!(m.responses_1xx, 2);
    assert_eq!(m.responses_2xx, 2);
    assert_eq!(m.responses_3xx, 1);
    assert_eq!(m.responses_4xx, 1);
    assert_eq!(m.responses_5xx, 6);
    m.responses_2xx = u64::MAX;
    m.record_status(200);
    assert_eq!(m.responses_2xx, 0);
}

#[test]
fn records_transfers_with_wraparound() {
    let mut m = metrics();
    m.record_transfer(10, 20);
    m.record_transfer(5, 0);
    assert_eq!((m.bytes_in, m.bytes_out), (15, 20));
    m.bytes_in = u64::MAX - 1;
    m.record_transfer(3, 0);
    assert_eq!(m.bytes_in, 1);
}

#[test]
fn timeout_defaults() {
    let t = TimeoutConfig::default();
    assert_eq!(t.connect_timeout_ms, 2000);
    assert_eq!(t.read_timeout_ms, 30000);
    assert_eq!(t.write_timeout_ms, 30000);
    assert_eq!(t.request_timeout_ms, 60000);
    assert_eq!(t.idle_timeout_ms, 60000);
}

#[test]
fn backend_runtime_counters() {
    let mut r = runtime("b");
    assert_eq!(r.health(), HealthStatus::Unknown);
    r.begin_connection();
    r.begin_connection();
    r.end_connection();
    assert_eq!(r.active_connections(), 1);
    assert_eq!(r.total_connections(), 2);
    r.record_failure();
    assert_eq!(r.failure_count(), 1);
    r.end_connection();
    r.end_connection();
    assert_eq!(r.active_connections(), usize::MAX);
    r.begin_connection();
    assert_eq!(r.active_connections(), 0);
}

#[test]
fn runtime_state_changes_one_backend_at_a_time() {
    let mut state = RuntimeState::new(vec![runtime("a"), runtime("b"), runtime("c")]);
    state.begin_connection(1);
    state.set_health(2, HealthStatus::Draining);
    state.record_failure(0);
    let bs = state.backends();
    assert_eq!(bs.len(), 3);
    assert_eq!(bs[1].active_connections(), 1);
    assert_eq!(bs[0].active_connections(), 0);
    assert_eq!(bs[2].health(), HealthStatus::Draining);
    assert_eq!(bs[0].failure_count(), 1);
    assert_eq!(bs[1].backend().id.0, "b");
    state.end_connection(1);
    assert_eq!(state.backends()[1].active_connections(), 0);
}

#[test]
fn settles_tcp_connections() {
    let mut state = RuntimeState::new(vec![runtime("a"), runtime("b")]);
    let mut m = metrics();
    settle_tcp_connection(TcpOutcome::Forwarded { client_to_backend: 5, backend_to_client: 7 }, &mut state, 0, &mut m);
    assert_eq!((m.bytes_in, m.bytes_out), (5, 7));
    assert_eq!(state.backends()[0].failure_count(), 0);
    settle_tcp_connection(TcpOutcome::ConnectFailed, &mut state, 1, &mut m);
    settle_tcp_connection(TcpOutcome::ForwardFailed, &mut state, 1, &mut m);
    assert_eq!(state.backends()[1].failure_count(), 2);
    assert_eq!((m.bytes_in, m.bytes_out), (5, 7));
}

#[test]
fn exchange_forwards_a_get_request() {
    let mut ex = HttpExchange::new("127.0.0.1");
    let step = ex.step(ExchangeEvent::RequestHead(Ok(request(
        "GET",
        vec![header("Host", "example.com"), header("Connection", "keep-alive")],
    ))));
    assert!(matches!(step.action, ExchangeAction::ConnectBackend));
    let step = ex.step(ExchangeEvent::BackendConnected(true));
    match step.action {
        ExchangeAction::WriteRequestHead(text) => assert_eq!(
            text,
            "GET / HTTP/1.1\r\nHost: example.com\r\nX-Forwarded-For: 127.0.0.1\r\n\
             X-Forwarded-Host: example.com\r\nX-Forwarded-Proto: http\r\n\r\n"
        ),
        other => panic!("unexpected {other:?}"),
    }
    let step = ex.step(ExchangeEvent::RequestHeadWritten(true));
    assert!(matches!(step.action, ExchangeAction::ReadResponseHead));
    let step = ex.step(ExchangeEvent::ResponseHead(Ok(response(200, vec![header("Content-Length", "5")]))));
    assert_eq!(step.status, Some(200));
    match step.action {
        ExchangeAction::WriteResponseHead(text) => {
            assert_eq!(text, "HTTP/1.1 200 OK\r\nContent-Length: 5\r\n\r\n")
        }
        other => panic!("unexpected {other:?}"),
    }
    let step = ex.step(ExchangeEvent::ResponseHeadWritten(true));
    assert!(matches!(step.action, ExchangeAction::CopyResponseBody(BodyTransfer::Exactly(5))));
    let step = ex.step(ExchangeEvent::ResponseBodyCopied(true));
    assert!(matches!(step.action, ExchangeAction::Close));
    assert!(!step.backend_failed);
    assert_eq!(ex.stage(), ExchangeStage::Closed);
}

#[test]
fn exchange_copies_a_request_body_and_relays_until_eof() {
    let mut ex = HttpExchange::new("10.0.0.9");
    ex.step(ExchangeEvent::RequestHead(Ok(request("POST", vec![header("content-length", "11")]))));
    ex.step(ExchangeEvent::BackendConnected(true));
    let step = ex.step(ExchangeEvent::RequestHeadWritten(true));
    assert!(matches!(step.action, ExchangeAction::CopyRequestBody(11)));
    let step = ex.step(ExchangeEvent::RequestBodyCopied(true));
    assert!(matches!(step.action, ExchangeAction::ReadResponseHead));
    ex.step(ExchangeEvent::ResponseHead(Ok(response(201, vec![header("Content-Length", "0")]))));
    let step = ex.step(ExchangeEvent::ResponseHeadWritten(true));
    assert!(matches!(step.action, ExchangeAction::CopyResponseBody(BodyTransfer::UntilEof)));
}

#[test]
fn exchange_charges_backend_failures_only() {
    // Unsupported request: closed, backend never contacted, nothing charged.
    let mut ex = HttpExchange::new("1.1.1.1");
    let step = ex.step(ExchangeEvent::RequestHead(Ok(request("GET", vec![header("Upgrade", "websocket")]))));
    assert!(matches!(step.action, ExchangeAction::Close));
    assert!(!step.backend_failed);

    // Unreadable request head.
    let mut ex = HttpExchange::new("1.1.1.1");
    let step = ex.step(ExchangeEvent::RequestHead(Err(Error::Protocol("bad".into()))));
    assert!(matches!(step.action, ExchangeAction::Close));
    assert!(!step.backend_failed);

    // Backend unreachable.
    let mut ex = HttpExchange::new("1.1.1.1");
    ex.step(ExchangeEvent::RequestHead(Ok(request("GET", vec![]))));
    let step = ex.step(ExchangeEvent::BackendConnected(false));
    assert!(matches!(step.action, ExchangeAction::Close));
    assert!(step.backend_failed);

    // Invalid request length after the head went out: closed, not charged.
    let mut ex = HttpExchange::new("1.1.1.1");
    ex.step(ExchangeEvent::RequestHead(Ok(request("POST", vec![header("Content-Length", "x")]))));
    ex.step(ExchangeEvent::BackendConnected(true));
    let step = ex.step(ExchangeEvent::RequestHeadWritten(true));
    assert!(matches!(step.action, ExchangeAction::Close));
    assert!(!step.backend_failed);

    // Bad response head: charged.
    let mut ex = HttpExchange::new("1.1.1.1");
    ex.step(ExchangeEvent::RequestHead(Ok(request("GET", vec![]))));
    ex.step(ExchangeEvent::BackendConnected(true));
    ex.step(ExchangeEvent::RequestHeadWritten(true));
    let step = ex.step(ExchangeEvent::ResponseHead(Err(Error::Protocol("x".into()))));
    assert!(step.backend_failed);
    assert_eq!(step.status, None);

    // Client gone while writing the response: not charged; the exchange stays closed.
    let mut ex = HttpExchange::new("1.1.1.1");
    ex.step(ExchangeEvent::RequestHead(Ok(request("GET", vec![]))));
    ex.step(ExchangeEvent::BackendConnected(true));
    ex.step(ExchangeEvent::RequestHeadWritten(true));
    ex.step(ExchangeEvent::ResponseHead(Ok(response(502, vec![]))));
    let step = ex.step(ExchangeEvent::ResponseHeadWritten(false));
    assert!(!step.backend_failed);
    let step = ex.step(ExchangeEvent::BackendConnected(true));
    assert!(matches!(step.action, ExchangeAction::Close));
}

#[test]
fn parses_command_lines() {
    let args = |xs: &[&str]| xs.iter().map(|s| s.to_string()).collect::<Vec<String>>();
    assert_eq!(parse_args(&args(&["janus", "--config", "a.toml"])), Ok(CliCommand::Run("a.toml".into())));
    assert_eq!(parse_args(&args(&["janus", "-c", "a", "-c", "b"])), Ok(CliCommand::Run("b".into())));
    assert_eq!(parse_args(&args(&["janus", "--help", "--bogus"])), Ok(CliCommand::Help));
    assert_eq!(parse_args(&args(&["janus", "-c", "x", "-h"])), Ok(CliCommand::Help));
    assert_eq!(
        parse_args(&args(&["janus", "-c"])),
        Err("Error: Missing value for --config flag".to_string())
    );
    assert_eq!(
        parse_args(&args(&["janus", "--bogus", "-h"])),
        Err("Error: Unknown argument '--bogus'\nUse --help for usage details.".to_string())
    );
    let missing = "Error: Missing required argument --config <PATH>\nUse --help for usage details.";
    assert_eq!(parse_args(&args(&["janus"])), Err(missing.to_string()));
    assert_eq!(parse_args(&args(&[])), Err(missing.to_string()));
}

#[test]
fn startup_takes_the_first_backend_of_the_first_service() {
    let empty = JanusConfig { services: vec![] };
    assert_eq!(startup_target(&empty).unwrap_err(), Error::Config("no services defined".into()));
    let service = |backends| ServiceConfig {
        name: "web".into(),
        listen_addr: addr(8080),
        backends,
        protocol: Protocol::Tcp,
    };
    let no_backends = JanusConfig { services: vec![service(vec![])] };
    assert_eq!(startup_target(&no_backends).unwrap_err(), Error::Config("no backends defined".into()));
    let cfg = JanusConfig {
        services: vec![service(vec![
            janus::config::Backend { id: "b1".into(), address: addr(9001), weight: 3 },
            janus::config::Backend { id: "b2".into(), address: addr(9002), weight: 1 },
        ])],
    };
    let (listener, backend) = startup_target(&cfg).unwrap();
    assert_eq!(listener.listen_addr.port, 8080);
    assert_eq!(backend.id.0, "b1");
    assert_eq!(backend.address.0.port, 9001);
    assert_eq!(backend.weight, 3);
}
