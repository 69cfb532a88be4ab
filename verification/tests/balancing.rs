use janus::backend::{
    Backend, BackendAddress, BackendId, BackendRuntime, HealthStatus, IpAddress, SocketAddress,
};
use janus::balancer::{
    expanded_indexes, healthy_candidates, BackendCandidate, IpHashBalancer,
    LeastConnectionsBalancer, LoadBalancer, RoundRobinBalancer, SelectionContext,
    WeightedRoundRobinBalancer,
};

fn create_fixture(id: &str, weight: u32, health: HealthStatus, active_conns: usize) -> BackendCandidate {
    let backend = Backend {
        id: BackendId(id.to_string()),
        address: BackendAddress(SocketAddress { ip: IpAddress::V4([127, 0, 0, 1]), port: 8080 }),
        weight,
    };
    let mut runtime = BackendRuntime::new(backend);
    runtime.set_health(health);
    for _ in 0..active_conns {
        runtime.begin_connection();
    }
    BackendCandidate { runtime }
}

fn client(a: u8, b: u8, c: u8, d: u8, port: u16) -> SelectionContext {
    SelectionContext { client_addr: Some(SocketAddress { ip: IpAddress::V4([a, b, c, d]), port }) }
}

#[test]
fn test_round_robin_balancer() {
    let b1 = create_fixture("b1", 1, HealthStatus::Healthy, 0);
    let b2 = create_fixture("b2", 1, HealthStatus::Healthy, 0);
    let b3 = create_fixture("b3", 1, HealthStatus::Unhealthy, 0);
    let b4 = create_fixture("b4", 1, HealthStatus::Healthy, 0);

    let candidates = vec![b1.clone(), b2.clone(), b3.clone(), b4.clone()];

    let mut balancer = RoundRobinBalancer::new();
    let ctx = SelectionContext { client_addr: None };

    let sel1 = balancer.select(&candidates, &ctx).unwrap();
    assert_eq!(sel1.runtime.backend().id.0, "b1");

    let sel2 = balancer.select(&candidates, &ctx).unwrap();
    assert_eq!(sel2.runtime.backend().id.0, "b2");

    let sel3 = balancer.select(&candidates, &ctx).unwrap();
    assert_eq!(sel3.runtime.backend().id.0, "b4");

    let sel4 = balancer.select(&candidates, &ctx).unwrap();
    assert_eq!(sel4.runtime.backend().id.0, "b1");
}

#[test]
fn test_unknown_backends_are_routable_at_startup() {
    // Before the first health probe runs, every backend is Unknown.
    // Traffic must still flow, otherwise the proxy is dead until the
    // first interval tick.
    let b1 = create_fixture("b1", 1, HealthStatus::Unknown, 0);
    let b2 = create_fixture("b2", 1, HealthStatus::Unknown, 0);

    let candidates = vec![b1.clone(), b2.clone()];
    let mut balancer = RoundRobinBalancer::new();
    let ctx = SelectionContext { client_addr: None };

    assert!(balancer.select(&candidates, &ctx).is_some());
}

#[test]
fn test_least_connections_balancer() {
    let b1 = create_fixture("b1", 1, HealthStatus::Healthy, 5);
    let b2 = create_fixture("b2", 1, HealthStatus::Healthy, 2);
    let b3 = create_fixture("b3", 1, HealthStatus::Unhealthy, 1);
    let b4 = create_fixture("b4", 1, HealthStatus::Healthy, 8);

    let candidates = vec![b1.clone(), b2.clone(), b3.clone(), b4.clone()];

    let mut balancer = LeastConnectionsBalancer::new();
    let ctx = SelectionContext { client_addr: None };

    let sel = balancer.select(&candidates, &ctx).unwrap();
    assert_eq!(sel.runtime.backend().id.0, "b2");
}

#[test]
fn test_least_connections_tie_breaker() {
    let b1 = create_fixture("b-beta", 1, HealthStatus::Healthy, 2);
    let b2 = create_fixture("b-alpha", 1, HealthStatus::Healthy, 2);

    let candidates = vec![b1.clone(), b2.clone()];
    let mut balancer = LeastConnectionsBalancer::new();
    let ctx = SelectionContext { client_addr: None };

    let sel = balancer.select(&candidates, &ctx).unwrap();
    assert_eq!(sel.runtime.backend().id.0, "b-alpha");
}

#[test]
fn test_weighted_round_robin_balancer() {
    let b1 = create_fixture("b1", 1, HealthStatus::Healthy, 0);
    let b2 = create_fixture("b2", 3, HealthStatus::Healthy, 0);
    let b3 = create_fixture("b3", 2, HealthStatus::Unhealthy, 0);

    let candidates = vec![b1.clone(), b2.clone(), b3.clone()];

    let mut balancer = WeightedRoundRobinBalancer::new();
    let ctx = SelectionContext { client_addr: None };

    let mut selections = Vec::new();
    for _ in 0..8 {
        let sel = balancer.select(&candidates, &ctx).unwrap();
        selections.push(sel.runtime.backend().id.0.clone());
    }

    assert_eq!(selections, vec!["b1", "b2", "b2", "b2", "b1", "b2", "b2", "b2"]);
}

#[test]
fn test_ip_hash_balancer() {
    let b1 = create_fixture("b1", 1, HealthStatus::Healthy, 0);
    let b2 = create_fixture("b2", 1, HealthStatus::Healthy, 0);
    let b3 = create_fixture("b3", 1, HealthStatus::Unhealthy, 0);

    let candidates = vec![b1.clone(), b2.clone(), b3.clone()];

    let mut balancer = IpHashBalancer::new();

    let ctx1 = client(192, 168, 1, 100, 12345);

    let sel1_a = balancer.select(&candidates, &ctx1).unwrap();
    let sel1_b = balancer.select(&candidates, &ctx1).unwrap();
    assert_eq!(sel1_a.runtime.backend().id.0, sel1_b.runtime.backend().id.0);

    let ctx_none = SelectionContext { client_addr: None };
    let sel_fallback = balancer.select(&candidates, &ctx_none).unwrap();
    assert_eq!(sel_fallback.runtime.backend().id.0, "b1");
}

#[test]
fn nothing_routable_selects_nothing() {
    let candidates = vec![
        create_fixture("a", 1, HealthStatus::Unhealthy, 0),
        create_fixture("b", 1, HealthStatus::Draining, 0),
    ];
    let ctx = SelectionContext { client_addr: None };
    assert!(RoundRobinBalancer::new().select(&candidates, &ctx).is_none());
    assert!(LeastConnectionsBalancer::new().select(&candidates, &ctx).is_none());
    assert!(WeightedRoundRobinBalancer::new().select(&candidates, &ctx).is_none());
    assert!(IpHashBalancer::new().select(&candidates, &client(10, 0, 0, 1, 1)).is_none());
    assert!(RoundRobinBalancer::new().select(&[], &ctx).is_none());
}

#[test]
fn round_robin_does_not_advance_without_a_choice() {
    let up = vec![create_fixture("a", 1, HealthStatus::Healthy, 0), create_fixture("b", 1, HealthStatus::Healthy, 0)];
    let down = vec![create_fixture("a", 1, HealthStatus::Unhealthy, 0)];
    let ctx = SelectionContext { client_addr: None };
    let mut rr = RoundRobinBalancer::new();
    assert_eq!(rr.select(&up, &ctx).unwrap().index, 0);
    assert!(rr.select(&down, &ctx).is_none());
    assert_eq!(rr.select(&up, &ctx).unwrap().index, 1);
}

#[test]
fn round_robin_visits_each_routable_backend_once_per_cycle() {
    let candidates = vec![
        create_fixture("a", 1, HealthStatus::Healthy, 0),
        create_fixture("b", 1, HealthStatus::Draining, 0),
        create_fixture("c", 1, HealthStatus::Unknown, 0),
        create_fixture("d", 1, HealthStatus::Healthy, 0),
    ];
    let ctx = SelectionContext { client_addr: None };
    let mut rr = RoundRobinBalancer::new();
    rr.select(&candidates, &ctx);
    let mut seen: Vec<usize> = (0..3).map(|_| rr.select(&candidates, &ctx).unwrap().index).collect();
    seen.sort();
    assert_eq!(seen, vec![0, 2, 3]);
}

#[test]
fn least_connections_reports_the_position_and_ignores_unroutable() {
    let candidates = vec![
        create_fixture("z", 1, HealthStatus::Unhealthy, 0),
        create_fixture("y", 1, HealthStatus::Healthy, 4),
        create_fixture("x", 1, HealthStatus::Unknown, 4),
        create_fixture("w", 1, HealthStatus::Healthy, 9),
    ];
    let sel = LeastConnectionsBalancer::new()
        .select(&candidates, &SelectionContext { client_addr: None })
        .unwrap();
    assert_eq!(sel.index, 2);
    assert_eq!(sel.runtime.active_connections(), 4);
}

#[test]
fn weighted_round_robin_with_zero_weights_rotates_plainly() {
    let candidates = vec![
        create_fixture("a", 0, HealthStatus::Healthy, 0),
        create_fixture("b", 0, HealthStatus::Healthy, 0),
    ];
    let ctx = SelectionContext { client_addr: None };
    let mut wrr = WeightedRoundRobinBalancer::new();
    let picks: Vec<usize> = (0..4).map(|_| wrr.select(&candidates, &ctx).unwrap().index).collect();
    assert_eq!(picks, vec![0, 1, 0, 1]);
}

#[test]
fn weighted_round_robin_skips_zero_weight_backends_when_others_have_weight() {
    let candidates = vec![
        create_fixture("a", 0, HealthStatus::Healthy, 0),
        create_fixture("b", 2, HealthStatus::Healthy, 0),
    ];
    let ctx = SelectionContext { client_addr: None };
    let mut wrr = WeightedRoundRobinBalancer::new();
    let picks: Vec<usize> = (0..4).map(|_| wrr.select(&candidates, &ctx).unwrap().index).collect();
    assert_eq!(picks, vec![1, 1, 1, 1]);
}

#[test]
fn expanded_indexes_repeat_each_position_by_weight() {
    let candidates = vec![
        create_fixture("a", 2, HealthStatus::Healthy, 0),
        create_fixture("b", 0, HealthStatus::Healthy, 0),
        create_fixture("c", 3, HealthStatus::Unhealthy, 0),
    ];
    assert_eq!(expanded_indexes(&candidates), vec![0, 0, 2, 2, 2]);
}

#[test]
fn healthy_candidates_keeps_healthy_and_unknown_in_order() {
    let candidates = vec![
        create_fixture("a", 1, HealthStatus::Unknown, 0),
        create_fixture("b", 1, HealthStatus::Unhealthy, 0),
        create_fixture("c", 1, HealthStatus::Healthy, 3),
        create_fixture("d", 1, HealthStatus::Draining, 0),
    ];
    let healthy = healthy_candidates(&candidates);
    let ids: Vec<&str> = healthy.iter().map(|c| c.runtime.backend().id.0.as_str()).collect();
    assert_eq!(ids, vec!["a", "c"]);
    assert_eq!(healthy[1].runtime.active_connections(), 3);
}

#[test]
fn ip_hash_is_sticky_across_load_changes_and_spreads_clients() {
    let mut candidates = vec![
        create_fixture("a", 1, HealthStatus::Healthy, 0),
        create_fixture("b", 1, HealthStatus::Healthy, 0),
        create_fixture("c", 1, HealthStatus::Healthy, 0),
    ];
    let mut ih = IpHashBalancer::new();
    let ctx = client(10, 1, 2, 3, 1000);
    let first = ih.select(&candidates, &ctx).unwrap().index;
    candidates[0].runtime.begin_connection();
    candidates[1].runtime.begin_connection();
    let other_port = client(10, 1, 2, 3, 2000);
    assert_eq!(ih.select(&candidates, &other_port).unwrap().index, first);
    let v6 = SelectionContext {
        client_addr: Some(SocketAddress { ip: IpAddress::V6([0; 16]), port: 1 }),
    };
    let pick = ih.select(&candidates, &v6).unwrap().index;
    assert_eq!(ih.select(&candidates, &v6).unwrap().index, pick);
    let mut distinct = std::collections::BTreeSet::new();
    for last in 0..64u8 {
        distinct.insert(ih.select(&candidates, &client(172, 16, 0, last, 80)).unwrap().index);
    }
    assert!(distinct.len() > 1);
}

#[test]
fn ip_hash_without_address_picks_smallest_identifier() {
    let candidates = vec![
        create_fixture("m", 1, HealthStatus::Healthy, 0),
        create_fixture("b", 1, HealthStatus::Unhealthy, 0),
        create_fixture("c", 1, HealthStatus::Unknown, 0),
    ];
    let sel = IpHashBalancer::new()
        .select(&candidates, &SelectionContext { client_addr: None })
        .unwrap();
    assert_eq!(sel.runtime.backend().id.0, "c");
}
