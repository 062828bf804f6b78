//! The connection router: weights, addresses and fallbacks.
use mydb::router::{
    backend_address, backend_order, parse_backend, total_backend_weight, weighted_backend_index,
    BackendConfig, RouterConfig,
};

fn backend(host: &str, weight: usize) -> BackendConfig {
    BackendConfig { host: host.to_string(), port: 3306, weight }
}

#[test]
fn config_requires_a_backend() {
    let config = RouterConfig {
        listen_host: "0.0.0.0".to_string(),
        listen_port: 13306,
        backends: Vec::new(),
        connect_timeout_ms: 100,
        max_connections: 1,
        tcp_nodelay: true,
    };
    assert!(config.validate().is_err());
}

#[test]
fn weighted_backend_index_preserves_backend_weight() {
    let backends = [
        BackendConfig { host: "a".to_string(), port: 3306, weight: 2 },
        BackendConfig { host: "b".to_string(), port: 3306, weight: 1 },
    ];
    assert_eq!(weighted_backend_index(&backends, 0), 0);
    assert_eq!(weighted_backend_index(&backends, 1), 0);
    assert_eq!(weighted_backend_index(&backends, 2), 1);
}

#[test]
fn ipv6_backend_address_is_bracketed() {
    let backend = BackendConfig { host: "::1".to_string(), port: 3306, weight: 1 };
    assert_eq!(backend_address(&backend), "[::1]:3306");
}

#[test]
fn every_backend_gets_as_many_slots_as_it_weighs() {
    let backends = [backend("a", 3), backend("b", 1), backend("c", 2)];
    let total = total_backend_weight(&backends).unwrap();
    assert_eq!(total, 6);
    let mut counts = [0; 3];
    for slot in 0..total {
        counts[weighted_backend_index(&backends, slot)] += 1;
    }
    assert_eq!(counts, [3, 1, 2]);
}

#[test]
fn all_backends_are_tried_in_turn() {
    let backends = [backend("a", 1), backend("b", 1), backend("c", 1)];
    assert_eq!(backend_order(&backends, 4).unwrap(), vec![1, 2, 0]);
}

#[test]
fn backends_are_read_from_text() {
    let parsed = parse_backend("db-1:3307").unwrap();
    assert_eq!((parsed.host.as_str(), parsed.port), ("db-1", 3307));
    assert!(parse_backend("db-1").is_err());
    assert!(parse_backend("db-1:port").is_err());
}

#[test]
fn weights_must_fit() {
    let backends = [backend("a", usize::MAX), backend("b", 1)];
    assert!(total_backend_weight(&backends).is_err());
}
