use freedom_network::onion::{CircuitState, NodeId, OnionRouter};

#[test]
fn test_build_route() {
    let mut router = OnionRouter::new();

    router.register_node(NodeId("node1".to_string()));
    router.register_node(NodeId("node2".to_string()));
    router.register_node(NodeId("node3".to_string()));

    let route = router.build_route(3).unwrap();

    assert_eq!(route.hops.len(), 3);
    assert_eq!(route.symmetric_keys.len(), 3);
    assert!(!route.route_id.is_empty());
}

#[test]
fn test_establish_circuit() {
    let mut router = OnionRouter::new();

    router.register_node(NodeId("node1".to_string()));
    router.register_node(NodeId("node2".to_string()));
    router.register_node(NodeId("node3".to_string()));

    let circuit_id = router.establish_circuit(3).unwrap();
    assert!(!circuit_id.is_empty());

    let circuit = router.get_circuit(&circuit_id).unwrap();
    assert_eq!(circuit.state, CircuitState::Building);
}

#[test]
fn test_encrypt_decrypt() {
    let router = OnionRouter::new();

    let payload = b"Secret message";
    let keys = vec![vec![0x42; 32], vec![0x99; 32], vec![0xAA; 32]];

    let encrypted = router.encrypt_payload(payload, &keys);
    let decrypted = router.decrypt_payload(&encrypted, &keys);

    assert_eq!(decrypted, payload.to_vec());
    assert_ne!(encrypted, payload.to_vec());
}

#[test]
fn onion_round_trip_through_built_route() {
    let mut router = OnionRouter::new();
    router.register_node(NodeId("node1".to_string()));
    router.register_node(NodeId("node2".to_string()));
    router.register_node(NodeId("node3".to_string()));

    let route = router.build_route(3).unwrap();
    let payload = b"hello world";
    let encrypted = router.encrypt_payload(payload, &route.symmetric_keys);
    let decrypted = router.decrypt_payload(&encrypted, &route.symmetric_keys);
    assert_eq!(decrypted, payload.to_vec());
}

#[test]
fn route_selection_uses_the_registered_nodes() {
    let mut router = OnionRouter::new();
    router.register_node(NodeId("node1".to_string()));
    router.register_node(NodeId("node2".to_string()));
    router.register_node(NodeId("node3".to_string()));

    let route = router.build_route(3).unwrap();
    let mut names: Vec<String> = route.hops.iter().map(|h| h.0.clone()).collect();
    names.sort();
    assert_eq!(names, vec!["node1".to_string(), "node2".to_string(), "node3".to_string()]);
    assert_eq!(route.route_id.len(), 64);
    assert!(route.symmetric_keys.iter().all(|k| k.len() == 32));
    assert!(route.expires_at >= route.created_at);
}

#[test]
fn build_route_fails_without_enough_nodes() {
    let mut router = OnionRouter::new();
    router.register_node(NodeId("only".to_string()));
    let err = router.build_route(3).unwrap_err();
    assert_eq!(err, "Not enough nodes available: have 1, need 3");
}

#[test]
fn circuit_states_only_advance() {
    let mut router = OnionRouter::new();
    router.register_node(NodeId("node1".to_string()));
    router.register_node(NodeId("node2".to_string()));
    router.register_node(NodeId("node3".to_string()));

    let id = router.establish_circuit(2).unwrap();
    assert_eq!(id.len(), 32);
    assert_eq!(router.get_circuit(&id).unwrap().state, CircuitState::Building);

    router.activate_circuit(&id).unwrap();
    assert_eq!(router.get_circuit(&id).unwrap().state, CircuitState::Ready);

    // activating again keeps the circuit ready
    router.activate_circuit(&id).unwrap();
    assert_eq!(router.get_circuit(&id).unwrap().state, CircuitState::Ready);

    router.close_circuit(&id).unwrap();
    assert_eq!(router.get_circuit(&id).unwrap().state, CircuitState::Closed);

    // a closed circuit never goes back
    router.activate_circuit(&id).unwrap();
    assert_eq!(router.get_circuit(&id).unwrap().state, CircuitState::Closed);
}

#[test]
fn unknown_circuit_is_an_error() {
    let mut router = OnionRouter::new();
    let err = router.activate_circuit("nope").unwrap_err();
    assert_eq!(err, "Circuit nope not found");
    let err = router.close_circuit("nope").unwrap_err();
    assert_eq!(err, "Circuit nope not found");
    assert!(router.get_circuit("nope").is_none());
}

#[test]
fn empty_key_schedule_leaves_payload_alone() {
    let router = OnionRouter::new();
    let keys: Vec<Vec<u8>> = Vec::new();
    let payload = b"untouched";
    assert_eq!(router.encrypt_payload(payload, &keys), payload.to_vec());
    assert_eq!(router.decrypt_payload(payload, &keys), payload.to_vec());
}
