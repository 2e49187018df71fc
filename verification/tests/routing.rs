use freedom_network::routing::{CircuitId, NodeId, Router};

#[test]
fn circuit_ids_count_up_and_wrap_into_the_table() {
    let mut router = Router::new();
    let a = router.build_circuit(vec![NodeId([1; 32]), NodeId([2; 32])]);
    let b = router.build_circuit(vec![NodeId([3; 32])]);
    assert_eq!(a, CircuitId(1));
    assert_eq!(b, CircuitId(2));
    let got = router.get_circuit(a).unwrap();
    assert_eq!(got.hops.len(), 2);
    assert_eq!(got.current_hop, 0);
}

#[test]
fn advance_hop_walks_the_path() {
    let mut router = Router::new();
    let id = router.build_circuit(vec![NodeId([1; 32]), NodeId([2; 32]), NodeId([3; 32])]);
    assert_eq!(router.get_next_hop(id), Some(NodeId([1; 32])));
    assert!(router.advance_hop(id));
    assert_eq!(router.get_next_hop(id), Some(NodeId([2; 32])));
    assert!(router.advance_hop(id));
    assert_eq!(router.get_next_hop(id), Some(NodeId([3; 32])));
    assert!(!router.advance_hop(id));
    assert_eq!(router.get_next_hop(id), None);
    assert!(!router.advance_hop(id));
}

#[test]
fn exit_node_is_the_last_hop() {
    let mut router = Router::new();
    let id = router.build_circuit(vec![NodeId([7; 32]), NodeId([9; 32])]);
    assert_eq!(router.get_exit_node(id), Some(NodeId([9; 32])));
    let empty = router.build_circuit(vec![]);
    assert_eq!(router.get_exit_node(empty), None);
}

#[test]
fn destroyed_circuits_are_gone() {
    let mut router = Router::new();
    let id = router.build_circuit(vec![NodeId([1; 32])]);
    assert!(router.get_circuit(id).is_some());
    router.destroy_circuit(id);
    assert!(router.get_circuit(id).is_none());
    assert!(!router.advance_hop(id));
    // destroying an unknown id changes nothing
    router.destroy_circuit(CircuitId(99));
}
