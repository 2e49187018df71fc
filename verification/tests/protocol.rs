use freedom_network::protocol::{DHT, FreedomAddress, NodeId, PeerInfo};

#[test]
fn test_domain_registration() {
    let mut dht = DHT::new();
    let node_id = NodeId([0u8; 32]);
    let pubkey = vec![1, 2, 3];

    let addr = FreedomAddress {
        domain: "example.freedom".to_string(),
        node_id: NodeId(node_id.0),
        ed25519_pubkey: pubkey,
    };

    assert!(dht.register_domain(addr.clone()));
    assert_eq!(dht.lookup_domain("example.freedom"), Some(addr));
}

#[test]
fn test_xor_distance() {
    let a = NodeId([0x01; 32]);
    let b = NodeId([0x02; 32]);
    let distance = DHT::xor_distance(&a, &b);
    assert!(distance.iter().any(|&byte| byte != 0));
}

#[test]
fn xor_distance_is_symmetric_and_zero_on_self() {
    let a = NodeId([0x5a; 32]);
    let mut b = NodeId([0x3c; 32]);
    b.0[7] = 0x99;
    assert_eq!(DHT::xor_distance(&a, &b), DHT::xor_distance(&b, &a));
    assert!(DHT::xor_distance(&a, &a).iter().all(|&byte| byte == 0));
}

#[test]
fn registration_is_idempotent_by_key() {
    let mut dht = DHT::new();
    let first = FreedomAddress {
        domain: "site.freedom".to_string(),
        node_id: NodeId([1u8; 32]),
        ed25519_pubkey: vec![1],
    };
    let second = FreedomAddress {
        domain: "site.freedom".to_string(),
        node_id: NodeId([2u8; 32]),
        ed25519_pubkey: vec![2],
    };
    dht.register_domain(first);
    dht.register_domain(second.clone());
    assert_eq!(dht.lookup_domain("site.freedom"), Some(second));
}

#[test]
fn closest_peers_ordering() {
    let mut dht = DHT::new();
    let local = NodeId([0x55; 32]);
    for byte in [0x00u8, 0xff, 0x01] {
        dht.add_peer(
            &local,
            PeerInfo { node_id: NodeId([byte; 32]), addr: format!("10.0.0.{}:5000", byte) },
        );
    }
    let closest = dht.find_closest_peers(&NodeId([0x00; 32]), 3);
    assert_eq!(closest.len(), 3);
    assert_eq!(closest[0].node_id, NodeId([0x00; 32]));
    assert_eq!(closest[1].node_id, NodeId([0x01; 32]));
    assert_eq!(closest[2].node_id, NodeId([0xff; 32]));

    let two = dht.find_closest_peers(&NodeId([0x00; 32]), 2);
    assert_eq!(two.len(), 2);
    assert_eq!(two[0].node_id, NodeId([0x00; 32]));
}

#[test]
fn bucket_eviction_keeps_twenty_peers() {
    let mut dht = DHT::new();
    let local = NodeId([0x00; 32]);
    // peers whose ids differ from the local id only in the last byte, with
    // that byte in 32..=56, all share the leading differing bit and so land
    // in one bucket
    for i in 32..=56u8 {
        let mut id = [0x00u8; 32];
        id[31] = i;
        dht.add_peer(&local, PeerInfo { node_id: NodeId(id), addr: format!("h:{}", i) });
    }
    let all = dht.find_closest_peers(&local, 100);
    assert_eq!(all.len(), 20);
    // the oldest five were evicted
    assert!(all.iter().all(|p| p.node_id.0[31] > 36));
}

#[test]
fn content_store_round_trip() {
    let mut dht = DHT::new();
    dht.store_content("blob.freedom".to_string(), vec![9, 8, 7]);
    assert_eq!(dht.get_content("blob.freedom"), Some(vec![9, 8, 7]));
    assert_eq!(dht.get_content("missing.freedom"), None);
    dht.store_content("blob.freedom".to_string(), vec![1]);
    assert_eq!(dht.get_content("blob.freedom"), Some(vec![1]));
}

#[test]
fn node_id_from_public_key_is_its_digest() {
    let id = freedom_network::protocol::generate_node_id(b"abc");
    let hex = freedom_network::hash_content(b"abc");
    let id_hex: String = id.0.iter().map(|b| format!("{:02x}", b)).collect();
    assert_eq!(id_hex, hex);
}
