use freedom_network::chat::ChatMessage;
use freedom_network::content::{decrypt_fdom, decrypt_fdom_checked, format_address, verify_signature};
use freedom_network::encrypt::{decrypt, decrypt_checked, encrypt};
use freedom_network::hash_content;
use freedom_network::identity::generate_identity;
use freedom_network::peers::PeerManager;

#[test]
fn content_hash_matches_the_known_digest() {
    // SHA3-256("abc"), hex-encoded
    assert_eq!(
        hash_content(b"abc"),
        "3a985da74fe225b2045c172d6bd390bd855f086e3e9d525b46bfe24511431532"
    );
    assert_eq!(
        hash_content(b""),
        "a7ffc6f8bf1ed76651c14756a061d662f580ff4de43b49fa82d80a4b80f8434a"
    );
}

#[test]
fn sealing_round_trips_and_rejects_garbage() {
    let key = [7u8; 32];
    let sealed = encrypt(b"at-rest blob", &key);
    assert_eq!(sealed.len(), b"at-rest blob".len() + 28);
    assert_eq!(decrypt(&sealed, &key), b"at-rest blob".to_vec());
    assert_eq!(decrypt_checked(&sealed, &key), Some(b"at-rest blob".to_vec()));

    let other_key = [8u8; 32];
    assert_eq!(decrypt_checked(&sealed, &other_key), None);
    assert_eq!(decrypt_checked(b"too short", &key), None);
}

#[test]
fn fetched_pages_decrypt_like_blobs() {
    let key = [1u8; 32];
    let sealed = encrypt(b"@page { }", &key);
    assert_eq!(decrypt_fdom_checked(&sealed, &key), Some(b"@page { }".to_vec()));
    assert_eq!(decrypt_fdom(&sealed, &key), b"@page { }".to_vec());
    assert_eq!(decrypt_fdom_checked(b"not a sealing", &key), None);
}

#[test]
fn identities_chain_their_digests() {
    let id = generate_identity();
    let expected_address = hash_content(&id.public_key);
    assert_eq!(id.address, expected_address);
    // the public key is the digest of the private key
    let pub_hex: String = id.public_key.iter().map(|b| format!("{:02x}", b)).collect();
    assert_eq!(pub_hex, hash_content(&id.private_key));
}

#[test]
fn signatures_are_accepted_unchecked() {
    assert!(verify_signature(b"content", b"sig", b"key"));
}

#[test]
fn addresses_format_with_the_scheme() {
    assert_eq!(format_address("deadbeef"), "freedom://deadbeef");
}

#[test]
fn chat_messages_format_as_log_lines() {
    let msg = ChatMessage::new("bob", "hi there");
    assert_eq!(msg.sender, "bob");
    assert_eq!(msg.content, "hi there");
    assert!(msg.timestamp > 1_600_000_000);
    let line = msg.format();
    assert!(line.starts_with("["));
    assert!(line.ends_with("] bob: hi there"));
    assert!(line.contains(&msg.timestamp.to_string()));
}

#[test]
fn peer_sets_hold_each_address_once() {
    let mut peers = PeerManager::new();
    peers.add_peer("10.0.0.1:5000".to_string());
    peers.add_peer("10.0.0.2:5000".to_string());
    peers.add_peer("10.0.0.1:5000".to_string());
    assert_eq!(
        peers.list_peers(),
        vec!["10.0.0.1:5000".to_string(), "10.0.0.2:5000".to_string()]
    );
    peers.remove_peer("10.0.0.1:5000");
    assert_eq!(peers.list_peers(), vec!["10.0.0.2:5000".to_string()]);
    peers.remove_peer("10.0.0.9:5000");
    assert_eq!(peers.list_peers().len(), 1);
}
