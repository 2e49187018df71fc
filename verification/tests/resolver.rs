use freedom_network::client::{FreedomClient, is_valid_ipv4};
use freedom_network::resolver::{FreedomResolver, FreedomSiteMetadata};

#[test]
fn test_domain_resolution() {
    let mut resolver = FreedomResolver::new(vec!["127.0.0.1:5000".to_string()]);
    let result = resolver.resolve("example");

    assert!(result.is_ok());
    let metadata = result.unwrap();
    assert_eq!(metadata.domain, "example.freedom");
    assert_eq!(metadata.port, 5000);
}

#[test]
fn test_cache() {
    let mut resolver = FreedomResolver::new(vec![]);
    let domain = "test".to_string();

    let metadata = FreedomSiteMetadata {
        domain: "test.freedom".to_string(),
        owner_node_id: vec![0x02; 32],
        ipv4: Some("192.168.1.1".to_string()),
        ipv6: None,
        port: 8000,
        protocol_version: 1,
    };
    resolver.add_mapping(domain, metadata);

    let cached = resolver.list_cached();
    assert_eq!(cached.len(), 1);
}

#[test]
fn resolution_normalizes_and_caches() {
    let mut resolver = FreedomResolver::new(vec![]);
    let a = resolver.resolve("news").unwrap();
    assert_eq!(a.domain, "news.freedom");
    let b = resolver.resolve("news.freedom").unwrap();
    assert_eq!(b.domain, "news.freedom");
    assert_eq!(resolver.list_cached(), vec!["news.freedom".to_string()]);

    resolver.clear_cache();
    assert!(resolver.list_cached().is_empty());
}

#[test]
fn injected_mapping_wins_over_default() {
    let mut resolver = FreedomResolver::new(vec![]);
    let metadata = FreedomSiteMetadata {
        domain: "pin.freedom".to_string(),
        owner_node_id: vec![0x07; 32],
        ipv4: Some("10.1.2.3".to_string()),
        ipv6: None,
        port: 4444,
        protocol_version: 2,
    };
    resolver.add_mapping("pin.freedom".to_string(), metadata);
    let got = resolver.resolve("pin").unwrap();
    assert_eq!(got.port, 4444);
    assert_eq!(got.ipv4.as_deref(), Some("10.1.2.3"));
}

#[test]
fn test_client_creation() {
    let resolver = FreedomResolver::new(vec![]);
    let _client = FreedomClient::new(resolver);
}

#[test]
fn client_fetch_builds_the_page() {
    let resolver = FreedomResolver::new(vec![]);
    let mut client = FreedomClient::new(resolver);
    let response = client.fetch("example", "/about").unwrap();
    assert_eq!(response.status, 200);
    assert_eq!(
        response.headers,
        vec![("Content-Type".to_string(), "text/html".to_string())]
    );
    let body = String::from_utf8(response.body).unwrap();
    assert_eq!(body, "<html><body><h1>Content from example</h1><p>Path: /about</p></body></html>");
}

#[test]
fn client_fetch_with_index_defaults_the_path() {
    let resolver = FreedomResolver::new(vec![]);
    let mut client = FreedomClient::new(resolver);
    let response = client.fetch_with_index("example", "/").unwrap();
    let body = String::from_utf8(response.body).unwrap();
    assert!(body.contains("Path: /index.html"));
}

#[test]
fn client_rejects_bad_site_addresses() {
    let mut resolver = FreedomResolver::new(vec![]);
    let metadata = FreedomSiteMetadata {
        domain: "bad.freedom".to_string(),
        owner_node_id: vec![0; 32],
        ipv4: Some("banana".to_string()),
        ipv6: None,
        port: 80,
        protocol_version: 1,
    };
    resolver.add_mapping("bad.freedom".to_string(), metadata);
    let mut client = FreedomClient::new(resolver);
    let err = client.fetch("bad", "/").unwrap_err();
    assert_eq!(err, "invalid socket address");
}

#[test]
fn ipv4_validation_accepts_dotted_quads_only() {
    assert!(is_valid_ipv4("127.0.0.1"));
    assert!(is_valid_ipv4("255.255.255.255"));
    assert!(is_valid_ipv4("0.0.0.0"));
    assert!(!is_valid_ipv4("256.0.0.1"));
    assert!(!is_valid_ipv4("1.2.3"));
    assert!(!is_valid_ipv4("1.2.3.4.5"));
    assert!(!is_valid_ipv4("01.2.3.4"));
    assert!(!is_valid_ipv4("a.b.c.d"));
    assert!(!is_valid_ipv4(""));
}
