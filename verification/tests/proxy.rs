use freedom_network::proxy::{
    ProxyError, ProxyMetrics, ProxyRequest, extract_http_target, normalize_connect_target,
    parse_proxy_request, rewrite_request_line,
};

#[test]
fn connect_tunnel_request() {
    let request = b"CONNECT example.com:443 HTTP/1.1\r\n\r\n";
    match parse_proxy_request(request).unwrap() {
        ProxyRequest::Connect { target } => {
            assert_eq!(target, b"example.com:443".to_vec());
        },
        other => panic!("expected a CONNECT tunnel, got {:?}", other),
    }
}

#[test]
fn connect_without_port_gets_443() {
    assert_eq!(normalize_connect_target(b"example.com"), b"example.com:443".to_vec());
    assert_eq!(normalize_connect_target(b"example.com:8443"), b"example.com:8443".to_vec());
}

#[test]
fn absolute_form_get_rewrite() {
    let request = b"GET http://example.com/foo?x=1 HTTP/1.1\r\nHost: example.com\r\n\r\n";
    let rewritten = rewrite_request_line(request).unwrap();
    assert_eq!(rewritten, b"GET /foo?x=1 HTTP/1.1\r\nHost: example.com\r\n\r\n".to_vec());

    match parse_proxy_request(request).unwrap() {
        ProxyRequest::Forward { target, rewritten } => {
            assert_eq!(target, b"example.com:80".to_vec());
            assert_eq!(rewritten, b"GET /foo?x=1 HTTP/1.1\r\nHost: example.com\r\n\r\n".to_vec());
        },
        other => panic!("expected a forward, got {:?}", other),
    }
}

#[test]
fn host_header_fallback() {
    let request = b"GET /bar HTTP/1.1\r\nHOST: host.example:8080\r\n\r\n";
    let target = extract_http_target(b"/bar", request).unwrap();
    assert_eq!(target, b"host.example:8080".to_vec());
    // the request line is left as it is
    let rewritten = rewrite_request_line(request).unwrap();
    assert_eq!(rewritten, request.to_vec());
}

#[test]
fn https_absolute_form_gets_443() {
    let request = b"GET https://example.com/ HTTP/1.1\r\n\r\n";
    let target = extract_http_target(b"https://example.com/", request).unwrap();
    assert_eq!(target, b"example.com:443".to_vec());
}

#[test]
fn parse_errors_name_their_cause() {
    let short = parse_proxy_request(b"GET\r\n\r\n").unwrap_err();
    assert_eq!(short, ProxyError::InvalidRequestLine);
    assert_eq!(short.message(), "Invalid HTTP request line");

    let no_host = extract_http_target(b"http:///path", b"").unwrap_err();
    assert_eq!(no_host, ProxyError::MissingHostInUrl);
    assert_eq!(no_host.message(), "Missing host in absolute URL");

    let empty = extract_http_target(b"/x", b"GET /x HTTP/1.1\r\nHost:   \r\n\r\n").unwrap_err();
    assert_eq!(empty, ProxyError::EmptyHostHeader);
    assert_eq!(empty.message(), "Host header is empty");

    let missing = extract_http_target(b"/x", b"GET /x HTTP/1.1\r\n\r\n").unwrap_err();
    assert_eq!(missing, ProxyError::MissingHostHeader);
    assert_eq!(missing.message(), "Missing Host header for HTTP request");
}

#[test]
fn active_connections_balance_out() {
    let mut m = ProxyMetrics::new();
    assert_eq!(m.active_connections, 0);
    m.connection_opened();
    assert_eq!(m.active_connections, 1);
    assert_eq!(m.total_connections, 1);
    m.connection_closed();
    assert_eq!(m.active_connections, 0);
    // the gauge saturates at zero instead of going negative
    m.connection_closed();
    assert_eq!(m.active_connections, 0);
}

#[test]
fn total_connections_never_decrease() {
    let mut m = ProxyMetrics::new();
    let mut last = 0;
    for _ in 0..5 {
        m.connection_opened();
        m.connection_closed();
        assert!(m.total_connections >= last);
        last = m.total_connections;
    }
    assert_eq!(m.total_connections, 5);
}

#[test]
fn byte_counters_add_exactly() {
    let mut m = ProxyMetrics::new();
    m.add_bytes_sent(39);
    m.add_bytes_sent(1000);
    m.add_bytes_received(17);
    m.add_bytes_received(3);
    assert_eq!(m.bytes_sent, 1039);
    assert_eq!(m.bytes_received, 20);
}
