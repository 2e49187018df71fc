use freedom_network::web::{
    DashboardRoute, api_config, api_stats, api_status, html_response, not_found,
    preflight_response, route_request,
};

#[test]
fn dashboard_routing_table() {
    assert_eq!(route_request(b"GET / HTTP/1.1\r\n\r\n"), DashboardRoute::Home);
    assert_eq!(route_request(b"GET /api/status HTTP/1.1\r\n\r\n"), DashboardRoute::ApiStatus);
    assert_eq!(route_request(b"GET /api/config HTTP/1.1\r\n\r\n"), DashboardRoute::ApiConfig);
    assert_eq!(route_request(b"GET /api/stats HTTP/1.1\r\n\r\n"), DashboardRoute::ApiStats);
    assert_eq!(route_request(b"OPTIONS /anything HTTP/1.1\r\n\r\n"), DashboardRoute::CorsPreflight);
    assert_eq!(route_request(b"POST /api/status HTTP/1.1\r\n\r\n"), DashboardRoute::NotFound);
    assert_eq!(route_request(b"GET /nope HTTP/1.1\r\n\r\n"), DashboardRoute::NotFound);
    assert_eq!(route_request(b"GET\r\n\r\n"), DashboardRoute::NoResponse);
    assert_eq!(route_request(b""), DashboardRoute::NoResponse);
}

#[test]
fn status_endpoint_shape() {
    let response = api_status(1234, 3, 7);
    assert!(response.starts_with("HTTP/1.1 200 OK\r\n"));
    assert!(response.contains("Access-Control-Allow-Origin: *"));
    assert!(response.contains("Access-Control-Allow-Methods: GET, OPTIONS"));
    assert!(response.contains("Access-Control-Allow-Headers: Content-Type"));
    assert!(response.contains("\"status\":\"running\""));
    assert!(response.contains("\"uptime_ms\":1234"));
    assert!(response.contains("\"connections_active\":3"));
    assert!(response.contains("\"connections_total\":7"));
    let body = response.split("\r\n\r\n").nth(1).unwrap();
    let length: usize = response
        .lines()
        .find(|l| l.starts_with("Content-Length: "))
        .unwrap()
        .trim_start_matches("Content-Length: ")
        .parse()
        .unwrap();
    assert_eq!(body.len(), length);
}

#[test]
fn stats_endpoint_shape() {
    let response = api_stats(100, 200, 7, 3);
    assert!(response.contains("\"bytes_sent\":100"));
    assert!(response.contains("\"bytes_received\":200"));
    assert!(response.contains("\"connections_total\":7"));
    assert!(response.contains("\"connections_active\":3"));
}

#[test]
fn config_endpoint_shape() {
    let response = api_config();
    assert!(response.contains("\"proxy_address\":\"127.0.0.1:8080\""));
    assert!(response.contains("\"quic_address\":\"127.0.0.1:5000\""));
    assert!(response.contains("\"dashboard_address\":\"127.0.0.1:9090\""));
    assert!(response.contains("\"dht_enabled\":true"));
    assert!(response.contains("\"onion_routing\":true"));
}

#[test]
fn preflight_and_not_found_responses() {
    let p = preflight_response();
    assert!(p.starts_with("HTTP/1.1 204 No Content\r\n"));
    assert!(p.contains("Access-Control-Allow-Origin: *"));
    let n = not_found();
    assert_eq!(n, "HTTP/1.1 404 Not Found\r\nContent-Length: 0\r\n\r\n");
}

#[test]
fn html_page_wrapping() {
    let page = "<html>hi</html>";
    let response = html_response(page, page.len() as u64);
    assert!(response.starts_with("HTTP/1.1 200 OK\r\nContent-Type: text/html; charset=utf-8\r\n"));
    assert!(response.ends_with("\r\n\r\n<html>hi</html>"));
    assert!(response.contains("Content-Length: 15"));
}
