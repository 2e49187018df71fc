//! Dashboard HTTP endpoint logic: routing on method and path, and the
//! exact bytes of the JSON and CORS responses. The listening socket and the
//! static HTML page live outside the library; the page is passed in where
//! needed.

use crate::proxy::{extract_first_line, first_line, get_three_tokens, three_tokens};
use crate::textutil::{dec_chars, u64_to_string};
use vstd::prelude::*;
use vstd::string::StrSliceExecFns;
use vstd::string::StringExecFns;

verus! {

/// Where a dashboard request is routed.
#[derive(Clone, Copy, Debug, PartialEq, Eq, Structural)]
pub enum DashboardRoute {
    /// GET / : the HTML page.
    Home,
    /// GET /api/status : status JSON.
    ApiStatus,
    /// GET /api/config : configuration JSON.
    ApiConfig,
    /// GET /api/stats : traffic JSON.
    ApiStats,
    /// OPTIONS, any path: a CORS preflight answer.
    CorsPreflight,
    /// Any other method or path: 404.
    NotFound,
    /// A request line too short to carry method and path: no response.
    NoResponse,
}

/// "GET"
pub open spec fn method_get() -> Seq<u8> {
    seq![71u8, 69u8, 84u8]
}

/// "OPTIONS"
pub open spec fn method_options() -> Seq<u8> {
    seq![79u8, 80u8, 84u8, 73u8, 79u8, 78u8, 83u8]
}

/// "/"
pub open spec fn path_root() -> Seq<u8> {
    seq![47u8]
}

/// "/api/status"
pub open spec fn path_api_status() -> Seq<u8> {
    seq![47u8, 97u8, 112u8, 105u8, 47u8, 115u8, 116u8, 97u8, 116u8, 117u8, 115u8]
}

/// "/api/config"
pub open spec fn path_api_config() -> Seq<u8> {
    seq![47u8, 97u8, 112u8, 105u8, 47u8, 99u8, 111u8, 110u8, 102u8, 105u8, 103u8]
}

/// "/api/stats"
pub open spec fn path_api_stats() -> Seq<u8> {
    seq![47u8, 97u8, 112u8, 105u8, 47u8, 115u8, 116u8, 97u8, 116u8, 115u8]
}

/// Routing on the method and path of the request's first line: GET serves
/// the page and the three JSON endpoints, OPTIONS is answered with CORS
/// headers, anything else is 404; a request line without two parts gets no
/// response at all.
pub open spec fn spec_route(request: Seq<u8>) -> DashboardRoute {
    let (m, p, v) = three_tokens(first_line(request));
    if p.len() == 0 {
        DashboardRoute::NoResponse
    } else if m == method_get() && p == path_root() {
        DashboardRoute::Home
    } else if m == method_get() && p == path_api_status() {
        DashboardRoute::ApiStatus
    } else if m == method_get() && p == path_api_config() {
        DashboardRoute::ApiConfig
    } else if m == method_get() && p == path_api_stats() {
        DashboardRoute::ApiStats
    } else if m == method_options() {
        DashboardRoute::CorsPreflight
    } else {
        DashboardRoute::NotFound
    }
}

/// Byte-wise slice equality.
fn bytes_eq(a: &[u8], b: &[u8]) -> (r: bool)
    ensures
        r == (a@ == b@),
{
    if a.len() != b.len() {
        return false;
    }
    let mut i: usize = 0;
    while i < a.len()
        invariant
            a@.len() == b@.len(),
            i <= a@.len(),
            forall|j: int| 0 <= j < i ==> a@[j] == b@[j],
        decreases a@.len() - i,
    {
        if a[i] != b[i] {
            return false;
        }
        i = i + 1;
    }
    proof {
        assert(a@ =~= b@);
    }
    true
}

/// "GET" as bytes.
fn lit_get() -> (r: Vec<u8>)
    ensures
        r@ == method_get(),
{
    let mut v: Vec<u8> = Vec::new();
    v.push(71);
    v.push(69);
    v.push(84);
    proof {
        assert(v@ =~= method_get());
    }
    v
}

/// "OPTIONS" as bytes.
fn lit_options() -> (r: Vec<u8>)
    ensures
        r@ == method_options(),
{
    let mut v: Vec<u8> = Vec::new();
    v.push(79);
    v.push(80);
    v.push(84);
    v.push(73);
    v.push(79);
    v.push(78);
    v.push(83);
    proof {
        assert(v@ =~= method_options());
    }
    v
}

/// "/" as bytes.
fn lit_path_root() -> (r: Vec<u8>)
    ensures
        r@ == path_root(),
{
    let mut v: Vec<u8> = Vec::new();
    v.push(47);
    proof {
        assert(v@ =~= path_root());
    }
    v
}

/// "/api/status" as bytes.
fn lit_path_api_status() -> (r: Vec<u8>)
    ensures
        r@ == path_api_status(),
{
    let mut v: Vec<u8> = Vec::new();
    v.push(47);
    v.push(97);
    v.push(112);
    v.push(105);
    v.push(47);
    v.push(115);
    v.push(116);
    v.push(97);
    v.push(116);
    v.push(117);
    v.push(115);
    proof {
        assert(v@ =~= path_api_status());
    }
    v
}

/// "/api/config" as bytes.
fn lit_path_api_config() -> (r: Vec<u8>)
    ensures
        r@ == path_api_config(),
{
    let mut v: Vec<u8> = Vec::new();
    v.push(47);
    v.push(97);
    v.push(112);
    v.push(105);
    v.push(47);
    v.push(99);
    v.push(111);
    v.push(110);
    v.push(102);
    v.push(105);
    v.push(103);
    proof {
        assert(v@ =~= path_api_config());
    }
    v
}

/// "/api/stats" as bytes.
fn lit_path_api_stats() -> (r: Vec<u8>)
    ensures
        r@ == path_api_stats(),
{
    let mut v: Vec<u8> = Vec::new();
    v.push(47);
    v.push(97);
    v.push(112);
    v.push(105);
    v.push(47);
    v.push(115);
    v.push(116);
    v.push(97);
    v.push(116);
    v.push(115);
    proof {
        assert(v@ =~= path_api_stats());
    }
    v
}

/// Route a raw dashboard request on its method and path.
pub fn route_request(request: &[u8]) -> (r: DashboardRoute)
    ensures
        r == spec_route(request@),
{
    let line = extract_first_line(request);
    let (m, p, _v) = get_three_tokens(line.as_slice());
    if p.len() == 0 {
        return DashboardRoute::NoResponse;
    }
    let get = lit_get();
    let is_get = bytes_eq(m.as_slice(), get.as_slice());
    if is_get && bytes_eq(p.as_slice(), lit_path_root().as_slice()) {
        DashboardRoute::Home
    } else if is_get && bytes_eq(p.as_slice(), lit_path_api_status().as_slice()) {
        DashboardRoute::ApiStatus
    } else if is_get && bytes_eq(p.as_slice(), lit_path_api_config().as_slice()) {
        DashboardRoute::ApiConfig
    } else if is_get && bytes_eq(p.as_slice(), lit_path_api_stats().as_slice()) {
        DashboardRoute::ApiStats
    } else if bytes_eq(m.as_slice(), lit_options().as_slice()) {
        DashboardRoute::CorsPreflight
    } else {
        DashboardRoute::NotFound
    }
}

/// A 200 JSON response with CORS headers; the content length counts the
/// characters of the body (the dashboard bodies are ASCII).
pub open spec fn spec_cors_json_response(json: Seq<char>) -> Seq<char> {
    "HTTP/1.1 200 OK\r\nContent-Type: application/json\r\nContent-Length: "@ + dec_chars(
        json.len(),
    )
        + "\r\nAccess-Control-Allow-Origin: *\r\nAccess-Control-Allow-Methods: GET, OPTIONS\r\nAccess-Control-Allow-Headers: Content-Type\r\n\r\n"@
        + json
}

/// Wrap a JSON body in a 200 response with CORS headers.
pub fn cors_json_response(json: &str) -> (r: String)
    ensures
        r@ == spec_cors_json_response(json@),
{
    let mut r = String::from_str(
        "HTTP/1.1 200 OK\r\nContent-Type: application/json\r\nContent-Length: ",
    );
    let n = u64_to_string(json.unicode_len() as u64);
    r.append(n.as_str());
    r.append(
        "\r\nAccess-Control-Allow-Origin: *\r\nAccess-Control-Allow-Methods: GET, OPTIONS\r\nAccess-Control-Allow-Headers: Content-Type\r\n\r\n",
    );
    r.append(json);
    r
}

/// The status JSON: always-"running" status, uptime and connection counts.
pub open spec fn spec_status_json(uptime_ms: u64, active: u64, total: u64) -> Seq<char> {
    "{\"status\":\"running\",\"uptime_ms\":"@ + dec_chars(uptime_ms as nat)
        + ",\"connections_active\":"@ + dec_chars(active as nat) + ",\"connections_total\":"@
        + dec_chars(total as nat) + "}"@
}

/// The /api/status response: status JSON wrapped with CORS headers.
pub fn api_status(uptime_ms: u64, active: u64, total: u64) -> (r: String)
    ensures
        r@ == spec_cors_json_response(spec_status_json(uptime_ms, active, total)),
{
    let mut json = String::from_str("{\"status\":\"running\",\"uptime_ms\":");
    let a = u64_to_string(uptime_ms);
    json.append(a.as_str());
    json.append(",\"connections_active\":");
    let b = u64_to_string(active);
    json.append(b.as_str());
    json.append(",\"connections_total\":");
    let c = u64_to_string(total);
    json.append(c.as_str());
    json.append("}");
    cors_json_response(json.as_str())
}

/// The fixed configuration JSON.
pub open spec fn spec_config_json() -> Seq<char> {
    "{\"proxy_enabled\":true,\"proxy_address\":\"127.0.0.1:8080\",\"quic_address\":\"127.0.0.1:5000\",\"dashboard_address\":\"127.0.0.1:9090\",\"dht_enabled\":true,\"onion_routing\":true}"@
}

/// The /api/config response: the static endpoint table and feature flags.
pub fn api_config() -> (r: String)
    ensures
        r@ == spec_cors_json_response(spec_config_json()),
{
    cors_json_response(
        "{\"proxy_enabled\":true,\"proxy_address\":\"127.0.0.1:8080\",\"quic_address\":\"127.0.0.1:5000\",\"dashboard_address\":\"127.0.0.1:9090\",\"dht_enabled\":true,\"onion_routing\":true}",
    )
}

/// The traffic JSON: byte counters and connection counts.
pub open spec fn spec_stats_json(sent: u64, received: u64, total: u64, active: u64) -> Seq<char> {
    "{\"bytes_sent\":"@ + dec_chars(sent as nat) + ",\"bytes_received\":"@ + dec_chars(
        received as nat,
    ) + ",\"connections_total\":"@ + dec_chars(total as nat) + ",\"connections_active\":"@
        + dec_chars(active as nat) + "}"@
}

/// The /api/stats response: traffic JSON wrapped with CORS headers.
pub fn api_stats(sent: u64, received: u64, total: u64, active: u64) -> (r: String)
    ensures
        r@ == spec_cors_json_response(spec_stats_json(sent, received, total, active)),
{
    let mut json = String::from_str("{\"bytes_sent\":");
    let a = u64_to_string(sent);
    json.append(a.as_str());
    json.append(",\"bytes_received\":");
    let b = u64_to_string(received);
    json.append(b.as_str());
    json.append(",\"connections_total\":");
    let c = u64_to_string(total);
    json.append(c.as_str());
    json.append(",\"connections_active\":");
    let d = u64_to_string(active);
    json.append(d.as_str());
    json.append("}");
    cors_json_response(json.as_str())
}

/// The CORS preflight response.
pub open spec fn spec_preflight_response() -> Seq<char> {
    "HTTP/1.1 204 No Content\r\nAccess-Control-Allow-Origin: *\r\nAccess-Control-Allow-Methods: GET, OPTIONS\r\nAccess-Control-Allow-Headers: Content-Type\r\nContent-Length: 0\r\n\r\n"@
}

/// The 204 answer to an OPTIONS preflight, with CORS headers.
pub fn preflight_response() -> (r: String)
    ensures
        r@ == spec_preflight_response(),
{
    String::from_str(
        "HTTP/1.1 204 No Content\r\nAccess-Control-Allow-Origin: *\r\nAccess-Control-Allow-Methods: GET, OPTIONS\r\nAccess-Control-Allow-Headers: Content-Type\r\nContent-Length: 0\r\n\r\n",
    )
}

/// The empty 404 response.
pub open spec fn spec_not_found() -> Seq<char> {
    "HTTP/1.1 404 Not Found\r\nContent-Length: 0\r\n\r\n"@
}

/// The 404 answer: empty body.
pub fn not_found() -> (r: String)
    ensures
        r@ == spec_not_found(),
{
    String::from_str("HTTP/1.1 404 Not Found\r\nContent-Length: 0\r\n\r\n")
}

/// A 200 HTML response around a page body; the caller passes the body's
/// byte length for the Content-Length header.
pub open spec fn spec_html_response(body: Seq<char>, content_length: u64) -> Seq<char> {
    "HTTP/1.1 200 OK\r\nContent-Type: text/html; charset=utf-8\r\nContent-Length: "@ + dec_chars(
        content_length as nat,
    ) + "\r\n\r\n"@ + body
}

/// Wrap an HTML page in a 200 response; `content_length` is the byte
/// length of the body as it will go on the wire.
pub fn html_response(body: &str, content_length: u64) -> (r: String)
    ensures
        r@ == spec_html_response(body@, content_length),
{
    let mut r = String::from_str(
        "HTTP/1.1 200 OK\r\nContent-Type: text/html; charset=utf-8\r\nContent-Length: ",
    );
    let n = u64_to_string(content_length);
    r.append(n.as_str());
    r.append("\r\n\r\n");
    r.append(body);
    r
}

} // verus!
