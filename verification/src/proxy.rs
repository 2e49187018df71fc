//! The HTTP/1.1 forward-proxy gateway logic: parsing the request line,
//! deriving the upstream target for CONNECT and absolute-form requests,
//! rewriting the request line to origin-form, and the traffic metrics.
//!
//! The functions here work on raw request bytes; the listening socket, the
//! upstream connection and the byte splicing live outside the library and
//! hand the bytes in.

use vstd::prelude::*;

verus! {

/// Saturating addition on the counter domain.
pub open spec fn sat_add(a: u64, b: u64) -> u64 {
    if a + b <= u64::MAX {
        (a + b) as u64
    } else {
        u64::MAX
    }
}

/// Saturating decrement: a gauge never goes below zero.
pub open spec fn sat_dec(a: u64) -> u64 {
    if a > 0 {
        (a - 1) as u64
    } else {
        0
    }
}

/// Traffic counters of the proxy: bytes in each direction and connection
/// counts. All four only ever grow, except `active_connections`, a gauge
/// that rises on accept and falls (never below zero) on session end.
#[derive(Clone, Copy, Debug)]
pub struct ProxyMetrics {
    pub bytes_sent: u64,
    pub bytes_received: u64,
    pub total_connections: u64,
    pub active_connections: u64,
}

impl ProxyMetrics {
    /// Fresh counters, all zero.
    pub fn new() -> (r: ProxyMetrics)
        ensures
            r.bytes_sent == 0,
            r.bytes_received == 0,
            r.total_connections == 0,
            r.active_connections == 0,
    {
        ProxyMetrics { bytes_sent: 0, bytes_received: 0, total_connections: 0, active_connections: 0 }
    }

    /// A session was accepted: the total count and the active gauge each
    /// rise by one (saturating); the total never decreases.
    pub fn connection_opened(&mut self)
        ensures
            final(self).total_connections == sat_add(old(self).total_connections, 1),
            final(self).active_connections == sat_add(old(self).active_connections, 1),
            final(self).bytes_sent == old(self).bytes_sent,
            final(self).bytes_received == old(self).bytes_received,
            final(self).total_connections >= old(self).total_connections,
    {
        self.total_connections = if self.total_connections < u64::MAX {
            self.total_connections + 1
        } else {
            u64::MAX
        };
        self.active_connections = if self.active_connections < u64::MAX {
            self.active_connections + 1
        } else {
            u64::MAX
        };
    }

    /// A session ended: the active gauge falls by one, saturating at zero;
    /// every other counter is untouched.
    pub fn connection_closed(&mut self)
        ensures
            final(self).active_connections == sat_dec(old(self).active_connections),
            final(self).bytes_sent == old(self).bytes_sent,
            final(self).bytes_received == old(self).bytes_received,
            final(self).total_connections == old(self).total_connections,
    {
        self.active_connections = if self.active_connections > 0 {
            self.active_connections - 1
        } else {
            0
        };
    }

    /// Bytes went out to the client or upstream: the sent counter grows by
    /// exactly `n` (saturating) and never decreases.
    pub fn add_bytes_sent(&mut self, n: u64)
        ensures
            final(self).bytes_sent == sat_add(old(self).bytes_sent, n),
            final(self).bytes_sent >= old(self).bytes_sent,
            final(self).bytes_received == old(self).bytes_received,
            final(self).total_connections == old(self).total_connections,
            final(self).active_connections == old(self).active_connections,
    {
        self.bytes_sent = if n <= u64::MAX - self.bytes_sent {
            self.bytes_sent + n
        } else {
            u64::MAX
        };
    }

    /// Bytes came in from the client or upstream: the received counter
    /// grows by exactly `n` (saturating) and never decreases.
    pub fn add_bytes_received(&mut self, n: u64)
        ensures
            final(self).bytes_received == sat_add(old(self).bytes_received, n),
            final(self).bytes_received >= old(self).bytes_received,
            final(self).bytes_sent == old(self).bytes_sent,
            final(self).total_connections == old(self).total_connections,
            final(self).active_connections == old(self).active_connections,
    {
        self.bytes_received = if n <= u64::MAX - self.bytes_received {
            self.bytes_received + n
        } else {
            u64::MAX
        };
    }
}

/// An accept followed by a session end leaves the active gauge exactly
/// where it started, whenever it was not already saturated.
pub proof fn lemma_accept_close_restores_active(a: u64)
    requires
        a < u64::MAX,
    ensures
        sat_dec(sat_add(a, 1)) == a,
{
}

/// Recording two transfer volumes in turn grows a byte counter by exactly
/// their sum, whenever the sum fits the counter.
pub proof fn lemma_bytes_accounting(c: u64, a: u64, b: u64)
    requires
        c + a + b <= u64::MAX,
    ensures
        sat_add(sat_add(c, a), b) == c + a + b,
{
}

/// ASCII whitespace, as the request line is split on it.
pub open spec fn is_ws(b: u8) -> bool {
    b == 32 || b == 9 || b == 10 || b == 11 || b == 12 || b == 13
}

/// ASCII lower-casing of one byte.
pub open spec fn lower_byte(b: u8) -> u8 {
    if 65 <= b <= 90 {
        (b + 32) as u8
    } else {
        b
    }
}

/// The first position at or after `from` holding `x`, or the length when
/// there is none.
pub open spec fn find_from(s: Seq<u8>, from: int, x: u8) -> int
    decreases s.len() - from,
{
    if from < 0 {
        0
    } else if from >= s.len() {
        s.len() as int
    } else if s[from] == x {
        from
    } else {
        find_from(s, from + 1, x)
    }
}

/// The first position of a CRLF pair at or after `from`, or the length.
pub open spec fn find_crlf(s: Seq<u8>, from: int) -> int
    decreases s.len() - from,
{
    if from < 0 {
        0
    } else if from + 1 >= s.len() {
        s.len() as int
    } else if s[from] == 13 && s[from + 1] == 10 {
        from
    } else {
        find_crlf(s, from + 1)
    }
}

/// The first line of a request: up to the first line feed, any trailing
/// carriage return stripped.
pub open spec fn first_line(s: Seq<u8>) -> Seq<u8> {
    let e = find_from(s, 0, 10);
    let line = s.take(e);
    if line.len() > 0 && line.last() == 13 {
        line.drop_last()
    } else {
        line
    }
}

/// Length of the maximal whitespace run at the front.
pub open spec fn ws_run(s: Seq<u8>) -> int
    decreases s.len(),
{
    if s.len() == 0 || !is_ws(s.first()) {
        0
    } else {
        1 + ws_run(s.drop_first())
    }
}

/// Length of the maximal non-whitespace run at the front.
pub open spec fn token_run(s: Seq<u8>) -> int
    decreases s.len(),
{
    if s.len() == 0 || is_ws(s.first()) {
        0
    } else {
        1 + token_run(s.drop_first())
    }
}

/// The first whitespace-separated token of `s` and what follows it.
pub open spec fn next_token(s: Seq<u8>) -> (Seq<u8>, Seq<u8>) {
    let rest = s.skip(ws_run(s));
    let t = token_run(rest);
    (rest.take(t), rest.skip(t))
}

/// The first three whitespace-separated tokens (empty where missing).
pub open spec fn three_tokens(s: Seq<u8>) -> (Seq<u8>, Seq<u8>, Seq<u8>) {
    let (t1, r1) = next_token(s);
    let (t2, r2) = next_token(r1);
    let (t3, _) = next_token(r2);
    (t1, t2, t3)
}

/// Whether `p` is a prefix of `s`.
pub open spec fn is_prefix(p: Seq<u8>, s: Seq<u8>) -> bool {
    p.len() <= s.len() && s.take(p.len() as int) == p
}

/// The bytes of `s` up to (not including) the first `x`.
pub open spec fn until_byte(s: Seq<u8>, x: u8) -> Seq<u8> {
    s.take(find_from(s, 0, x))
}

/// Whether `s` holds the byte `x` anywhere.
pub open spec fn has_byte(s: Seq<u8>, x: u8) -> bool {
    exists|i: int| 0 <= i < s.len() && s[i] == x
}

/// ASCII-whitespace test on one byte.
fn is_ws_byte(b: u8) -> (r: bool)
    ensures
        r == is_ws(b),
{
    b == 32 || b == 9 || b == 10 || b == 11 || b == 12 || b == 13
}

proof fn lemma_find_from_bounds(s: Seq<u8>, from: int, x: u8)
    requires
        0 <= from <= s.len(),
    ensures
        from <= find_from(s, from, x) <= s.len(),
        find_from(s, from, x) < s.len() ==> s[find_from(s, from, x)] == x,
        forall|j: int| from <= j < find_from(s, from, x) ==> s[j] != x,
    decreases s.len() - from,
{
    if from < s.len() && s[from] != x {
        lemma_find_from_bounds(s, from + 1, x);
    }
}

proof fn lemma_find_crlf_bounds(s: Seq<u8>, from: int)
    requires
        0 <= from <= s.len(),
    ensures
        from <= find_crlf(s, from) <= s.len(),
        find_crlf(s, from) + 1 < s.len() ==> s[find_crlf(s, from)] == 13 && s[find_crlf(s, from)
            + 1] == 10,
    decreases s.len() - from,
{
    if from + 1 < s.len() && !(s[from] == 13 && s[from + 1] == 10) {
        lemma_find_crlf_bounds(s, from + 1);
    }
}

/// The first position at or after `from` holding `x`, or the length.
fn find_byte(s: &[u8], from: usize, x: u8) -> (r: usize)
    requires
        from <= s@.len(),
    ensures
        r == find_from(s@, from as int, x),
        from <= r <= s@.len(),
{
    proof {
        lemma_find_from_bounds(s@, from as int, x);
    }
    let mut cur: usize = from;
    while cur < s.len()
        invariant
            from <= cur <= s@.len(),
            find_from(s@, from as int, x) == find_from(s@, cur as int, x),
        decreases s@.len() - cur,
    {
        if s[cur] == x {
            return cur;
        }
        cur = cur + 1;
    }
    cur
}

/// The first position of a CRLF pair at or after `from`, or the length.
fn find_crlf_at(s: &[u8], from: usize) -> (r: usize)
    requires
        from <= s@.len(),
    ensures
        r == find_crlf(s@, from as int),
        from <= r <= s@.len(),
{
    proof {
        lemma_find_crlf_bounds(s@, from as int);
    }
    let mut cur: usize = from;
    while cur < s.len()
        invariant
            from <= cur,
            cur <= s@.len(),
            find_crlf(s@, from as int) == find_crlf(s@, cur as int),
        decreases s@.len() - cur,
    {
        if cur + 1 >= s.len() {
            return s.len();
        }
        if s[cur] == 13 && s[cur + 1] == 10 {
            return cur;
        }
        cur = cur + 1;
    }
    s.len()
}

/// End of the whitespace run starting at `from`.
fn ws_end(s: &[u8], from: usize) -> (r: usize)
    requires
        from <= s@.len(),
    ensures
        from <= r <= s@.len(),
        r - from == ws_run(s@.skip(from as int)),
    decreases s@.len() - from,
{
    let mut cur: usize = from;
    while cur < s.len() && is_ws_byte(s[cur])
        invariant
            from <= cur <= s@.len(),
            ws_run(s@.skip(from as int)) == (cur - from) + ws_run(s@.skip(cur as int)),
        decreases s@.len() - cur,
    {
        proof {
            assert(s@.skip(cur as int).first() == s@[cur as int]);
            assert(s@.skip(cur as int).drop_first() =~= s@.skip(cur + 1));
        }
        cur = cur + 1;
    }
    proof {
        if cur < s@.len() {
            assert(s@.skip(cur as int).first() == s@[cur as int]);
        }
        assert(ws_run(s@.skip(cur as int)) == 0);
    }
    cur
}

/// End of the non-whitespace token starting at `from`.
fn tok_end(s: &[u8], from: usize) -> (r: usize)
    requires
        from <= s@.len(),
    ensures
        from <= r <= s@.len(),
        r - from == token_run(s@.skip(from as int)),
    decreases s@.len() - from,
{
    let mut cur: usize = from;
    while cur < s.len() && !is_ws_byte(s[cur])
        invariant
            from <= cur <= s@.len(),
            token_run(s@.skip(from as int)) == (cur - from) + token_run(s@.skip(cur as int)),
        decreases s@.len() - cur,
    {
        proof {
            assert(s@.skip(cur as int).first() == s@[cur as int]);
            assert(s@.skip(cur as int).drop_first() =~= s@.skip(cur + 1));
        }
        cur = cur + 1;
    }
    proof {
        if cur < s@.len() {
            assert(s@.skip(cur as int).first() == s@[cur as int]);
        }
        assert(token_run(s@.skip(cur as int)) == 0);
    }
    cur
}

/// Copy of a byte range.
fn copy_range(s: &[u8], from: usize, to: usize) -> (r: Vec<u8>)
    requires
        from <= to <= s@.len(),
    ensures
        r@ == s@.subrange(from as int, to as int),
{
    let mut out: Vec<u8> = Vec::new();
    let mut i: usize = from;
    while i < to
        invariant
            from <= i <= to <= s@.len(),
            out@ =~= s@.subrange(from as int, i as int),
        decreases to - i,
    {
        out.push(s[i]);
        proof {
            assert(out@ =~= s@.subrange(from as int, i + 1));
        }
        i = i + 1;
    }
    out
}

/// The first line of the request, its trailing carriage return stripped.
pub(crate) fn extract_first_line(s: &[u8]) -> (r: Vec<u8>)
    ensures
        r@ == first_line(s@),
{
    let e = find_byte(s, 0, 10);
    let end = if e > 0 && s[e - 1] == 13 {
        e - 1
    } else {
        e
    };
    let r = copy_range(s, 0, end);
    proof {
        let line = s@.take(find_from(s@, 0, 10));
        if line.len() > 0 && line.last() == 13 {
            assert(r@ =~= line.drop_last());
        } else {
            assert(r@ =~= line);
        }
    }
    r
}

/// Why a proxy request was refused.
#[derive(Clone, Copy, Debug, PartialEq, Eq, Structural)]
pub enum ProxyError {
    /// The request line does not hold method, target and version.
    InvalidRequestLine,
    /// An absolute-form target has nothing between the scheme and the path.
    MissingHostInUrl,
    /// A Host header is present but empty.
    EmptyHostHeader,
    /// An origin-form request carries no Host header.
    MissingHostHeader,
    /// The request line to rewrite does not hold three parts.
    InvalidRewriteLine,
}

impl ProxyError {
    /// The error as the proxy logs it.
    pub fn message(&self) -> (r: &'static str)
        ensures
            (*self == ProxyError::InvalidRequestLine ==> r@ == "Invalid HTTP request line"@),
            (*self == ProxyError::MissingHostInUrl ==> r@ == "Missing host in absolute URL"@),
            (*self == ProxyError::EmptyHostHeader ==> r@ == "Host header is empty"@),
            (*self == ProxyError::MissingHostHeader ==> r@
                == "Missing Host header for HTTP request"@),
            (*self == ProxyError::InvalidRewriteLine ==> r@ == "Invalid request line"@),
    {
        match self {
            ProxyError::InvalidRequestLine => "Invalid HTTP request line",
            ProxyError::MissingHostInUrl => "Missing host in absolute URL",
            ProxyError::EmptyHostHeader => "Host header is empty",
            ProxyError::MissingHostHeader => "Missing Host header for HTTP request",
            ProxyError::InvalidRewriteLine => "Invalid request line",
        }
    }
}

/// A parsed proxy request: a CONNECT tunnel to a target, or a plain request
/// to forward with its request line rewritten to origin-form.
#[derive(Debug)]
pub enum ProxyRequest {
    Connect { target: Vec<u8> },
    Forward { target: Vec<u8>, rewritten: Vec<u8> },
}

/// "http://"
pub open spec fn http_prefix() -> Seq<u8> {
    seq![104u8, 116u8, 116u8, 112u8, 58u8, 47u8, 47u8]
}

/// "https://"
pub open spec fn https_prefix() -> Seq<u8> {
    seq![104u8, 116u8, 116u8, 112u8, 115u8, 58u8, 47u8, 47u8]
}

/// "host:"
pub open spec fn host_key() -> Seq<u8> {
    seq![104u8, 111u8, 115u8, 116u8, 58u8]
}

/// "connect", the CONNECT method lower-cased.
pub open spec fn connect_word() -> Seq<u8> {
    seq![99u8, 111u8, 110u8, 110u8, 101u8, 99u8, 116u8]
}

/// ":80"
pub open spec fn port80() -> Seq<u8> {
    seq![58u8, 56u8, 48u8]
}

/// ":443"
pub open spec fn port443() -> Seq<u8> {
    seq![58u8, 52u8, 52u8, 51u8]
}

/// Length of the maximal whitespace run at the back.
pub open spec fn ws_run_back(s: Seq<u8>) -> int
    decreases s.len(),
{
    if s.len() == 0 || !is_ws(s.last()) {
        0
    } else {
        1 + ws_run_back(s.drop_last())
    }
}

/// The string with leading and trailing ASCII whitespace removed.
pub open spec fn trim_ws(s: Seq<u8>) -> Seq<u8> {
    let a = s.skip(ws_run(s));
    a.take(a.len() - ws_run_back(a))
}

/// Whether a header line is a Host header: its first five bytes lower-case
/// to "host:".
pub open spec fn line_is_host(line: Seq<u8>) -> bool {
    line.len() >= 5 && Seq::new(5, |i: int| lower_byte(line[i])) == host_key()
}

/// The value of the first Host header at or after `cur`: each line is taken
/// up to a line feed, its trailing carriage return stripped, and matched
/// case-insensitively; the value is trimmed.
pub open spec fn host_from_headers_at(s: Seq<u8>, cur: int) -> Option<Seq<u8>>
    decreases s.len() - cur,
{
    if cur < 0 || cur >= s.len() {
        None
    } else {
        let e = find_from(s, cur, 10);
        let line0 = s.subrange(cur, e);
        let line = if line0.len() > 0 && line0.last() == 13 {
            line0.drop_last()
        } else {
            line0
        };
        if line_is_host(line) {
            Some(trim_ws(line.skip(5)))
        } else if e < cur || e >= s.len() {
            None
        } else {
            host_from_headers_at(s, e + 1)
        }
    }
}

/// The normalized CONNECT target: "host:port", with ":443" appended when no
/// port is given.
pub open spec fn spec_connect_target(path: Seq<u8>) -> Seq<u8> {
    if has_byte(path, 58) {
        path
    } else {
        path + port443()
    }
}

/// The upstream "host:port" for a non-CONNECT request: from an absolute
/// http:// or https:// target (default ports 80 and 443), else from the
/// Host header (default port 80).
pub open spec fn spec_extract_http_target(path: Seq<u8>, request: Seq<u8>) -> Result<
    Seq<u8>,
    ProxyError,
> {
    if is_prefix(http_prefix(), path) {
        let host = path.subrange(7, find_from(path, 7, 47));
        if host.len() == 0 {
            Err(ProxyError::MissingHostInUrl)
        } else if has_byte(host, 58) {
            Ok(host)
        } else {
            Ok(host + port80())
        }
    } else if is_prefix(https_prefix(), path) {
        let host = path.subrange(8, find_from(path, 8, 47));
        if host.len() == 0 {
            Err(ProxyError::MissingHostInUrl)
        } else if has_byte(host, 58) {
            Ok(host)
        } else {
            Ok(host + port443())
        }
    } else {
        match host_from_headers_at(request, 0) {
            Some(h) => {
                if h.len() == 0 {
                    Err(ProxyError::EmptyHostHeader)
                } else if has_byte(h, 58) {
                    Ok(h)
                } else {
                    Ok(h + port80())
                }
            },
            None => Err(ProxyError::MissingHostHeader),
        }
    }
}

/// The request with its first line rewritten to origin-form: the first
/// three whitespace-separated parts of the line before the first CRLF
/// become "method path version", an absolute-form path reduced to the part
/// after the host (or "/"); the rest of the request follows unchanged.
pub open spec fn spec_rewrite_request_line(request: Seq<u8>) -> Result<Seq<u8>, ProxyError> {
    let e = find_crlf(request, 0);
    let head = request.subrange(0, e);
    let remainder = if e + 2 <= request.len() {
        request.subrange(e + 2, request.len() as int)
    } else {
        Seq::<u8>::empty()
    };
    let (m, p, v) = three_tokens(head);
    if v.len() == 0 {
        Err(ProxyError::InvalidRewriteLine)
    } else {
        let new_path = spec_origin_form(p);
        Ok(m + seq![32u8] + new_path + seq![32u8] + v + seq![13u8, 10u8] + remainder)
    }
}

/// The origin-form of a request target: for an absolute http:// or
/// https:// target, "/" followed by whatever comes after the host;
/// any other target is kept as it is.
pub open spec fn spec_origin_form(p: Seq<u8>) -> Seq<u8> {
    if is_prefix(http_prefix(), p) {
        let fp = find_from(p, 7, 47);
        if fp >= p.len() {
            seq![47u8]
        } else {
            seq![47u8] + p.subrange(fp + 1, p.len() as int)
        }
    } else if is_prefix(https_prefix(), p) {
        let fp = find_from(p, 8, 47);
        if fp >= p.len() {
            seq![47u8]
        } else {
            seq![47u8] + p.subrange(fp + 1, p.len() as int)
        }
    } else {
        p
    }
}

/// The first three whitespace-separated tokens of a line (empty where the
/// line has fewer).
pub(crate) fn get_three_tokens(line: &[u8]) -> (r: (Vec<u8>, Vec<u8>, Vec<u8>))
    ensures
        r.0@ == three_tokens(line@).0,
        r.1@ == three_tokens(line@).1,
        r.2@ == three_tokens(line@).2,
{
    let a1 = ws_end(line, 0);
    let b1 = tok_end(line, a1);
    let t1 = copy_range(line, a1, b1);
    let a2 = ws_end(line, b1);
    let b2 = tok_end(line, a2);
    let t2 = copy_range(line, a2, b2);
    let a3 = ws_end(line, b2);
    let b3 = tok_end(line, a3);
    let t3 = copy_range(line, a3, b3);
    proof {
        let s = line@;
        assert(s.skip(0) =~= s);
        let rest1 = s.skip(ws_run(s));
        assert(rest1 =~= s.skip(a1 as int));
        let tr1 = token_run(rest1);
        assert(tr1 == b1 - a1);
        assert(t1@ =~= rest1.take(tr1));
        let r1 = rest1.skip(tr1);
        assert(r1 =~= s.skip(b1 as int));
        let rest2 = r1.skip(ws_run(r1));
        assert(ws_run(r1) == a2 - b1);
        assert(rest2 =~= s.skip(a2 as int));
        let tr2 = token_run(rest2);
        assert(tr2 == b2 - a2);
        assert(t2@ =~= rest2.take(tr2));
        let r2 = rest2.skip(tr2);
        assert(r2 =~= s.skip(b2 as int));
        let rest3 = r2.skip(ws_run(r2));
        assert(ws_run(r2) == a3 - b2);
        assert(rest3 =~= s.skip(a3 as int));
        let tr3 = token_run(rest3);
        assert(tr3 == b3 - a3);
        assert(t3@ =~= rest3.take(tr3));
    }
    (t1, t2, t3)
}

/// Whether the slice starts with "http://".
fn starts_with_http(s: &[u8]) -> (r: bool)
    ensures
        r == is_prefix(http_prefix(), s@),
{
    let r = s.len() >= 7 && s[0] == 104 && s[1] == 116 && s[2] == 116 && s[3] == 112 && s[4] == 58
        && s[5] == 47 && s[6] == 47;
    proof {
        if r {
            assert(s@.take(7) =~= http_prefix());
        } else if s@.len() >= 7 {
            if s@.take(7) == http_prefix() {
                assert(s@[0] == 104 && s@[1] == 116 && s@[2] == 116 && s@[3] == 112 && s@[4] == 58
                    && s@[5] == 47 && s@[6] == 47) by {
                    assert(forall|i: int| 0 <= i < 7 ==> s@.take(7)[i] == s@[i]);
                }
            }
        }
    }
    r
}

/// Whether the slice starts with "https://".
fn starts_with_https(s: &[u8]) -> (r: bool)
    ensures
        r == is_prefix(https_prefix(), s@),
{
    let r = s.len() >= 8 && s[0] == 104 && s[1] == 116 && s[2] == 116 && s[3] == 112 && s[4] == 115
        && s[5] == 58 && s[6] == 47 && s[7] == 47;
    proof {
        if r {
            assert(s@.take(8) =~= https_prefix());
        } else if s@.len() >= 8 {
            if s@.take(8) == https_prefix() {
                assert(s@[0] == 104 && s@[1] == 116 && s@[2] == 116 && s@[3] == 112 && s@[4] == 115
                    && s@[5] == 58 && s@[6] == 47 && s@[7] == 47) by {
                    assert(forall|i: int| 0 <= i < 8 ==> s@.take(8)[i] == s@[i]);
                }
            }
        }
    }
    r
}

/// ASCII lower-casing of one byte.
fn lower_byte_exec(b: u8) -> (r: u8)
    ensures
        r == lower_byte(b),
{
    if 65 <= b && b <= 90 {
        b + 32
    } else {
        b
    }
}

/// Whether the slice holds a byte anywhere.
fn contains_byte(s: &[u8], x: u8) -> (r: bool)
    ensures
        r == has_byte(s@, x),
{
    let mut i: usize = 0;
    while i < s.len()
        invariant
            i <= s@.len(),
            forall|j: int| 0 <= j < i ==> s@[j] != x,
        decreases s@.len() - i,
    {
        if s[i] == x {
            return true;
        }
        i = i + 1;
    }
    false
}

/// Normalize a CONNECT target: append ":443" when no port is present.
pub fn normalize_connect_target(path: &[u8]) -> (r: Vec<u8>)
    ensures
        r@ == spec_connect_target(path@),
{
    let mut out = vstd::slice::slice_to_vec(path);
    if !contains_byte(path, 58) {
        out.push(58);
        out.push(52);
        out.push(52);
        out.push(51);
        proof {
            assert(out@ =~= path@ + port443());
        }
    }
    out
}

/// Whether a header line is a Host header.
fn is_host_line(line: &[u8]) -> (r: bool)
    ensures
        r == line_is_host(line@),
{
    if line.len() < 5 {
        return false;
    }
    let r = lower_byte_exec(line[0]) == 104 && lower_byte_exec(line[1]) == 111 && lower_byte_exec(
        line[2],
    ) == 115 && lower_byte_exec(line[3]) == 116 && lower_byte_exec(line[4]) == 58;
    proof {
        let m = Seq::new(5, |i: int| lower_byte(line@[i]));
        if r {
            assert(m =~= host_key());
        } else {
            if m == host_key() {
                assert(forall|i: int| 0 <= i < 5 ==> m[i] == host_key()[i]);
                assert(lower_byte(line@[0]) == 104 && lower_byte(line@[1]) == 111 && lower_byte(
                    line@[2],
                ) == 115 && lower_byte(line@[3]) == 116 && lower_byte(line@[4]) == 58);
            }
        }
    }
    r
}

/// End of the trailing-whitespace trim: the position `hi` backs down to.
fn trim_tail(s: &[u8], lo: usize, hi: usize) -> (r: usize)
    requires
        lo <= hi <= s@.len(),
    ensures
        lo <= r <= hi,
        hi - r == ws_run_back(s@.subrange(lo as int, hi as int)),
    decreases hi - lo,
{
    let ghost a = s@.subrange(lo as int, hi as int);
    let mut cur: usize = hi;
    while cur > lo && is_ws_byte(s[cur - 1])
        invariant
            lo <= cur <= hi,
            hi <= s@.len(),
            ws_run_back(a) == (hi - cur) + ws_run_back(s@.subrange(lo as int, cur as int)),
        decreases cur,
    {
        proof {
            let b = s@.subrange(lo as int, cur as int);
            assert(b.last() == s@[cur - 1]);
            assert(b.drop_last() =~= s@.subrange(lo as int, cur - 1));
        }
        cur = cur - 1;
    }
    proof {
        let b = s@.subrange(lo as int, cur as int);
        if cur > lo {
            assert(b.last() == s@[cur - 1]);
        }
        assert(ws_run_back(b) == 0);
    }
    cur
}

/// The value of the first Host header in the request, if any.
fn scan_host_header(request: &[u8]) -> (r: Option<Vec<u8>>)
    ensures
        match r {
            Some(v) => host_from_headers_at(request@, 0) == Some(v@),
            None => host_from_headers_at(request@, 0) is None,
        },
{
    let mut cur: usize = 0;
    while cur < request.len()
        invariant
            cur <= request@.len(),
            host_from_headers_at(request@, 0) == host_from_headers_at(request@, cur as int),
        decreases request@.len() - cur,
    {
        let e = find_byte(request, cur, 10);
        let line_end = if e > cur && request[e - 1] == 13 {
            e - 1
        } else {
            e
        };
        let line = copy_range(request, cur, line_end);
        proof {
            let line0 = request@.subrange(cur as int, e as int);
            if line0.len() > 0 && line0.last() == 13 {
                assert(line@ =~= line0.drop_last());
            } else {
                assert(line@ =~= line0);
            }
        }
        if is_host_line(line.as_slice()) {
            let lo = ws_end(line.as_slice(), 5);
            let hi = trim_tail(line.as_slice(), lo, line.len());
            let value = copy_range(line.as_slice(), lo, hi);
            proof {
                let sfx = line@.skip(5);
                assert(sfx.skip(ws_run(sfx)) =~= line@.skip(lo as int));
                let a = line@.skip(lo as int);
                assert(a =~= line@.subrange(lo as int, line@.len() as int));
                assert(ws_run_back(a) == ws_run_back(line@.subrange(lo as int, line@.len() as int)));
                assert(value@ =~= a.take(a.len() - ws_run_back(a)));
                assert(value@ == trim_ws(sfx));
            }
            return Some(value);
        }
        if e >= request.len() {
            return None;
        }
        cur = e + 1;
    }
    None
}

/// Append ":80" to a host.
fn with_port80(host: Vec<u8>) -> (r: Vec<u8>)
    ensures
        r@ == host@ + port80(),
{
    let mut out = host;
    let ghost h0 = out@;
    out.push(58);
    out.push(56);
    out.push(48);
    proof {
        assert(out@ =~= h0 + port80());
    }
    out
}

/// Append ":443" to a host.
fn with_port443(host: Vec<u8>) -> (r: Vec<u8>)
    ensures
        r@ == host@ + port443(),
{
    let mut out = host;
    let ghost h0 = out@;
    out.push(58);
    out.push(52);
    out.push(52);
    out.push(51);
    proof {
        assert(out@ =~= h0 + port443());
    }
    out
}

/// Derive the upstream "host:port" for a non-CONNECT request: from an
/// absolute http:// or https:// target (default ports 80 and 443), or else
/// from the request's Host header (default port 80). Errors exactly when
/// the absolute target has an empty host, the Host header is empty, or no
/// host can be determined at all.
pub fn extract_http_target(path: &[u8], request: &[u8]) -> (r: Result<Vec<u8>, ProxyError>)
    ensures
        match r {
            Ok(t) => spec_extract_http_target(path@, request@) == Ok::<Seq<u8>, ProxyError>(t@),
            Err(e) => spec_extract_http_target(path@, request@) == Err::<Seq<u8>, ProxyError>(e),
        },
{
    if starts_with_http(path) {
        let e = find_byte(path, 7, 47);
        let host = copy_range(path, 7, e);
        if host.len() == 0 {
            return Err(ProxyError::MissingHostInUrl);
        }
        if contains_byte(host.as_slice(), 58) {
            return Ok(host);
        }
        return Ok(with_port80(host));
    }
    if starts_with_https(path) {
        let e = find_byte(path, 8, 47);
        let host = copy_range(path, 8, e);
        if host.len() == 0 {
            return Err(ProxyError::MissingHostInUrl);
        }
        if contains_byte(host.as_slice(), 58) {
            return Ok(host);
        }
        return Ok(with_port443(host));
    }
    match scan_host_header(request) {
        Some(h) => {
            if h.len() == 0 {
                Err(ProxyError::EmptyHostHeader)
            } else if contains_byte(h.as_slice(), 58) {
                Ok(h)
            } else {
                Ok(with_port80(h))
            }
        },
        None => Err(ProxyError::MissingHostHeader),
    }
}

/// Rewrite an absolute-form request line to origin-form: the first three
/// parts of the line before the first CRLF become "method path version",
/// the path reduced to what follows the host (or "/"); headers and body
/// follow unchanged. Errors exactly when the line has fewer than three
/// parts.
pub fn rewrite_request_line(request: &[u8]) -> (r: Result<Vec<u8>, ProxyError>)
    ensures
        match r {
            Ok(w) => spec_rewrite_request_line(request@) == Ok::<Seq<u8>, ProxyError>(w@),
            Err(e) => spec_rewrite_request_line(request@) == Err::<Seq<u8>, ProxyError>(e),
        },
{
    let e = find_crlf_at(request, 0);
    let head = copy_range(request, 0, e);
    let remainder_start = if request.len() >= 2 && e <= request.len() - 2 {
        e + 2
    } else {
        request.len()
    };
    let remainder = copy_range(request, remainder_start, request.len());
    proof {
        if e + 2 <= request@.len() {
            assert(remainder@ =~= request@.subrange(e + 2, request@.len() as int));
        } else {
            assert(remainder@ =~= Seq::<u8>::empty());
        }
    }
    let (m, p, v) = get_three_tokens(head.as_slice());
    if v.len() == 0 {
        return Err(ProxyError::InvalidRewriteLine);
    }
    let new_path = origin_form(p.as_slice());
    let mut out: Vec<u8> = Vec::new();
    let ghost mm = m@;
    let ghost vv = v@;
    let ghost np = new_path@;
    let ghost rem = remainder@;
    let mut m2 = m;
    out.append(&mut m2);
    out.push(32);
    let mut np2 = new_path;
    out.append(&mut np2);
    out.push(32);
    let mut v2 = v;
    out.append(&mut v2);
    out.push(13);
    out.push(10);
    let mut r2 = remainder;
    out.append(&mut r2);
    proof {
        assert(out@ =~= mm + seq![32u8] + np + seq![32u8] + vv + seq![13u8, 10u8] + rem);
    }
    Ok(out)
}

/// The origin-form of a request target.
fn origin_form(p: &[u8]) -> (r: Vec<u8>)
    ensures
        r@ == spec_origin_form(p@),
{
    if starts_with_http(p) {
        let fp = find_byte(p, 7, 47);
        let mut out: Vec<u8> = Vec::new();
        out.push(47);
        if fp < p.len() {
            let mut tail = copy_range(p, fp + 1, p.len());
            out.append(&mut tail);
            proof {
                assert(out@ =~= seq![47u8] + p@.subrange(fp + 1, p@.len() as int));
            }
        } else {
            proof {
                assert(out@ =~= seq![47u8]);
            }
        }
        out
    } else if starts_with_https(p) {
        let fp = find_byte(p, 8, 47);
        let mut out: Vec<u8> = Vec::new();
        out.push(47);
        if fp < p.len() {
            let mut tail = copy_range(p, fp + 1, p.len());
            out.append(&mut tail);
            proof {
                assert(out@ =~= seq![47u8] + p@.subrange(fp + 1, p@.len() as int));
            }
        } else {
            proof {
                assert(out@ =~= seq![47u8]);
            }
        }
        out
    } else {
        vstd::slice::slice_to_vec(p)
    }
}

/// Whether a method is CONNECT, compared ASCII-case-insensitively.
fn is_connect_method(m: &[u8]) -> (r: bool)
    ensures
        r == (Seq::new(m@.len(), |i: int| lower_byte(m@[i])) == connect_word()),
{
    if m.len() != 7 {
        proof {
            assert(Seq::new(m@.len(), |i: int| lower_byte(m@[i])).len() == m@.len());
        }
        return false;
    }
    let r = lower_byte_exec(m[0]) == 99 && lower_byte_exec(m[1]) == 111 && lower_byte_exec(m[2])
        == 110 && lower_byte_exec(m[3]) == 110 && lower_byte_exec(m[4]) == 101 && lower_byte_exec(
        m[5],
    ) == 99 && lower_byte_exec(m[6]) == 116;
    proof {
        let lm = Seq::new(m@.len(), |i: int| lower_byte(m@[i]));
        if r {
            assert(lm =~= connect_word());
        } else {
            if lm == connect_word() {
                assert(forall|i: int| 0 <= i < 7 ==> lm[i] == connect_word()[i]);
                assert(lower_byte(m@[0]) == 99 && lower_byte(m@[1]) == 111 && lower_byte(m@[2])
                    == 110 && lower_byte(m@[3]) == 110 && lower_byte(m@[4]) == 101 && lower_byte(
                    m@[5],
                ) == 99 && lower_byte(m@[6]) == 116);
            }
        }
    }
    r
}

/// Parse the first request read from a proxy client and decide the
/// session: a CONNECT tunnel with its normalized target, or a plain
/// request with its upstream target and rewritten request line. Fails
/// exactly when the request line has fewer than three parts or no upstream
/// host can be determined.
pub fn parse_proxy_request(buffer: &[u8]) -> (r: Result<ProxyRequest, ProxyError>)
    ensures
        ({
            let (m, p, v) = three_tokens(first_line(buffer@));
            &&& (v.len() == 0 ==> r == Err::<ProxyRequest, ProxyError>(
                ProxyError::InvalidRequestLine,
            ))
            &&& (v.len() > 0 && Seq::new(m.len(), |i: int| lower_byte(m[i])) == connect_word()
                ==> (r matches Ok(ProxyRequest::Connect { target }) && target@
                    == spec_connect_target(p)))
            &&& (v.len() > 0 && Seq::new(m.len(), |i: int| lower_byte(m[i])) != connect_word()
                ==> (match spec_extract_http_target(p, buffer@) {
                Err(e) => r == Err::<ProxyRequest, ProxyError>(e),
                Ok(t) => match spec_rewrite_request_line(buffer@) {
                    Err(e) => r == Err::<ProxyRequest, ProxyError>(e),
                    Ok(w) => (r matches Ok(ProxyRequest::Forward { target, rewritten })
                        && target@ == t && rewritten@ == w),
                },
            }))
        }),
{
    let line = extract_first_line(buffer);
    let (m, p, v) = get_three_tokens(line.as_slice());
    if v.len() == 0 {
        return Err(ProxyError::InvalidRequestLine);
    }
    if is_connect_method(m.as_slice()) {
        let target = normalize_connect_target(p.as_slice());
        return Ok(ProxyRequest::Connect { target });
    }
    let target = match extract_http_target(p.as_slice(), buffer) {
        Ok(t) => t,
        Err(e) => {
            return Err(e);
        },
    };
    let rewritten = match rewrite_request_line(buffer) {
        Ok(w) => w,
        Err(e) => {
            return Err(e);
        },
    };
    Ok(ProxyRequest::Forward { target, rewritten })
}

} // verus!
