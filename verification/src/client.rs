//! Overlay client: resolves a site name and builds the page response.
//! The transport connection is not made here; the address derived from the
//! metadata is checked for well-formedness as the session would require.

use crate::resolver::{
    FreedomResolver, FreedomSiteMetadata, SiteMetaModel, cache_lookup, cache_upserted,
    default_metadata, normalize_name,
};
use crate::textutil::string_to_chars;
use vstd::prelude::*;
use vstd::string::StrSliceExecFns;
use vstd::string::StringExecFns;

verus! {

/// A request for a path on an overlay site.
#[derive(Debug)]
pub struct FreedomRequest {
    pub domain: String,
    pub path: String,
}

/// A response from an overlay site.
#[derive(Debug)]
pub struct FreedomResponse {
    pub status: u16,
    pub headers: Vec<(String, String)>,
    pub body: Vec<u8>,
}

/// The first position at or after `from` holding `c`, or the length.
pub open spec fn find_char(s: Seq<char>, from: int, c: char) -> int
    decreases s.len() - from,
{
    if from < 0 {
        0
    } else if from >= s.len() {
        s.len() as int
    } else if s[from] == c {
        from
    } else {
        find_char(s, from + 1, c)
    }
}

/// An ASCII decimal digit.
pub open spec fn is_digit(c: char) -> bool {
    48 <= c as u32 <= 57
}

/// The value of one decimal digit.
pub open spec fn digit_val(c: char) -> int {
    c as u32 - 48
}

/// The value of a one- to three-digit decimal string.
pub open spec fn octet_val(s: Seq<char>) -> int {
    if s.len() == 1 {
        digit_val(s[0])
    } else if s.len() == 2 {
        10 * digit_val(s[0]) + digit_val(s[1])
    } else if s.len() == 3 {
        100 * digit_val(s[0]) + 10 * digit_val(s[1]) + digit_val(s[2])
    } else {
        -1
    }
}

/// A well-formed dotted-quad octet: one to three digits, no leading zero
/// (except "0" itself), value at most 255.
pub open spec fn octet_ok(s: Seq<char>) -> bool {
    &&& 1 <= s.len() <= 3
    &&& forall|i: int| 0 <= i < s.len() ==> is_digit(#[trigger] s[i])
    &&& (s.len() > 1 ==> s[0] != '0')
    &&& octet_val(s) <= 255
}

/// A well-formed IPv4 address: four well-formed octets joined by dots.
pub open spec fn valid_ipv4(s: Seq<char>) -> bool {
    let a = find_char(s, 0, '.');
    let b = find_char(s, a + 1, '.');
    let c = find_char(s, b + 1, '.');
    let d = find_char(s, c + 1, '.');
    &&& a < s.len()
    &&& b < s.len()
    &&& c < s.len()
    &&& d >= s.len()
    &&& octet_ok(s.subrange(0, a))
    &&& octet_ok(s.subrange(a + 1, b))
    &&& octet_ok(s.subrange(b + 1, c))
    &&& octet_ok(s.subrange(c + 1, s.len() as int))
}

proof fn lemma_find_char_bounds(s: Seq<char>, from: int, c: char)
    requires
        0 <= from <= s.len(),
    ensures
        from <= find_char(s, from, c) <= s.len(),
    decreases s.len() - from,
{
    if from < s.len() && s[from] != c {
        lemma_find_char_bounds(s, from + 1, c);
    }
}

/// The first position at or after `from` holding `c`, or the length.
fn find_char_at(v: &Vec<char>, from: usize, c: char) -> (r: usize)
    requires
        from <= v@.len(),
    ensures
        r == find_char(v@, from as int, c),
        from <= r <= v@.len(),
{
    proof {
        lemma_find_char_bounds(v@, from as int, c);
    }
    let mut cur: usize = from;
    while cur < v.len()
        invariant
            from <= cur <= v@.len(),
            find_char(v@, from as int, c) == find_char(v@, cur as int, c),
        decreases v@.len() - cur,
    {
        if v[cur] == c {
            return cur;
        }
        cur = cur + 1;
    }
    cur
}

/// Whether the characters in `[lo, hi)` form a well-formed octet.
fn check_octet(v: &Vec<char>, lo: usize, hi: usize) -> (r: bool)
    requires
        lo <= hi <= v@.len(),
    ensures
        r == octet_ok(v@.subrange(lo as int, hi as int)),
{
    let ghost s = v@.subrange(lo as int, hi as int);
    let n = hi - lo;
    if n < 1 || n > 3 {
        return false;
    }
    let mut i: usize = 0;
    while i < n
        invariant
            lo <= hi <= v@.len(),
            n == hi - lo,
            1 <= n <= 3,
            i <= n,
            s == v@.subrange(lo as int, hi as int),
            forall|j: int| 0 <= j < i ==> is_digit(#[trigger] s[j]),
        decreases n - i,
    {
        let c = v[lo + i];
        let u = c as u32;
        proof {
            assert(s[i as int] == v@[lo + i]);
        }
        if !(48 <= u && u <= 57) {
            proof {
                assert(!is_digit(s[i as int]));
            }
            return false;
        }
        proof {
            assert(is_digit(s[i as int]));
        }
        i = i + 1;
    }
    if n > 1 && v[lo] == '0' {
        proof {
            assert(s[0] == v@[lo as int]);
        }
        return false;
    }
    proof {
        assert(s[0] == v@[lo as int]);
        assert(is_digit(s[0]));
        if n >= 2 {
            assert(s[1] == v@[lo + 1]);
            assert(is_digit(s[1]));
        }
        if n >= 3 {
            assert(s[2] == v@[lo + 2]);
            assert(is_digit(s[2]));
        }
    }
    let value: u32 = if n == 1 {
        v[lo] as u32 - 48
    } else if n == 2 {
        10 * (v[lo] as u32 - 48) + (v[lo + 1] as u32 - 48)
    } else {
        100 * (v[lo] as u32 - 48) + 10 * (v[lo + 1] as u32 - 48) + (v[lo + 2] as u32 - 48)
    };
    value <= 255
}

/// Whether a string is a well-formed IPv4 address.
pub fn is_valid_ipv4(s: &str) -> (r: bool)
    ensures
        r == valid_ipv4(s@),
{
    let chars = string_to_chars(s);
    let a = find_char_at(&chars, 0, '.');
    if a >= chars.len() {
        return false;
    }
    let b = find_char_at(&chars, a + 1, '.');
    if b >= chars.len() {
        return false;
    }
    let c = find_char_at(&chars, b + 1, '.');
    if c >= chars.len() {
        return false;
    }
    let d = find_char_at(&chars, c + 1, '.');
    if d < chars.len() {
        return false;
    }
    let o1 = check_octet(&chars, 0, a);
    let o2 = check_octet(&chars, a + 1, b);
    let o3 = check_octet(&chars, b + 1, c);
    let o4 = check_octet(&chars, c + 1, chars.len());
    o1 && o2 && o3 && o4
}

/// The page body returned for a domain and path.
pub open spec fn spec_page_body(domain: Seq<char>, path: Seq<char>) -> Seq<char> {
    "<html><body><h1>Content from "@ + domain + "</h1><p>Path: "@ + path + "</p></body></html>"@
}

/// What fetching leaves behind and returns: the name is resolved (filling
/// the cache as resolution does), the site address must be a well-formed
/// IPv4 address, and the response carries the page body for the domain and
/// path.
pub open spec fn fetch_post(
    cache0: Seq<(Seq<char>, SiteMetaModel)>,
    cache1: Seq<(Seq<char>, SiteMetaModel)>,
    domain: Seq<char>,
    path: Seq<char>,
    r: Result<FreedomResponse, String>,
) -> bool {
    let d = normalize_name(domain);
    let meta = match cache_lookup(cache0, d) {
        Some(m) => m,
        None => default_metadata(d),
    };
    let ip = match meta.ipv4 {
        Some(ip) => ip,
        None => "127.0.0.1"@,
    };
    &&& cache1 == (match cache_lookup(cache0, d) {
        Some(_) => cache0,
        None => cache_upserted(cache0, d, default_metadata(d)),
    })
    &&& (valid_ipv4(ip) ==> (r matches Ok(resp) && resp.status == 200 && resp.headers.deep_view()
        == seq![("Content-Type"@, "text/html"@)] && resp.body@ == vstd::utf8::encode_utf8(
        spec_page_body(domain, path),
    )))
    &&& (!valid_ipv4(ip) ==> (r matches Err(e) && e@ == "invalid socket address"@))
}

/// Fetches pages from overlay sites through a resolver.
pub struct FreedomClient {
    resolver: FreedomResolver,
}

impl FreedomClient {
    /// The resolver's cache.
    pub closed spec fn cache_model(&self) -> Seq<(Seq<char>, SiteMetaModel)> {
        self.resolver.cache_model()
    }

    /// Well-formedness of the underlying resolver.
    pub closed spec fn wf(&self) -> bool {
        self.resolver.wf()
    }

    /// A client over a resolver.
    pub fn new(resolver: FreedomResolver) -> (r: FreedomClient)
        ensures
            r.cache_model() == resolver.cache_model(),
            resolver.wf() ==> r.wf(),
    {
        FreedomClient { resolver }
    }

    /// Fetch a path from an overlay site: resolve the name, check the
    /// resolved address, and build the page response.
    pub fn fetch(&mut self, domain: &str, path: &str) -> (r: Result<FreedomResponse, String>)
        requires
            old(self).wf(),
        ensures
            final(self).wf(),
            fetch_post(old(self).cache_model(), final(self).cache_model(), domain@, path@, r),
    {
        let metadata = match self.resolver.resolve(domain) {
            Ok(m) => m,
            Err(_) => {
                return vstd::pervasive::unreached();
            },
        };
        let ip: String = match metadata.ipv4 {
            Some(ip) => ip,
            None => String::from_str("127.0.0.1"),
        };
        if !is_valid_ipv4(ip.as_str()) {
            return Err(String::from_str("invalid socket address"));
        }
        let mut body_text = String::from_str("<html><body><h1>Content from ");
        body_text.append(domain);
        body_text.append("</h1><p>Path: ");
        body_text.append(path);
        body_text.append("</p></body></html>");
        let body = body_text.as_str().as_bytes_vec();
        let mut headers: Vec<(String, String)> = Vec::new();
        headers.push((String::from_str("Content-Type"), String::from_str("text/html")));
        proof {
            assert(headers.deep_view() =~= seq![("Content-Type"@, "text/html"@)]);
        }
        Ok(FreedomResponse { status: 200, headers, body })
    }

    /// Fetch with an index fallback: an empty or root path becomes
    /// "/index.html".
    pub fn fetch_with_index(&mut self, domain: &str, path: &str) -> (r: Result<
        FreedomResponse,
        String,
    >)
        requires
            old(self).wf(),
        ensures
            final(self).wf(),
            ({
                let clean = if path@.len() == 0 || path@ == "/"@ {
                    "/index.html"@
                } else {
                    path@
                };
                fetch_post(old(self).cache_model(), final(self).cache_model(), domain@, clean, r)
            }),
    {
        proof {
            reveal_strlit("/");
        }
        let n = path.unicode_len();
        if n == 0 {
            proof {
                assert(path@ =~= Seq::<char>::empty());
            }
            return self.fetch(domain, "/index.html");
        }
        if n == 1 && path.get_char(0) == '/' {
            proof {
                assert(path@ =~= "/"@);
            }
            return self.fetch(domain, "/index.html");
        }
        proof {
            if path@ == "/"@ {
                assert(path@.len() == 1 && path@[0] == '/');
            }
        }
        self.fetch(domain, path)
    }
}

} // verus!
