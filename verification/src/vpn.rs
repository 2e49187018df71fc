//! Tunnel-control data and decisions: the settings profile with its
//! defaults, the location table, PowerShell argument escaping, and the rule
//! that decides when strict enforcement is active. Shelling out to the
//! platform happens outside the library.

use crate::textutil::chars_to_string;
use crate::textutil::string_to_chars;
use vstd::string::StrSliceExecFns;
use vstd::prelude::*;
use vstd::string::StringExecFns;

verus! {

/// The tunnel settings profile.
#[derive(Debug)]
pub struct VpnSettings {
    pub mode: String,
    pub protocol: String,
    pub location: String,
    pub strict_enforcement: bool,
    pub kill_switch: bool,
    pub threat_protection: bool,
    pub dns_protection: bool,
    pub auto_connect: bool,
    pub auto_connect_rule: String,
    pub split_tunnel_apps: Vec<String>,
}

impl Default for VpnSettings {
    /// The out-of-the-box profile: full mode, automatic protocol and
    /// location, kill switch and protections on, no autoconnect, no split
    /// apps.
    fn default() -> (r: VpnSettings)
        ensures
            r.mode@ == "full"@,
            r.protocol@ == "auto"@,
            r.location@ == "fastest"@,
            r.strict_enforcement == false,
            r.kill_switch == true,
            r.threat_protection == true,
            r.dns_protection == true,
            r.auto_connect == false,
            r.auto_connect_rule@ == "startup"@,
            r.split_tunnel_apps@.len() == 0,
    {
        VpnSettings {
            mode: String::from_str("full"),
            protocol: String::from_str("auto"),
            location: String::from_str("fastest"),
            strict_enforcement: false,
            kill_switch: true,
            threat_protection: true,
            dns_protection: true,
            auto_connect: false,
            auto_connect_rule: String::from_str("startup"),
            split_tunnel_apps: Vec::new(),
        }
    }
}

/// One selectable exit location.
#[derive(Debug)]
pub struct LocationProfile {
    pub id: String,
    pub label: String,
    pub region: String,
    pub recommended: bool,
}

/// The fixed table of selectable locations; only the first is recommended.
pub fn location_profiles() -> (r: Vec<LocationProfile>)
    ensures
        r@.len() == 6,
        r@[0].id@ == "fastest"@ && r@[0].label@ == "Fastest"@ && r@[0].region@ == "Auto"@
            && r@[0].recommended == true,
        r@[1].id@ == "nearest"@ && r@[1].label@ == "Nearest"@ && r@[1].region@ == "Auto"@
            && r@[1].recommended == false,
        r@[2].id@ == "us-east"@ && r@[2].label@ == "US East"@ && r@[2].region@ == "United States"@
            && r@[2].recommended == false,
        r@[3].id@ == "us-west"@ && r@[3].label@ == "US West"@ && r@[3].region@ == "United States"@
            && r@[3].recommended == false,
        r@[4].id@ == "eu-central"@ && r@[4].label@ == "EU Central"@ && r@[4].region@ == "Europe"@
            && r@[4].recommended == false,
        r@[5].id@ == "asia-sg"@ && r@[5].label@ == "Asia Singapore"@ && r@[5].region@ == "Asia"@
            && r@[5].recommended == false,
{
    let mut v: Vec<LocationProfile> = Vec::new();
    v.push(
        LocationProfile {
            id: String::from_str("fastest"),
            label: String::from_str("Fastest"),
            region: String::from_str("Auto"),
            recommended: true,
        },
    );
    v.push(
        LocationProfile {
            id: String::from_str("nearest"),
            label: String::from_str("Nearest"),
            region: String::from_str("Auto"),
            recommended: false,
        },
    );
    v.push(
        LocationProfile {
            id: String::from_str("us-east"),
            label: String::from_str("US East"),
            region: String::from_str("United States"),
            recommended: false,
        },
    );
    v.push(
        LocationProfile {
            id: String::from_str("us-west"),
            label: String::from_str("US West"),
            region: String::from_str("United States"),
            recommended: false,
        },
    );
    v.push(
        LocationProfile {
            id: String::from_str("eu-central"),
            label: String::from_str("EU Central"),
            region: String::from_str("Europe"),
            recommended: false,
        },
    );
    v.push(
        LocationProfile {
            id: String::from_str("asia-sg"),
            label: String::from_str("Asia Singapore"),
            region: String::from_str("Asia"),
            recommended: false,
        },
    );
    v
}

/// How one character is escaped for a single-quoted PowerShell string:
/// double quotes are dropped, single quotes doubled, anything else kept.
pub open spec fn esc_unit(c: char) -> Seq<char> {
    if c == '"' {
        seq![]
    } else if c == '\'' {
        seq!['\'', '\'']
    } else {
        seq![c]
    }
}

/// A string escaped for single-quoted PowerShell interpolation.
pub open spec fn escaped_ps(s: Seq<char>) -> Seq<char>
    decreases s.len(),
{
    if s.len() == 0 {
        seq![]
    } else {
        esc_unit(s.first()) + escaped_ps(s.drop_first())
    }
}

proof fn lemma_escaped_ps_push(s: Seq<char>, c: char)
    ensures
        escaped_ps(s.push(c)) == escaped_ps(s) + esc_unit(c),
    decreases s.len(),
{
    if s.len() == 0 {
        assert(s.push(c).drop_first() =~= Seq::<char>::empty());
        assert(s.push(c).first() == c);
        assert(escaped_ps(Seq::<char>::empty()) == Seq::<char>::empty());
        assert(escaped_ps(s.push(c)) =~= esc_unit(c));
        assert(escaped_ps(s) + esc_unit(c) =~= esc_unit(c));
    } else {
        lemma_escaped_ps_push(s.drop_first(), c);
        assert(s.push(c).drop_first() =~= s.drop_first().push(c));
        assert(s.push(c).first() == s.first());
        assert(escaped_ps(s.push(c)) =~= escaped_ps(s) + esc_unit(c));
    }
}

/// Escape a value for a single-quoted PowerShell string: double quotes are
/// removed and single quotes doubled.
pub fn escape_ps_single_quoted(value: &str) -> (r: String)
    ensures
        r@ == escaped_ps(value@),
{
    let chars = string_to_chars(value);
    let mut out: Vec<char> = Vec::new();
    let mut i: usize = 0;
    while i < chars.len()
        invariant
            i <= chars@.len(),
            out@ == escaped_ps(chars@.take(i as int)),
        decreases chars@.len() - i,
    {
        let c = chars[i];
        proof {
            lemma_escaped_ps_push(chars@.take(i as int), c);
            assert(chars@.take(i + 1) =~= chars@.take(i as int).push(c));
        }
        if c == '"' {
            proof {
                assert(out@ =~= escaped_ps(chars@.take(i + 1)));
            }
        } else if c == '\'' {
            out.push('\'');
            out.push('\'');
            proof {
                assert(out@ =~= escaped_ps(chars@.take(i + 1)));
            }
        } else {
            out.push(c);
            proof {
                assert(out@ =~= escaped_ps(chars@.take(i + 1)));
            }
        }
        i = i + 1;
    }
    proof {
        assert(chars@.take(chars@.len() as int) =~= chars@);
    }
    chars_to_string(&out)
}

/// The node's startup configuration, derived from the environment values
/// the shell passes in.
#[derive(Debug)]
pub struct NodeConfig {
    pub threat_protection: bool,
    pub dns_protection: bool,
    pub split_tunnel_apps: Vec<String>,
    pub location: String,
}

/// The first position at or after `from` holding a semicolon, or the length.
pub open spec fn find_semi(s: Seq<char>, from: int) -> int
    decreases s.len() - from,
{
    if from < 0 {
        0
    } else if from >= s.len() {
        s.len() as int
    } else if s[from] == ';' {
        from
    } else {
        find_semi(s, from + 1)
    }
}

/// The nonempty semicolon-separated segments of `s`, from position `cur`.
pub open spec fn split_semis_at(s: Seq<char>, cur: int) -> Seq<Seq<char>>
    decreases s.len() - cur,
    via split_semis_at_dec
{
    if cur < 0 || cur > s.len() {
        seq![]
    } else {
        let e = find_semi(s, cur);
        let seg = s.subrange(cur, e);
        let rest = if e >= s.len() {
            Seq::<Seq<char>>::empty()
        } else {
            split_semis_at(s, e + 1)
        };
        if seg.len() == 0 {
            rest
        } else {
            seq![seg] + rest
        }
    }
}

#[via_fn]
proof fn split_semis_at_dec(s: Seq<char>, cur: int) {
    if 0 <= cur <= s.len() {
        lemma_find_semi_bounds(s, cur);
    }
}

proof fn lemma_find_semi_bounds(s: Seq<char>, from: int)
    requires
        0 <= from <= s.len(),
    ensures
        from <= find_semi(s, from) <= s.len(),
    decreases s.len() - from,
{
    if from < s.len() && s[from] != ';' {
        lemma_find_semi_bounds(s, from + 1);
    }
}

/// The first position at or after `from` holding a semicolon, or the length.
fn find_semi_at(v: &Vec<char>, from: usize) -> (r: usize)
    requires
        from <= v@.len(),
    ensures
        r == find_semi(v@, from as int),
        from <= r <= v@.len(),
{
    proof {
        lemma_find_semi_bounds(v@, from as int);
    }
    let mut cur: usize = from;
    while cur < v.len()
        invariant
            from <= cur <= v@.len(),
            find_semi(v@, from as int) == find_semi(v@, cur as int),
        decreases v@.len() - cur,
    {
        if v[cur] == ';' {
            return cur;
        }
        cur = cur + 1;
    }
    cur
}

/// Split a semicolon-separated list into its nonempty entries, in order.
pub fn parse_split_apps(s: &str) -> (r: Vec<String>)
    ensures
        r@.map_values(|x: String| x@) == split_semis_at(s@, 0),
{
    let chars = string_to_chars(s);
    let mut out: Vec<String> = Vec::new();
    let mut cur: usize = 0;
    loop
        invariant_except_break
            cur <= chars@.len(),
            chars@ == s@,
            split_semis_at(s@, 0) == out@.map_values(|x: String| x@) + split_semis_at(
                s@,
                cur as int,
            ),
        ensures
            split_semis_at(s@, 0) == out@.map_values(|x: String| x@),
        decreases chars@.len() - cur,
    {
        let e = find_semi_at(&chars, cur);
        if e > cur {
            let mut seg: Vec<char> = Vec::new();
            let mut i: usize = cur;
            while i < e
                invariant
                    cur <= i <= e <= chars@.len(),
                    seg@ =~= chars@.subrange(cur as int, i as int),
                decreases e - i,
            {
                seg.push(chars[i]);
                proof {
                    assert(seg@ =~= chars@.subrange(cur as int, i + 1));
                }
                i = i + 1;
            }
            let ghost before = out@;
            out.push(chars_to_string(&seg));
            proof {
                assert(out@.map_values(|x: String| x@) =~= before.map_values(|x: String| x@)
                    + seq![chars@.subrange(cur as int, e as int)]);
            }
        }
        if e >= chars.len() {
            proof {
                let tail = split_semis_at(s@, cur as int);
                assert(find_semi(s@, cur as int) == e);
                if e > cur {
                    assert(tail =~= seq![s@.subrange(cur as int, e as int)]);
                } else {
                    assert(tail =~= Seq::<Seq<char>>::empty());
                }
            }
            break;
        }
        proof {
            let tail = split_semis_at(s@, cur as int);
            let rest = split_semis_at(s@, e + 1);
            assert(find_semi(s@, cur as int) == e);
            if e > cur {
                assert(tail =~= seq![s@.subrange(cur as int, e as int)] + rest);
            } else {
                assert(tail =~= rest);
            }
        }
        cur = e + 1;
    }
    out
}

/// Assemble the node's startup configuration from the environment values,
/// each given when the variable is set: the protection flags are on exactly
/// on the value "1", the split-tunnel list is split on semicolons, and the
/// location falls back to "fastest".
pub fn parse_node_config(
    threat: Option<&str>,
    dns: Option<&str>,
    split_apps: Option<&str>,
    location: Option<&str>,
) -> (r: NodeConfig)
    ensures
        r.threat_protection == (threat matches Some(v) && v@ == "1"@),
        r.dns_protection == (dns matches Some(v) && v@ == "1"@),
        r.split_tunnel_apps@.map_values(|x: String| x@) == (match split_apps {
            Some(v) => split_semis_at(v@, 0),
            None => Seq::<Seq<char>>::empty(),
        }),
        r.location@ == (match location {
            Some(v) => v@,
            None => "fastest"@,
        }),
{
    let threat_protection = match threat {
        Some(v) => crate::textutil::str_eq(v, "1"),
        None => false,
    };
    let dns_protection = match dns {
        Some(v) => crate::textutil::str_eq(v, "1"),
        None => false,
    };
    let split_tunnel_apps = match split_apps {
        Some(v) => parse_split_apps(v),
        None => {
            let empty: Vec<String> = Vec::new();
            proof {
                assert(empty@.map_values(|x: String| x@) =~= Seq::<Seq<char>>::empty());
            }
            empty
        },
    };
    let location = match location {
        Some(v) => v.to_owned(),
        None => String::from_str("fastest"),
    };
    NodeConfig { threat_protection, dns_protection, split_tunnel_apps, location }
}

/// Whether the firewall block of strict enforcement should be active:
/// only with strict enforcement on, and then while connected, or also
/// across a disconnect in full mode when the block is to be kept.
pub fn enforcement_should_enable(
    strict: bool,
    full_mode: bool,
    connected: bool,
    keep_block_on_disconnect: bool,
) -> (r: bool)
    ensures
        r == (strict && if full_mode {
            connected || keep_block_on_disconnect
        } else {
            connected
        }),
{
    if !strict {
        false
    } else if full_mode {
        connected || keep_block_on_disconnect
    } else {
        connected
    }
}

} // verus!
