//! Overlay-name resolution: normalize a name to its ".freedom" form, answer
//! from the in-process cache, and fall back to a fixed local answer that is
//! then cached.

use crate::textutil::str_eq;
use vstd::prelude::*;
use vstd::string::StrSliceExecFns;
use vstd::string::StringExecFns;

verus! {

/// Mathematical model of site metadata.
pub ghost struct SiteMetaModel {
    pub domain: Seq<char>,
    pub owner_node_id: Seq<u8>,
    pub ipv4: Option<Seq<char>>,
    pub ipv6: Option<Seq<char>>,
    pub port: u16,
    pub protocol_version: u32,
}

/// What a resolved overlay name points at.
#[derive(Debug)]
pub struct FreedomSiteMetadata {
    pub domain: String,
    pub owner_node_id: Vec<u8>,
    pub ipv4: Option<String>,
    pub ipv6: Option<String>,
    pub port: u16,
    pub protocol_version: u32,
}

impl View for FreedomSiteMetadata {
    type V = SiteMetaModel;

    open spec fn view(&self) -> SiteMetaModel {
        SiteMetaModel {
            domain: self.domain@,
            owner_node_id: self.owner_node_id@,
            ipv4: self.ipv4.deep_view(),
            ipv6: self.ipv6.deep_view(),
            port: self.port,
            protocol_version: self.protocol_version,
        }
    }
}

impl Clone for FreedomSiteMetadata {
    fn clone(&self) -> (r: Self)
        ensures
            r@ == self@,
    {
        let owner = self.owner_node_id.clone();
        proof {
            assert(owner@ =~= self.owner_node_id@);
        }
        let ipv4 = match &self.ipv4 {
            Some(s) => Some(s.clone()),
            None => None,
        };
        let ipv6 = match &self.ipv6 {
            Some(s) => Some(s.clone()),
            None => None,
        };
        FreedomSiteMetadata {
            domain: self.domain.clone(),
            owner_node_id: owner,
            ipv4,
            ipv6,
            port: self.port,
            protocol_version: self.protocol_version,
        }
    }
}

/// Whether a name already carries the overlay suffix ".freedom".
pub open spec fn is_freedom_name(d: Seq<char>) -> bool {
    d.len() >= 8 && d.subrange(d.len() - 8, d.len() as int) == ".freedom"@
}

/// The name with the overlay suffix appended where absent.
pub open spec fn normalize_name(d: Seq<char>) -> Seq<char> {
    if is_freedom_name(d) {
        d
    } else {
        d + ".freedom"@
    }
}

/// The fixed answer returned for a name the cache does not know: the local
/// node at 127.0.0.1:5000.
pub open spec fn default_metadata(domain: Seq<char>) -> SiteMetaModel {
    SiteMetaModel {
        domain,
        owner_node_id: Seq::new(32, |i: int| 1u8),
        ipv4: Some("127.0.0.1"@),
        ipv6: None,
        port: 5000,
        protocol_version: 1,
    }
}

/// There is a cache entry under this name.
pub open spec fn cache_has(c: Seq<(Seq<char>, SiteMetaModel)>, d: Seq<char>) -> bool {
    exists|i: int| 0 <= i < c.len() && c[i].0 == d
}

/// The cache entry under this name, when names are unique.
pub open spec fn cache_lookup(c: Seq<(Seq<char>, SiteMetaModel)>, d: Seq<char>) -> Option<
    SiteMetaModel,
> {
    if cache_has(c, d) {
        Some(c[choose|i: int| 0 <= i < c.len() && c[i].0 == d].1)
    } else {
        None
    }
}

/// The cache after inserting an entry, replacing any entry under the name.
pub open spec fn cache_upserted(
    c: Seq<(Seq<char>, SiteMetaModel)>,
    d: Seq<char>,
    m: SiteMetaModel,
) -> Seq<(Seq<char>, SiteMetaModel)> {
    if cache_has(c, d) {
        c.update(choose|i: int| 0 <= i < c.len() && c[i].0 == d, (d, m))
    } else {
        c.push((d, m))
    }
}

/// Whether the string ends in ".freedom".
fn has_freedom_suffix(domain: &str) -> (r: bool)
    ensures
        r == is_freedom_name(domain@),
{
    proof {
        reveal_strlit(".freedom");
    }
    let n = domain.unicode_len();
    if n < 8 {
        return false;
    }
    let suffix = ".freedom";
    let mut i: usize = 0;
    while i < 8
        invariant
            n == domain@.len(),
            n >= 8,
            i <= 8,
            suffix@ == ".freedom"@,
            suffix@.len() == 8,
            forall|j: int| 0 <= j < i ==> domain@[n - 8 + j] == suffix@[j],
        decreases 8 - i,
    {
        if domain.get_char(n - 8 + i) != suffix.get_char(i) {
            proof {
                if domain@.subrange(n - 8, n as int) == ".freedom"@ {
                    assert(domain@.subrange(n - 8, n as int)[i as int] == domain@[n - 8 + i]);
                }
            }
            return false;
        }
        i = i + 1;
    }
    proof {
        assert(domain@.subrange(n - 8, n as int) =~= ".freedom"@);
    }
    true
}

/// Resolves overlay names, remembering every answer in a cache.
pub struct FreedomResolver {
    cache: Vec<(String, FreedomSiteMetadata)>,
    bootstrap_nodes: Vec<String>,
}

impl FreedomResolver {
    /// The cache as name/metadata pairs.
    pub closed spec fn cache_model(&self) -> Seq<(Seq<char>, SiteMetaModel)> {
        self.cache@.map_values(|p: (String, FreedomSiteMetadata)| (p.0@, p.1@))
    }

    /// The configured bootstrap peers.
    pub closed spec fn bootstrap_model(&self) -> Seq<Seq<char>> {
        self.bootstrap_nodes@.map_values(|s: String| s@)
    }

    /// Well-formedness: cached names are unique.
    pub open spec fn wf(&self) -> bool {
        forall|i: int, j: int|
            0 <= i < j < self.cache_model().len() ==> self.cache_model()[i].0
                != self.cache_model()[j].0
    }

    /// A resolver with an empty cache.
    pub fn new(bootstrap_nodes: Vec<String>) -> (r: FreedomResolver)
        ensures
            r.wf(),
            r.cache_model() == Seq::<(Seq<char>, SiteMetaModel)>::empty(),
            r.bootstrap_model() == bootstrap_nodes@.map_values(|s: String| s@),
    {
        let r = FreedomResolver { cache: Vec::new(), bootstrap_nodes };
        proof {
            assert(r.cache_model() =~= Seq::<(Seq<char>, SiteMetaModel)>::empty());
        }
        r
    }

    /// Position of a name in the cache.
    fn find_cached(&self, domain: &str) -> (r: Option<usize>)
        ensures
            match r {
                Some(i) => i < self.cache_model().len() && self.cache_model()[i as int].0
                    == domain@,
                None => !cache_has(self.cache_model(), domain@),
            },
    {
        let mut i: usize = 0;
        while i < self.cache.len()
            invariant
                i <= self.cache.len(),
                forall|j: int| 0 <= j < i ==> self.cache_model()[j].0 != domain@,
            decreases self.cache.len() - i,
        {
            if str_eq(self.cache[i].0.as_str(), domain) {
                return Some(i);
            }
            i = i + 1;
        }
        None
    }

    proof fn lemma_cached_is_choice(&self, i: int, d: Seq<char>)
        requires
            self.wf(),
            0 <= i < self.cache_model().len(),
            self.cache_model()[i].0 == d,
        ensures
            cache_has(self.cache_model(), d),
            (choose|j: int| 0 <= j < self.cache_model().len() && self.cache_model()[j].0 == d)
                == i,
    {
        let c = self.cache_model();
        assert(cache_has(c, d));
        let j = choose|j: int| 0 <= j < c.len() && c[j].0 == d;
        if i < j {
            assert(c[i].0 != c[j].0);
        } else if j < i {
            assert(c[j].0 != c[i].0);
        }
    }

    /// Insert an entry, replacing any entry under the same name.
    fn upsert(&mut self, domain: String, metadata: FreedomSiteMetadata)
        requires
            old(self).wf(),
        ensures
            final(self).wf(),
            final(self).bootstrap_model() == old(self).bootstrap_model(),
            final(self).cache_model() == cache_upserted(
                old(self).cache_model(),
                domain@,
                metadata@,
            ),
    {
        let ghost c0 = self.cache_model();
        let ghost key = domain@;
        let ghost val = metadata@;
        match self.find_cached(domain.as_str()) {
            Some(i) => {
                proof {
                    self.lemma_cached_is_choice(i as int, key);
                }
                self.cache.set(i, (domain, metadata));
                proof {
                    assert(self.cache_model() =~= c0.update(
                        choose|t: int| 0 <= t < c0.len() && c0[t].0 == key,
                        (key, val),
                    ));
                }
            },
            None => {
                self.cache.push((domain, metadata));
                proof {
                    assert(self.cache_model() =~= c0.push((key, val)));
                }
            },
        }
        proof {
            let c1 = self.cache_model();
            let pos: int = if cache_has(c0, key) {
                choose|t: int| 0 <= t < c0.len() && c0[t].0 == key
            } else {
                c0.len() as int
            };
            assert forall|a: int, b: int| 0 <= a < b < c1.len() implies c1[a].0 != c1[b].0 by {
                if a != pos && b != pos {
                    assert(c1[a] == c0[a] && c1[b] == c0[b]);
                } else if b == pos && b == c0.len() {
                    assert(!cache_has(c0, key));
                    assert(c1[a] == c0[a]);
                }
            }
        }
    }

    /// Resolve an overlay name: normalize it to its ".freedom" form, answer
    /// from the cache, or fall back to the fixed local answer and cache it.
    /// Resolution always succeeds.
    pub fn resolve(&mut self, domain: &str) -> (r: Result<FreedomSiteMetadata, String>)
        requires
            old(self).wf(),
        ensures
            final(self).wf(),
            final(self).bootstrap_model() == old(self).bootstrap_model(),
            ({
                let d = normalize_name(domain@);
                match cache_lookup(old(self).cache_model(), d) {
                    Some(m) => (r matches Ok(meta) && meta@ == m) && final(self).cache_model()
                        == old(self).cache_model(),
                    None => (r matches Ok(meta) && meta@ == default_metadata(d))
                        && final(self).cache_model() == cache_upserted(
                        old(self).cache_model(),
                        d,
                        default_metadata(d),
                    ),
                }
            }),
    {
        let normalized: String = if has_freedom_suffix(domain) {
            domain.to_owned()
        } else {
            let mut n = String::from_str(domain);
            n.append(".freedom");
            n
        };
        let ghost d = normalize_name(domain@);
        match self.find_cached(normalized.as_str()) {
            Some(i) => {
                proof {
                    self.lemma_cached_is_choice(i as int, d);
                }
                let m = self.cache[i].1.clone();
                Ok(m)
            },
            None => {
                let owner = vec![1u8; 32];
                let metadata = FreedomSiteMetadata {
                    domain: normalized.clone(),
                    owner_node_id: owner,
                    ipv4: Some(String::from_str("127.0.0.1")),
                    ipv6: None,
                    port: 5000,
                    protocol_version: 1,
                };
                proof {
                    assert(metadata@.owner_node_id =~= default_metadata(d).owner_node_id);
                    assert(metadata@ == default_metadata(d));
                }
                let result = metadata.clone();
                self.upsert(normalized, metadata);
                Ok(result)
            },
        }
    }

    /// Forget every cached answer.
    pub fn clear_cache(&mut self)
        requires
            old(self).wf(),
        ensures
            final(self).wf(),
            final(self).cache_model() == Seq::<(Seq<char>, SiteMetaModel)>::empty(),
            final(self).bootstrap_model() == old(self).bootstrap_model(),
    {
        self.cache.clear();
        proof {
            assert(self.cache_model() =~= Seq::<(Seq<char>, SiteMetaModel)>::empty());
        }
    }

    /// The cached names, in insertion order.
    pub fn list_cached(&self) -> (r: Vec<String>)
        ensures
            r@.len() == self.cache_model().len(),
            forall|i: int|
                0 <= i < r@.len() ==> (#[trigger] r@[i])@ == self.cache_model()[i].0,
    {
        let mut out: Vec<String> = Vec::new();
        let mut i: usize = 0;
        while i < self.cache.len()
            invariant
                i <= self.cache.len(),
                out@.len() == i,
                forall|j: int| 0 <= j < i ==> (#[trigger] out@[j])@ == self.cache_model()[j].0,
            decreases self.cache.len() - i,
        {
            out.push(self.cache[i].0.clone());
            i = i + 1;
        }
        out
    }

    /// Inject a mapping under a caller-chosen name (used by tests); the
    /// name is stored as given, without normalization.
    pub fn add_mapping(&mut self, domain: String, metadata: FreedomSiteMetadata)
        requires
            old(self).wf(),
        ensures
            final(self).wf(),
            final(self).bootstrap_model() == old(self).bootstrap_model(),
            final(self).cache_model() == cache_upserted(
                old(self).cache_model(),
                domain@,
                metadata@,
            ),
    {
        self.upsert(domain, metadata);
    }
}

} // verus!
