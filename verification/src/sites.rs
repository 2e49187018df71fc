//! Hosting registry for overlay sites: a site per domain, with the content
//! directory and index file it serves. Reading files from disk happens
//! outside the library; the request-path selection is here.

use crate::textutil::str_eq;
use vstd::prelude::*;
use vstd::string::StrSliceExecFns;
use vstd::string::StringExecFns;

verus! {

/// Mathematical model of a hosted site.
pub ghost struct SiteModel {
    pub domain: Seq<char>,
    pub content_path: Seq<char>,
    pub index_file: Seq<char>,
}

/// A hosted site: its domain, content directory, and index file.
#[derive(Debug)]
pub struct Site {
    pub domain: String,
    pub content_path: String,
    pub index_file: String,
}

impl View for Site {
    type V = SiteModel;

    open spec fn view(&self) -> SiteModel {
        SiteModel {
            domain: self.domain@,
            content_path: self.content_path@,
            index_file: self.index_file@,
        }
    }
}

impl Clone for Site {
    fn clone(&self) -> (r: Self)
        ensures
            r@ == self@,
    {
        Site {
            domain: self.domain.clone(),
            content_path: self.content_path.clone(),
            index_file: self.index_file.clone(),
        }
    }
}

/// A site's public summary.
#[derive(Debug)]
pub struct SiteInfo {
    pub domain: String,
    pub index_file: String,
}

/// There is a site under this domain.
pub open spec fn sites_have(s: Seq<SiteModel>, d: Seq<char>) -> bool {
    exists|i: int| 0 <= i < s.len() && s[i].domain == d
}

/// The site under this domain, when domains are unique.
pub open spec fn site_at(s: Seq<SiteModel>, d: Seq<char>) -> SiteModel {
    s[choose|i: int| 0 <= i < s.len() && s[i].domain == d]
}

/// The table after inserting a site, replacing any site of the same domain.
pub open spec fn sites_upserted(s: Seq<SiteModel>, m: SiteModel) -> Seq<SiteModel> {
    if sites_have(s, m.domain) {
        s.update(choose|i: int| 0 <= i < s.len() && s[i].domain == m.domain, m)
    } else {
        s.push(m)
    }
}

/// Registry of hosted sites, keyed by domain.
pub struct SiteServer {
    sites: Vec<Site>,
}

impl SiteServer {
    /// The hosted sites, in registration order.
    pub closed spec fn sites_model(&self) -> Seq<SiteModel> {
        self.sites@.map_values(|s: Site| s@)
    }

    /// Well-formedness: domains are unique.
    pub open spec fn wf(&self) -> bool {
        forall|i: int, j: int|
            0 <= i < j < self.sites_model().len() ==> self.sites_model()[i].domain
                != self.sites_model()[j].domain
    }

    /// An empty registry.
    pub fn new() -> (r: SiteServer)
        ensures
            r.wf(),
            r.sites_model() == Seq::<SiteModel>::empty(),
    {
        let r = SiteServer { sites: Vec::new() };
        proof {
            assert(r.sites_model() =~= Seq::<SiteModel>::empty());
        }
        r
    }

    /// Position of a domain in the registry.
    fn find_site(&self, domain: &str) -> (r: Option<usize>)
        ensures
            match r {
                Some(i) => i < self.sites_model().len() && self.sites_model()[i as int].domain
                    == domain@,
                None => !sites_have(self.sites_model(), domain@),
            },
    {
        let mut i: usize = 0;
        while i < self.sites.len()
            invariant
                i <= self.sites.len(),
                forall|j: int| 0 <= j < i ==> self.sites_model()[j].domain != domain@,
            decreases self.sites.len() - i,
        {
            if str_eq(self.sites[i].domain.as_str(), domain) {
                return Some(i);
            }
            i = i + 1;
        }
        None
    }

    proof fn lemma_site_is_choice(&self, i: int, d: Seq<char>)
        requires
            self.wf(),
            0 <= i < self.sites_model().len(),
            self.sites_model()[i].domain == d,
        ensures
            sites_have(self.sites_model(), d),
            (choose|j: int| 0 <= j < self.sites_model().len() && self.sites_model()[j].domain == d)
                == i,
    {
        let s = self.sites_model();
        assert(sites_have(s, d));
        let j = choose|j: int| 0 <= j < s.len() && s[j].domain == d;
        if i < j {
            assert(s[i].domain != s[j].domain);
        } else if j < i {
            assert(s[j].domain != s[i].domain);
        }
    }

    /// Register a site under its domain, replacing any previous site of the
    /// same domain. Always succeeds.
    pub fn register_site(&mut self, domain: String, content_path: String, index_file: String) -> (r:
        Result<(), String>)
        requires
            old(self).wf(),
        ensures
            final(self).wf(),
            r is Ok,
            final(self).sites_model() == sites_upserted(
                old(self).sites_model(),
                SiteModel { domain: domain@, content_path: content_path@, index_file: index_file@ },
            ),
    {
        let site = Site { domain: domain.clone(), content_path, index_file };
        let ghost m = site@;
        let ghost s0 = self.sites_model();
        match self.find_site(domain.as_str()) {
            Some(i) => {
                proof {
                    self.lemma_site_is_choice(i as int, m.domain);
                }
                self.sites.set(i, site);
                proof {
                    assert(self.sites_model() =~= s0.update(
                        choose|t: int| 0 <= t < s0.len() && s0[t].domain == m.domain,
                        m,
                    ));
                }
            },
            None => {
                self.sites.push(site);
                proof {
                    assert(self.sites_model() =~= s0.push(m));
                }
            },
        }
        proof {
            let s1 = self.sites_model();
            let pos: int = if sites_have(s0, m.domain) {
                choose|t: int| 0 <= t < s0.len() && s0[t].domain == m.domain
            } else {
                s0.len() as int
            };
            assert forall|a: int, b: int| 0 <= a < b < s1.len() implies s1[a].domain
                != s1[b].domain by {
                if a != pos && b != pos {
                    assert(s1[a] == s0[a] && s1[b] == s0[b]);
                } else if b == pos && b == s0.len() {
                    assert(!sites_have(s0, m.domain));
                    assert(s1[a] == s0[a]);
                }
            }
        }
        Ok(())
    }

    /// The site hosted under a domain, if any.
    pub fn get_site(&self, domain: &str) -> (r: Option<Site>)
        requires
            self.wf(),
        ensures
            r is Some <==> sites_have(self.sites_model(), domain@),
            match r {
                Some(s) => s@ == site_at(self.sites_model(), domain@),
                None => true,
            },
    {
        match self.find_site(domain) {
            Some(i) => {
                proof {
                    self.lemma_site_is_choice(i as int, domain@);
                }
                Some(self.sites[i].clone())
            },
            None => None,
        }
    }

    /// All hosted sites, in registration order.
    pub fn list_sites(&self) -> (r: Vec<Site>)
        ensures
            r@.len() == self.sites_model().len(),
            forall|i: int| 0 <= i < r@.len() ==> (#[trigger] r@[i])@ == self.sites_model()[i],
    {
        let mut out: Vec<Site> = Vec::new();
        let mut i: usize = 0;
        while i < self.sites.len()
            invariant
                i <= self.sites.len(),
                out@.len() == i,
                forall|j: int| 0 <= j < i ==> (#[trigger] out@[j])@ == self.sites_model()[j],
            decreases self.sites.len() - i,
        {
            out.push(self.sites[i].clone());
            i = i + 1;
        }
        out
    }

    /// The public summary of a hosted site, if any.
    pub fn get_site_info(&self, domain: &str) -> (r: Option<SiteInfo>)
        requires
            self.wf(),
        ensures
            r is Some <==> sites_have(self.sites_model(), domain@),
            match r {
                Some(info) => {
                    let s = site_at(self.sites_model(), domain@);
                    info.domain@ == s.domain && info.index_file@ == s.index_file
                },
                None => true,
            },
    {
        match self.find_site(domain) {
            Some(i) => {
                proof {
                    self.lemma_site_is_choice(i as int, domain@);
                }
                Some(
                    SiteInfo {
                        domain: self.sites[i].domain.clone(),
                        index_file: self.sites[i].index_file.clone(),
                    },
                )
            },
            None => None,
        }
    }
}

/// Which file of a site a request path names: the index file for an empty
/// or root path, else the path with one leading slash removed.
pub open spec fn spec_requested_file(site: SiteModel, path: Seq<char>) -> Seq<char> {
    if path.len() == 0 || path == "/"@ {
        site.index_file
    } else if path[0] == '/' {
        path.skip(1)
    } else {
        path
    }
}

/// Select the file a request path names within a site.
pub fn requested_file(site: &Site, path: &str) -> (r: String)
    ensures
        r@ == spec_requested_file(site@, path@),
{
    proof {
        reveal_strlit("/");
    }
    let n = path.unicode_len();
    if n == 0 {
        proof {
            assert(path@ =~= Seq::<char>::empty());
        }
        return site.index_file.clone();
    }
    if n == 1 && path.get_char(0) == '/' {
        proof {
            assert(path@ =~= "/"@);
        }
        return site.index_file.clone();
    }
    proof {
        if path@ == "/"@ {
            assert(path@.len() == 1 && path@[0] == '/');
        }
    }
    if path.get_char(0) == '/' {
        let tail = path.substring_char(1, n);
        String::from_str(tail)
    } else {
        path.to_owned()
    }
}

} // verus!
