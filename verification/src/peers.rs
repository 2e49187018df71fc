//! A simple peer set: socket addresses as "host:port" strings, each held at
//! most once, in insertion order.

use crate::textutil::str_eq;
use vstd::prelude::*;
use vstd::string::StringExecFns;

verus! {

/// Tracks the peers currently known.
pub struct PeerManager {
    peers: Vec<String>,
}

impl PeerManager {
    /// The peer addresses, in insertion order.
    pub closed spec fn peers_model(&self) -> Seq<Seq<char>> {
        self.peers@.map_values(|s: String| s@)
    }

    /// Well-formedness: no address is held twice.
    pub open spec fn wf(&self) -> bool {
        forall|i: int, j: int|
            0 <= i < j < self.peers_model().len() ==> self.peers_model()[i]
                != self.peers_model()[j]
    }

    /// An empty peer set.
    pub fn new() -> (r: PeerManager)
        ensures
            r.wf(),
            r.peers_model() == Seq::<Seq<char>>::empty(),
    {
        let r = PeerManager { peers: Vec::new() };
        proof {
            assert(r.peers_model() =~= Seq::<Seq<char>>::empty());
        }
        r
    }

    /// Position of an address in the set.
    fn find_peer(&self, addr: &str) -> (r: Option<usize>)
        ensures
            match r {
                Some(i) => i < self.peers_model().len() && self.peers_model()[i as int] == addr@,
                None => !self.peers_model().contains(addr@),
            },
    {
        let mut i: usize = 0;
        while i < self.peers.len()
            invariant
                i <= self.peers.len(),
                forall|j: int| 0 <= j < i ==> self.peers_model()[j] != addr@,
            decreases self.peers.len() - i,
        {
            if str_eq(self.peers[i].as_str(), addr) {
                return Some(i);
            }
            i = i + 1;
        }
        proof {
            assert forall|j: int|
                0 <= j < self.peers_model().len() implies self.peers_model()[j] != addr@ by {}
            if self.peers_model().contains(addr@) {
                let j = choose|j: int|
                    0 <= j < self.peers_model().len() && self.peers_model()[j] == addr@;
            }
        }
        None
    }

    /// Add a peer; an address already present is not added twice.
    pub fn add_peer(&mut self, addr: String)
        requires
            old(self).wf(),
        ensures
            final(self).wf(),
            final(self).peers_model() == if old(self).peers_model().contains(addr@) {
                old(self).peers_model()
            } else {
                old(self).peers_model().push(addr@)
            },
    {
        let ghost p0 = self.peers_model();
        match self.find_peer(addr.as_str()) {
            Some(_) => {
                proof {
                    assert(p0.contains(addr@));
                }
            },
            None => {
                self.peers.push(addr);
                proof {
                    assert(self.peers_model() =~= p0.push(self.peers@.last()@));
                    assert forall|a: int, b: int|
                        0 <= a < b < self.peers_model().len() implies self.peers_model()[a]
                        != self.peers_model()[b] by {
                        if b == p0.len() {
                            assert(!p0.contains(self.peers_model()[b]));
                            assert(self.peers_model()[a] == p0[a]);
                        }
                    }
                }
            },
        }
    }

    /// Remove a peer; removing an unknown address changes nothing.
    pub fn remove_peer(&mut self, addr: &str)
        requires
            old(self).wf(),
        ensures
            final(self).wf(),
            !final(self).peers_model().contains(addr@),
            !old(self).peers_model().contains(addr@) ==> final(self).peers_model() == old(
                self,
            ).peers_model(),
            old(self).peers_model().contains(addr@) ==> final(self).peers_model() == old(
                self,
            ).peers_model().remove(choose|i: int|
                0 <= i < old(self).peers_model().len() && old(self).peers_model()[i] == addr@),
    {
        let ghost p0 = self.peers_model();
        match self.find_peer(addr) {
            Some(i) => {
                proof {
                    let j = choose|j: int| 0 <= j < p0.len() && p0[j] == addr@;
                    if (i as int) < j {
                        assert(p0[i as int] != p0[j]);
                    } else if j < i as int {
                        assert(p0[j] != p0[i as int]);
                    }
                }
                let _ = self.peers.remove(i);
                proof {
                    let p1 = self.peers_model();
                    assert(p1 =~= p0.remove(i as int));
                    assert forall|a: int, b: int| 0 <= a < b < p1.len() implies p1[a] != p1[b] by {
                        let a0: int = if a < i as int {
                            a
                        } else {
                            a + 1
                        };
                        let b0: int = if b < i as int {
                            b
                        } else {
                            b + 1
                        };
                        assert(p1[a] == p0[a0] && p1[b] == p0[b0]);
                    }
                    assert forall|t: int| 0 <= t < p1.len() implies p1[t] != addr@ by {
                        let t0: int = if t < i as int {
                            t
                        } else {
                            t + 1
                        };
                        assert(p1[t] == p0[t0]);
                        if t0 < i as int {
                            assert(p0[t0] != p0[i as int]);
                        } else {
                            assert(p0[i as int] != p0[t0]);
                        }
                    }
                    if p1.contains(addr@) {
                        let w = choose|w: int| 0 <= w < p1.len() && p1[w] == addr@;
                    }
                }
            },
            None => {},
        }
    }

    /// The current peers, in insertion order.
    pub fn list_peers(&self) -> (r: Vec<String>)
        ensures
            r@.len() == self.peers_model().len(),
            forall|i: int| 0 <= i < r@.len() ==> (#[trigger] r@[i])@ == self.peers_model()[i],
    {
        let mut out: Vec<String> = Vec::new();
        let mut i: usize = 0;
        while i < self.peers.len()
            invariant
                i <= self.peers.len(),
                out@.len() == i,
                forall|j: int| 0 <= j < i ==> (#[trigger] out@[j])@ == self.peers_model()[j],
            decreases self.peers.len() - i,
        {
            out.push(self.peers[i].clone());
            i = i + 1;
        }
        out
    }
}

} // verus!
