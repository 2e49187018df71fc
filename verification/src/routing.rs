//! Wire-level circuit bookkeeping: circuit ids from a wrapping counter and
//! a table of circuits, each an ordered hop list with a current position.

use vstd::prelude::*;

verus! {

broadcast use vstd::array::group_array_axioms;

/// A 256-bit node identifier on the relay wire.
#[derive(Clone, Copy, Debug, PartialEq, Eq, Hash)]
pub struct NodeId(pub [u8; 32]);

impl View for NodeId {
    type V = Seq<u8>;

    open spec fn view(&self) -> Seq<u8> {
        self.0@
    }
}

/// A circuit identifier.
#[derive(Clone, Copy, Debug, PartialEq, Eq, Hash, Structural)]
pub struct CircuitId(pub u32);

/// A circuit: its id, the ordered hops, and the current position along them.
#[derive(Debug)]
pub struct Circuit {
    pub id: CircuitId,
    pub hops: Vec<NodeId>,
    pub current_hop: usize,
}

impl Clone for Circuit {
    fn clone(&self) -> (r: Self)
        ensures
            r.id == self.id,
            r.hops@ == self.hops@,
            r.current_hop == self.current_hop,
    {
        let mut hops: Vec<NodeId> = Vec::new();
        let mut i: usize = 0;
        while i < self.hops.len()
            invariant
                i <= self.hops.len(),
                hops@ =~= self.hops@.subrange(0, i as int),
            decreases self.hops.len() - i,
        {
            hops.push(NodeId(self.hops[i].0));
            i = i + 1;
        }
        proof {
            assert(hops@ =~= self.hops@);
        }
        Circuit { id: self.id, hops, current_hop: self.current_hop }
    }
}

/// Messages of the circuit-extension protocol.
#[derive(Clone, Debug)]
pub enum CircuitMessage {
    Extend { circuit_id: CircuitId, next_hop: NodeId },
    Extended { circuit_id: CircuitId },
    Data { circuit_id: CircuitId, encrypted_data: Vec<u8> },
    Destroy { circuit_id: CircuitId },
}

/// There is a circuit with this id.
pub open spec fn has_cid(cs: Seq<Circuit>, id: CircuitId) -> bool {
    exists|i: int| 0 <= i < cs.len() && cs[i].id == id
}

/// The circuit with this id; meaningful when ids are unique and one exists.
pub open spec fn circuit_with(cs: Seq<Circuit>, id: CircuitId) -> Circuit {
    cs[choose|i: int| 0 <= i < cs.len() && cs[i].id == id]
}

/// Circuits under every other id are untouched: present exactly as
/// before, and unchanged where present.
pub open spec fn others_unchanged(cs0: Seq<Circuit>, cs1: Seq<Circuit>, except: CircuitId) -> bool {
    forall|id: CircuitId|
        id != except ==> (has_cid(cs1, id) == has_cid(cs0, id) && (has_cid(cs0, id)
            ==> circuit_with(cs1, id) == circuit_with(cs0, id)))
}

/// The next value of the wrapping id counter.
pub open spec fn next_counter(n: u32) -> u32 {
    if n == u32::MAX {
        0
    } else {
        (n + 1) as u32
    }
}

/// Allocates circuit ids and tracks circuits by id.
pub struct Router {
    circuits: Vec<Circuit>,
    next_circuit_id: u32,
}

impl Router {
    /// The table of circuits.
    pub closed spec fn circuits_model(&self) -> Seq<Circuit> {
        self.circuits@
    }

    /// The id the next circuit will get.
    pub closed spec fn next_id(&self) -> u32 {
        self.next_circuit_id
    }

    /// Well-formedness: ids unique, and no position runs past its hops.
    pub open spec fn wf(&self) -> bool {
        &&& forall|i: int, j: int|
            0 <= i < j < self.circuits_model().len() ==> self.circuits_model()[i].id
                != self.circuits_model()[j].id
        &&& forall|i: int|
            0 <= i < self.circuits_model().len() ==> (#[trigger] self.circuits_model()[i]).current_hop
                <= self.circuits_model()[i].hops@.len()
    }

    /// An empty router; ids start at 1.
    pub fn new() -> (r: Router)
        ensures
            r.wf(),
            r.circuits_model() == Seq::<Circuit>::empty(),
            r.next_id() == 1,
    {
        Router { circuits: Vec::new(), next_circuit_id: 1 }
    }

    /// Position of a circuit in the table.
    fn find_index(&self, circuit_id: CircuitId) -> (r: Option<usize>)
        ensures
            match r {
                Some(i) => i < self.circuits_model().len() && self.circuits_model()[i as int].id
                    == circuit_id,
                None => !has_cid(self.circuits_model(), circuit_id),
            },
    {
        let mut i: usize = 0;
        while i < self.circuits.len()
            invariant
                i <= self.circuits.len(),
                forall|j: int| 0 <= j < i ==> self.circuits_model()[j].id != circuit_id,
            decreases self.circuits.len() - i,
        {
            if self.circuits[i].id.0 == circuit_id.0 {
                return Some(i);
            }
            i = i + 1;
        }
        None
    }

    proof fn lemma_found_is_choice(&self, i: int, id: CircuitId)
        requires
            forall|a: int, b: int|
                0 <= a < b < self.circuits_model().len() ==> self.circuits_model()[a].id
                    != self.circuits_model()[b].id,
            0 <= i < self.circuits_model().len(),
            self.circuits_model()[i].id == id,
        ensures
            has_cid(self.circuits_model(), id),
            (choose|j: int| 0 <= j < self.circuits_model().len() && self.circuits_model()[j].id
                == id) == i,
    {
        let cs = self.circuits_model();
        assert(has_cid(cs, id));
        let j = choose|j: int| 0 <= j < cs.len() && cs[j].id == id;
        if i < j {
            assert(cs[i].id != cs[j].id);
        } else if j < i {
            assert(cs[j].id != cs[i].id);
        }
    }

    /// Create a circuit through the given hops: it receives the next id
    /// from the wrapping counter, starts at position 0, and is stored under
    /// that id, replacing any circuit the wrapped counter reuses the id of.
    pub fn build_circuit(&mut self, hops: Vec<NodeId>) -> (r: CircuitId)
        requires
            old(self).wf(),
        ensures
            final(self).wf(),
            r == CircuitId(old(self).next_id()),
            final(self).next_id() == next_counter(old(self).next_id()),
            has_cid(final(self).circuits_model(), r),
            ({
                let c = circuit_with(final(self).circuits_model(), r);
                c.id == r && c.hops@ == hops@ && c.current_hop == 0
            }),
            others_unchanged(old(self).circuits_model(), final(self).circuits_model(), r),
    {
        let circuit_id = CircuitId(self.next_circuit_id);
        self.next_circuit_id = if self.next_circuit_id == u32::MAX {
            0
        } else {
            self.next_circuit_id + 1
        };
        let circuit = Circuit { id: circuit_id, hops, current_hop: 0 };
        let ghost cs0 = self.circuits_model();
        let ghost cm = circuit;
        proof {
            assert(self.circuits_model() == old(self).circuits_model());
        }
        let pos = self.find_index(circuit_id);
        match pos {
            Some(i) => {
                proof {
                    self.lemma_found_is_choice(i as int, circuit_id);
                }
                self.circuits.set(i, circuit);
            },
            None => {
                self.circuits.push(circuit);
            },
        }
        proof {
            let cs1 = self.circuits_model();
            let pos: int = match pos {
                Some(i) => i as int,
                None => cs0.len() as int,
            };
            assert(0 <= pos < cs1.len() && cs1[pos].id == circuit_id);
            assert forall|a: int, b: int| 0 <= a < b < cs1.len() implies cs1[a].id
                != cs1[b].id by {
                if a != pos && b != pos {
                    assert(cs1[a] == cs0[a] && cs1[b] == cs0[b]);
                } else if b == pos && b == cs0.len() {
                    assert(!has_cid(cs0, circuit_id));
                    assert(cs1[a] == cs0[a]);
                }
            }
            assert forall|a: int| 0 <= a < cs1.len() implies (#[trigger] cs1[a]).current_hop
                <= cs1[a].hops@.len() by {
                if a != pos {
                    assert(cs1[a] == cs0[a]);
                }
            }
            let u = choose|u: int| 0 <= u < cs1.len() && cs1[u].id == circuit_id;
            if u < pos {
                assert(cs1[u].id != cs1[pos].id);
            } else if pos < u {
                assert(cs1[pos].id != cs1[u].id);
            }
            assert(circuit_with(cs1, circuit_id) == cm);
            assert forall|id: CircuitId| id != circuit_id implies (has_cid(cs1, id) == has_cid(
                cs0,
                id,
            ) && (has_cid(cs0, id) ==> circuit_with(cs1, id) == circuit_with(cs0, id))) by {
                assert forall|t: int| 0 <= t < cs1.len() && cs1[t].id == id implies 0 <= t
                    < cs0.len() && cs0[t].id == id && cs1[t] == cs0[t] by {
                    assert(t != pos);
                }
                assert forall|t: int| 0 <= t < cs0.len() && cs0[t].id == id implies 0 <= t
                    < cs1.len() && cs1[t].id == id by {
                    assert(t != pos);
                }
                if has_cid(cs1, id) {
                    let t1 = choose|t: int| 0 <= t < cs1.len() && cs1[t].id == id;
                    let t0 = choose|t: int| 0 <= t < cs0.len() && cs0[t].id == id;
                    if t0 < t1 {
                        assert(cs1[t0].id != cs1[t1].id);
                    } else if t1 < t0 {
                        assert(cs0[t1].id != cs0[t0].id);
                    }
                }
            }
        }
        circuit_id
    }

    /// The circuit stored under an id, if any.
    pub fn get_circuit(&self, circuit_id: CircuitId) -> (r: Option<Circuit>)
        requires
            self.wf(),
        ensures
            r is Some <==> has_cid(self.circuits_model(), circuit_id),
            match r {
                Some(c) => {
                    let m = circuit_with(self.circuits_model(), circuit_id);
                    c.id == m.id && c.hops@ == m.hops@ && c.current_hop == m.current_hop
                },
                None => true,
            },
    {
        match self.find_index(circuit_id) {
            Some(i) => {
                proof {
                    self.lemma_found_is_choice(i as int, circuit_id);
                }
                Some(self.circuits[i].clone())
            },
            None => None,
        }
    }

    /// Advance a circuit one hop, capped at the end of its path; returns
    /// whether hops remain beyond the new position. An unknown id returns
    /// false and changes nothing.
    pub fn advance_hop(&mut self, circuit_id: CircuitId) -> (r: bool)
        requires
            old(self).wf(),
        ensures
            final(self).wf(),
            final(self).next_id() == old(self).next_id(),
            !has_cid(old(self).circuits_model(), circuit_id) ==> final(self).circuits_model()
                == old(self).circuits_model() && r == false,
            has_cid(old(self).circuits_model(), circuit_id) ==> ({
                let before = circuit_with(old(self).circuits_model(), circuit_id);
                let stepped: nat = if before.current_hop < before.hops@.len() {
                    (before.current_hop + 1) as nat
                } else {
                    before.current_hop as nat
                };
                &&& r == (stepped < before.hops@.len())
                &&& has_cid(final(self).circuits_model(), circuit_id)
                &&& ({
                    let after = circuit_with(final(self).circuits_model(), circuit_id);
                    after.id == before.id && after.hops@ == before.hops@ && after.current_hop
                        == stepped
                })
                &&& others_unchanged(
                    old(self).circuits_model(),
                    final(self).circuits_model(),
                    circuit_id,
                )
            }),
    {
        let ghost cs0 = self.circuits_model();
        match self.find_index(circuit_id) {
            Some(i) => {
                proof {
                    self.lemma_found_is_choice(i as int, circuit_id);
                }
                let c = self.circuits[i].clone();
                let stepped: usize = if c.current_hop < c.hops.len() {
                    c.current_hop + 1
                } else {
                    c.current_hop
                };
                let more = stepped < c.hops.len();
                let replacement = Circuit { id: c.id, hops: c.hops, current_hop: stepped };
                self.circuits.set(i, replacement);
                proof {
                    let cs1 = self.circuits_model();
                    assert forall|a: int, b: int| 0 <= a < b < cs1.len() implies cs1[a].id
                        != cs1[b].id by {
                        assert(cs1[a].id == cs0[a].id && cs1[b].id == cs0[b].id);
                    }
                    assert forall|a: int| 0 <= a < cs1.len() implies (
                    #[trigger] cs1[a]).current_hop <= cs1[a].hops@.len() by {
                        if a != i {
                            assert(cs1[a] == cs0[a]);
                        }
                    }
                    let u = choose|u: int| 0 <= u < cs1.len() && cs1[u].id == circuit_id;
                    if u < i as int {
                        assert(cs1[u].id != cs1[i as int].id);
                    } else if (i as int) < u {
                        assert(cs1[i as int].id != cs1[u].id);
                    }
                    assert forall|id: CircuitId| id != circuit_id implies (has_cid(cs1, id)
                        == has_cid(cs0, id) && (has_cid(cs0, id) ==> circuit_with(cs1, id)
                        == circuit_with(cs0, id))) by {
                        assert forall|t: int| 0 <= t < cs1.len() && cs1[t].id == id implies 0 <= t
                            < cs0.len() && cs0[t].id == id && cs1[t] == cs0[t] by {
                            assert(t != i);
                        }
                        assert forall|t: int| 0 <= t < cs0.len() && cs0[t].id == id implies 0 <= t
                            < cs1.len() && cs1[t].id == id by {
                            assert(t != i);
                        }
                        if has_cid(cs1, id) {
                            let t1 = choose|t: int| 0 <= t < cs1.len() && cs1[t].id == id;
                            let t0 = choose|t: int| 0 <= t < cs0.len() && cs0[t].id == id;
                            if t0 < t1 {
                                assert(cs1[t0].id != cs1[t1].id);
                            } else if t1 < t0 {
                                assert(cs0[t1].id != cs0[t0].id);
                            }
                        }
                    }
                }
                more
            },
            None => false,
        }
    }

    /// Remove a circuit; removing an unknown id changes nothing.
    pub fn destroy_circuit(&mut self, circuit_id: CircuitId)
        requires
            old(self).wf(),
        ensures
            final(self).wf(),
            final(self).next_id() == old(self).next_id(),
            !has_cid(final(self).circuits_model(), circuit_id),
            !has_cid(old(self).circuits_model(), circuit_id) ==> final(self).circuits_model()
                == old(self).circuits_model(),
            others_unchanged(
                old(self).circuits_model(),
                final(self).circuits_model(),
                circuit_id,
            ),
    {
        let ghost cs0 = self.circuits_model();
        match self.find_index(circuit_id) {
            Some(i) => {
                proof {
                    self.lemma_found_is_choice(i as int, circuit_id);
                }
                let _ = self.circuits.remove(i);
                proof {
                    let cs1 = self.circuits_model();
                    assert(cs1 == cs0.remove(i as int));
                    assert forall|a: int, b: int| 0 <= a < b < cs1.len() implies cs1[a].id
                        != cs1[b].id by {
                        let a0: int = if a < i as int {
                            a
                        } else {
                            a + 1
                        };
                        let b0: int = if b < i as int {
                            b
                        } else {
                            b + 1
                        };
                        assert(cs1[a] == cs0[a0] && cs1[b] == cs0[b0]);
                    }
                    assert forall|a: int| 0 <= a < cs1.len() implies (
                    #[trigger] cs1[a]).current_hop <= cs1[a].hops@.len() by {
                        let a0: int = if a < i as int {
                            a
                        } else {
                            a + 1
                        };
                        assert(cs1[a] == cs0[a0]);
                    }
                    assert forall|t: int| 0 <= t < cs1.len() implies cs1[t].id != circuit_id by {
                        let t0: int = if t < i as int {
                            t
                        } else {
                            t + 1
                        };
                        assert(cs1[t] == cs0[t0]);
                        if t0 < i as int {
                            assert(cs0[t0].id != cs0[i as int].id);
                        } else if (i as int) < t0 {
                            assert(cs0[i as int].id != cs0[t0].id);
                        }
                    }
                    assert forall|id: CircuitId| id != circuit_id implies (has_cid(cs1, id)
                        == has_cid(cs0, id) && (has_cid(cs0, id) ==> circuit_with(cs1, id)
                        == circuit_with(cs0, id))) by {
                        if has_cid(cs0, id) {
                            let t0 = choose|t: int| 0 <= t < cs0.len() && cs0[t].id == id;
                            let t1: int = if t0 < i as int {
                                t0
                            } else {
                                t0 - 1
                            };
                            assert(t0 != i);
                            assert(cs1[t1] == cs0[t0]);
                            assert(has_cid(cs1, id));
                            let u = choose|u: int| 0 <= u < cs1.len() && cs1[u].id == id;
                            let u0: int = if u < i as int {
                                u
                            } else {
                                u + 1
                            };
                            assert(cs1[u] == cs0[u0]);
                            if u0 < t0 {
                                assert(cs0[u0].id != cs0[t0].id);
                            } else if t0 < u0 {
                                assert(cs0[t0].id != cs0[u0].id);
                            }
                            assert(circuit_with(cs1, id) == circuit_with(cs0, id));
                        } else {
                            assert forall|t: int|
                                0 <= t < cs1.len() implies cs1[t].id != id by {
                                let t0: int = if t < i as int {
                                    t
                                } else {
                                    t + 1
                                };
                                assert(cs1[t] == cs0[t0]);
                            }
                        }
                    }
                }
            },
            None => {},
        }
    }

    /// The node at the circuit's current position, or nothing when the
    /// position has run past the end or the id is unknown.
    pub fn get_next_hop(&self, circuit_id: CircuitId) -> (r: Option<NodeId>)
        requires
            self.wf(),
        ensures
            ({
                let r_spec: Option<NodeId> = if has_cid(self.circuits_model(), circuit_id) {
                    let c = circuit_with(self.circuits_model(), circuit_id);
                    if c.current_hop < c.hops@.len() {
                        Some(c.hops@[c.current_hop as int])
                    } else {
                        None
                    }
                } else {
                    None
                };
                r == r_spec
            }),
    {
        match self.find_index(circuit_id) {
            Some(i) => {
                proof {
                    self.lemma_found_is_choice(i as int, circuit_id);
                }
                let c = &self.circuits[i];
                if c.current_hop < c.hops.len() {
                    Some(NodeId(c.hops[c.current_hop].0))
                } else {
                    None
                }
            },
            None => None,
        }
    }

    /// The exit node of a circuit: its last hop, or nothing when the hop
    /// list is empty or the id is unknown.
    pub fn get_exit_node(&self, circuit_id: CircuitId) -> (r: Option<NodeId>)
        requires
            self.wf(),
        ensures
            ({
                let r_spec: Option<NodeId> = if has_cid(self.circuits_model(), circuit_id) {
                    let c = circuit_with(self.circuits_model(), circuit_id);
                    if c.hops@.len() > 0 {
                        Some(c.hops@.last())
                    } else {
                        None
                    }
                } else {
                    None
                };
                r == r_spec
            }),
    {
        match self.find_index(circuit_id) {
            Some(i) => {
                proof {
                    self.lemma_found_is_choice(i as int, circuit_id);
                }
                let c = &self.circuits[i];
                if c.hops.len() > 0 {
                    Some(NodeId(c.hops[c.hops.len() - 1].0))
                } else {
                    None
                }
            },
            None => None,
        }
    }
}

} // verus!
