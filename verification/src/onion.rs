//! Onion-circuit subsystem: route selection from the node pool, a per-hop
//! key schedule, layered encrypt/decrypt, and the circuit lifecycle state
//! machine.
//!
//! The layered cipher is a byte-wise XOR of the payload against each key in
//! turn, keys cycling across the payload. Encryption applies the keys in
//! reverse order, decryption in forward order; because XOR is self-inverse
//! the two round-trip, which `lemma_onion_round_trip` proves.

use crate::digest::{hex_of, sha3_256, sha3_256_of, hex_encode, lemma_hex_of_len};
use crate::entropy::{random_bytes, unix_time_nanos, unix_time_secs};
use crate::textutil::{dec_chars, u128_to_dec_bytes, u64_to_string};
use rand::seq::SliceRandom;
use vstd::prelude::*;
use vstd::seq_lib::group_seq_properties;
use vstd::string::StrSliceExecFns;
use vstd::string::StringExecFns;

verus! {

broadcast use group_seq_properties;

/// A node identifier in the onion overlay, by name.
#[derive(Debug)]
pub struct NodeId(pub String);

impl View for NodeId {
    type V = Seq<char>;

    open spec fn view(&self) -> Seq<char> {
        self.0@
    }
}

impl Clone for NodeId {
    fn clone(&self) -> (r: Self)
        ensures
            r == *self,
    {
        NodeId(self.0.clone())
    }
}

/// The names of a sequence of nodes.
pub open spec fn ids_view(nodes: Seq<NodeId>) -> Seq<Seq<char>> {
    nodes.map_values(|n: NodeId| n@)
}

/// UTF-8 bytes of the concatenated hop names, the input of a route id.
pub open spec fn hops_bytes(hops: Seq<Seq<char>>) -> Seq<u8>
    decreases hops.len(),
{
    if hops.len() == 0 {
        seq![]
    } else {
        vstd::utf8::encode_utf8(hops.first()) + hops_bytes(hops.drop_first())
    }
}

/// Mathematical model of an onion route.
pub ghost struct RouteModel {
    pub route_id: Seq<char>,
    pub hops: Seq<Seq<char>>,
    pub keys: Seq<Seq<u8>>,
    pub created_at: u64,
    pub expires_at: u64,
}

/// A multi-hop route with one symmetric key per hop.
#[derive(Debug)]
pub struct OnionRoute {
    pub route_id: String,
    pub hops: Vec<NodeId>,
    pub symmetric_keys: Vec<Vec<u8>>,
    pub created_at: u64,
    pub expires_at: u64,
}

impl View for OnionRoute {
    type V = RouteModel;

    open spec fn view(&self) -> RouteModel {
        RouteModel {
            route_id: self.route_id@,
            hops: ids_view(self.hops@),
            keys: self.symmetric_keys.deep_view(),
            created_at: self.created_at,
            expires_at: self.expires_at,
        }
    }
}

/// A route is well formed when it has one 32-byte key per hop.
pub open spec fn route_wf(r: RouteModel) -> bool {
    &&& r.keys.len() == r.hops.len()
    &&& forall|i: int| 0 <= i < r.keys.len() ==> #[trigger] r.keys[i].len() == 32
}

impl Clone for OnionRoute {
    fn clone(&self) -> (r: Self)
        ensures
            r@ == self@,
    {
        let mut hops: Vec<NodeId> = Vec::new();
        let mut i: usize = 0;
        while i < self.hops.len()
            invariant
                i <= self.hops.len(),
                hops@ =~= self.hops@.subrange(0, i as int),
            decreases self.hops.len() - i,
        {
            hops.push(self.hops[i].clone());
            i = i + 1;
        }
        let mut keys: Vec<Vec<u8>> = Vec::new();
        let mut j: usize = 0;
        while j < self.symmetric_keys.len()
            invariant
                j <= self.symmetric_keys.len(),
                keys@.len() == j,
                forall|t: int| 0 <= t < j ==> #[trigger] keys@[t]@ == self.symmetric_keys@[t]@,
            decreases self.symmetric_keys.len() - j,
        {
            let k = self.symmetric_keys[j].clone();
            assert(k@ =~= self.symmetric_keys@[j as int]@);
            keys.push(k);
            j = j + 1;
        }
        proof {
            assert(keys.deep_view() =~= self.symmetric_keys.deep_view());
        }
        let r = OnionRoute {
            route_id: self.route_id.clone(),
            hops,
            symmetric_keys: keys,
            created_at: self.created_at,
            expires_at: self.expires_at,
        };
        proof {
            assert(r@.hops =~= self@.hops);
            assert(r@.keys =~= self@.keys);
        }
        r
    }
}

/// Lifecycle of an onion circuit; states only advance along this order.
#[derive(Clone, Copy, Debug, PartialEq, Eq, Structural)]
pub enum CircuitState {
    Building,
    Ready,
    Closing,
    Closed,
}

/// Position of a state along the Building -> Ready -> Closing -> Closed order.
pub open spec fn state_rank(s: CircuitState) -> int {
    match s {
        CircuitState::Building => 0,
        CircuitState::Ready => 1,
        CircuitState::Closing => 2,
        CircuitState::Closed => 3,
    }
}

/// A transition is allowed exactly when it moves forward (or stays) along
/// the lifecycle order; no state is ever left backwards.
pub open spec fn allowed_transition(a: CircuitState, b: CircuitState) -> bool {
    state_rank(a) <= state_rank(b)
}

/// Mathematical model of an onion circuit.
pub ghost struct CircuitModel {
    pub circuit_id: Seq<char>,
    pub route: RouteModel,
    pub state: CircuitState,
}

/// An established circuit: an identifier, its route, and a lifecycle state.
#[derive(Debug)]
pub struct OnionCircuit {
    pub circuit_id: String,
    pub route: OnionRoute,
    pub state: CircuitState,
}

impl View for OnionCircuit {
    type V = CircuitModel;

    open spec fn view(&self) -> CircuitModel {
        CircuitModel { circuit_id: self.circuit_id@, route: self.route@, state: self.state }
    }
}

impl Clone for OnionCircuit {
    fn clone(&self) -> (r: Self)
        ensures
            r@ == self@,
    {
        OnionCircuit {
            circuit_id: self.circuit_id.clone(),
            route: self.route.clone(),
            state: self.state,
        }
    }
}

/// One XOR pass of a key over the data, the key cycling across it. An empty
/// key yields an empty result, as a cycle over nothing produces nothing.
pub open spec fn xor_with_key(data: Seq<u8>, key: Seq<u8>) -> Seq<u8> {
    if key.len() == 0 {
        Seq::empty()
    } else {
        Seq::new(data.len(), |i: int| data[i] ^ key[i % (key.len() as int)])
    }
}

/// Layered encryption: the keys are applied in reverse order, so the first
/// key forms the outermost layer and the exit node's layer sits innermost.
pub open spec fn layered_encrypt(payload: Seq<u8>, keys: Seq<Seq<u8>>) -> Seq<u8>
    decreases keys.len(),
{
    if keys.len() == 0 {
        payload
    } else {
        layered_encrypt(xor_with_key(payload, keys.last()), keys.drop_last())
    }
}

/// Layered decryption: the keys are applied in forward order, each hop
/// stripping the outermost remaining layer.
pub open spec fn layered_decrypt(data: Seq<u8>, keys: Seq<Seq<u8>>) -> Seq<u8>
    decreases keys.len(),
{
    if keys.len() == 0 {
        data
    } else {
        layered_decrypt(xor_with_key(data, keys.first()), keys.drop_first())
    }
}

/// XOR of one key over the data, the key cycling.
fn xor_encrypt(data: &[u8], key: &[u8]) -> (r: Vec<u8>)
    ensures
        r@ == xor_with_key(data@, key@),
{
    let mut out: Vec<u8> = Vec::new();
    if key.len() == 0 {
        return out;
    }
    let mut i: usize = 0;
    while i < data.len()
        invariant
            key@.len() > 0,
            i <= data.len(),
            out@ =~= xor_with_key(data@, key@).subrange(0, i as int),
        decreases data.len() - i,
    {
        out.push(data[i] ^ key[i % key.len()]);
        i = i + 1;
    }
    proof {
        assert(out@ =~= xor_with_key(data@, key@));
    }
    out
}

proof fn lemma_xor_involutive(data: Seq<u8>, key: Seq<u8>)
    requires
        key.len() > 0,
    ensures
        xor_with_key(xor_with_key(data, key), key) == data,
{
    assert(forall|a: u8, b: u8| ((a ^ b) ^ b) == a) by (bit_vector);
    assert(xor_with_key(xor_with_key(data, key), key) =~= data);
}

proof fn lemma_encrypt_outermost(p: Seq<u8>, keys: Seq<Seq<u8>>)
    requires
        keys.len() > 0,
    ensures
        layered_encrypt(p, keys) == xor_with_key(layered_encrypt(p, keys.drop_first()), keys.first()),
    decreases keys.len(),
{
    if keys.len() == 1 {
        assert(keys.drop_last() =~= Seq::<Seq<u8>>::empty());
        assert(keys.drop_first() =~= Seq::<Seq<u8>>::empty());
        assert(keys.first() == keys.last());
        let inner = xor_with_key(p, keys.last());
        assert(layered_encrypt(p, keys) == layered_encrypt(inner, keys.drop_last()));
        assert(layered_encrypt(inner, keys.drop_last()) == inner);
        assert(layered_encrypt(p, keys.drop_first()) == p);
    } else {
        let inner = xor_with_key(p, keys.last());
        assert(layered_encrypt(p, keys) == layered_encrypt(inner, keys.drop_last()));
        lemma_encrypt_outermost(inner, keys.drop_last());
        assert(keys.drop_last().first() == keys.first());
        assert(keys.drop_last().drop_first() =~= keys.drop_first().drop_last());
        assert(layered_encrypt(p, keys) == xor_with_key(
            layered_encrypt(inner, keys.drop_first().drop_last()),
            keys.first(),
        ));
        assert(keys.drop_first().last() == keys.last());
        assert(xor_with_key(p, keys.drop_first().last()) == inner);
        assert(layered_encrypt(p, keys.drop_first()) == layered_encrypt(
            inner,
            keys.drop_first().drop_last(),
        ));
    }
}

/// There is a circuit with this id.
pub open spec fn has_circuit(cs: Seq<CircuitModel>, id: Seq<char>) -> bool {
    exists|i: int| 0 <= i < cs.len() && cs[i].circuit_id == id
}

/// The circuit with this id; meaningful when ids are unique and one exists.
pub open spec fn circuit_at(cs: Seq<CircuitModel>, id: Seq<char>) -> CircuitModel {
    cs[choose|i: int| 0 <= i < cs.len() && cs[i].circuit_id == id]
}

/// The table after replacing the circuit with this id.
pub open spec fn circuits_updated(cs: Seq<CircuitModel>, id: Seq<char>, c: CircuitModel) -> Seq<
    CircuitModel,
> {
    cs.update(choose|i: int| 0 <= i < cs.len() && cs[i].circuit_id == id, c)
}

/// The table after inserting a circuit: an existing entry with the same id
/// is replaced, otherwise the circuit is appended.
pub open spec fn circuits_upserted(cs: Seq<CircuitModel>, c: CircuitModel) -> Seq<CircuitModel> {
    if has_circuit(cs, c.circuit_id) {
        circuits_updated(cs, c.circuit_id, c)
    } else {
        cs.push(c)
    }
}

/// There is a cached route under this id.
pub open spec fn has_route(cache: Seq<(Seq<char>, RouteModel)>, id: Seq<char>) -> bool {
    exists|i: int| 0 <= i < cache.len() && cache[i].0 == id
}

/// The cache after inserting a route, replacing any entry under the same id.
pub open spec fn routes_upserted(
    cache: Seq<(Seq<char>, RouteModel)>,
    id: Seq<char>,
    r: RouteModel,
) -> Seq<(Seq<char>, RouteModel)> {
    if has_route(cache, id) {
        cache.update(choose|i: int| 0 <= i < cache.len() && cache[i].0 == id, (id, r))
    } else {
        cache.push((id, r))
    }
}

/// Route selection, key schedule, and circuit lifecycle over a pool of
/// registered nodes.
pub struct OnionRouter {
    circuits: Vec<OnionCircuit>,
    available_nodes: Vec<NodeId>,
    route_cache: Vec<(String, OnionRoute)>,
}

/// Relies on rand::seq::SliceRandom::shuffle: a random permutation of the
/// input; the result holds exactly the same elements.
#[verifier::external_body]
fn shuffled_nodes(nodes: &Vec<NodeId>) -> (r: Vec<NodeId>)
    ensures
        r@.to_multiset() == nodes@.to_multiset(),
{
    let mut v = nodes.clone();
    v.shuffle(&mut rand::thread_rng());
    v
}

/// A fresh 256-bit symmetric key, derived by hashing the current
/// nanosecond timestamp.
fn generate_symmetric_key() -> (r: Vec<u8>)
    ensures
        r@.len() == 32,
{
    let nanos = unix_time_nanos();
    let digits = u128_to_dec_bytes(nanos);
    sha3_256(digits.as_slice())
}

proof fn lemma_hops_bytes_push(s: Seq<Seq<char>>, x: Seq<char>)
    ensures
        hops_bytes(s.push(x)) == hops_bytes(s) + vstd::utf8::encode_utf8(x),
    decreases s.len(),
{
    if s.len() == 0 {
        assert(s.push(x).drop_first() =~= Seq::<Seq<char>>::empty());
        assert(s.push(x).first() == x);
        assert(hops_bytes(Seq::<Seq<char>>::empty()) == Seq::<u8>::empty());
        assert(hops_bytes(s.push(x)) =~= vstd::utf8::encode_utf8(x));
        assert(hops_bytes(s) + vstd::utf8::encode_utf8(x) =~= vstd::utf8::encode_utf8(x));
    } else {
        lemma_hops_bytes_push(s.drop_first(), x);
        assert(s.push(x).drop_first() =~= s.drop_first().push(x));
        assert(s.push(x).first() == s.first());
        assert(hops_bytes(s.push(x)) =~= hops_bytes(s) + vstd::utf8::encode_utf8(x));
    }
}

/// The route id: hex of the SHA3-256 digest over the concatenated hop names.
fn generate_route_id(hops: &Vec<NodeId>) -> (r: String)
    ensures
        r@ == hex_of(sha3_256_of(hops_bytes(ids_view(hops@)))),
{
    let mut bytes: Vec<u8> = Vec::new();
    let mut i: usize = 0;
    while i < hops.len()
        invariant
            i <= hops.len(),
            bytes@ == hops_bytes(ids_view(hops@).take(i as int)),
        decreases hops.len() - i,
    {
        let mut hb = hops[i].0.as_str().as_bytes_vec();
        proof {
            lemma_hops_bytes_push(ids_view(hops@).take(i as int), hops@[i as int]@);
            assert(ids_view(hops@).take(i + 1) =~= ids_view(hops@).take(i as int).push(
                hops@[i as int]@,
            ));
        }
        bytes.append(&mut hb);
        i = i + 1;
    }
    proof {
        assert(ids_view(hops@).take(hops@.len() as int) =~= ids_view(hops@));
    }
    let digest = sha3_256(bytes.as_slice());
    hex_encode(digest.as_slice())
}

/// A fresh circuit id: 128 random bits, hex-encoded.
fn generate_circuit_id() -> (r: String)
    ensures
        r@.len() == 32,
{
    let bytes = random_bytes(16);
    let s = hex_encode(bytes.as_slice());
    proof {
        lemma_hex_of_len(bytes@);
    }
    s
}

impl OnionRouter {
    /// The circuits table, as a sequence of models.
    pub closed spec fn circuits_model(&self) -> Seq<CircuitModel> {
        self.circuits@.map_values(|c: OnionCircuit| c@)
    }

    /// The names of the registered nodes, in registration order.
    pub closed spec fn pool_model(&self) -> Seq<Seq<char>> {
        ids_view(self.available_nodes@)
    }

    /// The route cache, as id/route pairs.
    pub closed spec fn cache_model(&self) -> Seq<(Seq<char>, RouteModel)> {
        self.route_cache@.map_values(|p: (String, OnionRoute)| (p.0@, p.1@))
    }

    /// The registered nodes as a multiset, for permutation statements.
    pub closed spec fn nodes_multiset(&self) -> vstd::multiset::Multiset<NodeId> {
        self.available_nodes@.to_multiset()
    }

    /// Well-formedness: circuit ids and cache keys are unique, and every
    /// stored route has one 32-byte key per hop.
    pub open spec fn wf(&self) -> bool {
        &&& forall|i: int, j: int|
            0 <= i < j < self.circuits_model().len() ==> self.circuits_model()[i].circuit_id
                != self.circuits_model()[j].circuit_id
        &&& forall|i: int|
            0 <= i < self.circuits_model().len() ==> route_wf(
                #[trigger] self.circuits_model()[i].route,
            )
        &&& forall|i: int, j: int|
            0 <= i < j < self.cache_model().len() ==> self.cache_model()[i].0
                != self.cache_model()[j].0
    }

    proof fn lemma_found_is_choice(&self, i: int, id: Seq<char>)
        requires
            forall|a: int, b: int|
                0 <= a < b < self.circuits_model().len() ==> self.circuits_model()[a].circuit_id
                    != self.circuits_model()[b].circuit_id,
            0 <= i < self.circuits_model().len(),
            self.circuits_model()[i].circuit_id == id,
        ensures
            has_circuit(self.circuits_model(), id),
            (choose|j: int|
                0 <= j < self.circuits_model().len() && self.circuits_model()[j].circuit_id == id)
                == i,
    {
        let cs = self.circuits_model();
        assert(has_circuit(cs, id));
        let j = choose|j: int| 0 <= j < cs.len() && cs[j].circuit_id == id;
        if i < j {
            assert(cs[i].circuit_id != cs[j].circuit_id);
        } else if j < i {
            assert(cs[j].circuit_id != cs[i].circuit_id);
        }
    }

    proof fn lemma_cache_found_is_choice(&self, i: int, id: Seq<char>)
        requires
            forall|a: int, b: int|
                0 <= a < b < self.cache_model().len() ==> self.cache_model()[a].0
                    != self.cache_model()[b].0,
            0 <= i < self.cache_model().len(),
            self.cache_model()[i].0 == id,
        ensures
            has_route(self.cache_model(), id),
            (choose|j: int| 0 <= j < self.cache_model().len() && self.cache_model()[j].0 == id)
                == i,
    {
        let cs = self.cache_model();
        assert(has_route(cs, id));
        let j = choose|j: int| 0 <= j < cs.len() && cs[j].0 == id;
        if i < j {
            assert(cs[i].0 != cs[j].0);
        } else if j < i {
            assert(cs[j].0 != cs[i].0);
        }
    }

    pub fn new() -> (r: OnionRouter)
        ensures
            r.circuits_model() == Seq::<CircuitModel>::empty(),
            r.pool_model() == Seq::<Seq<char>>::empty(),
            r.cache_model() == Seq::<(Seq<char>, RouteModel)>::empty(),
            r.wf(),
    {
        let r = OnionRouter { circuits: Vec::new(), available_nodes: Vec::new(), route_cache: Vec::new() };
        proof {
            assert(r.circuits_model() =~= Seq::<CircuitModel>::empty());
            assert(r.pool_model() =~= Seq::<Seq<char>>::empty());
            assert(r.cache_model() =~= Seq::<(Seq<char>, RouteModel)>::empty());
        }
        r
    }

    /// Add a node to the pool used for route selection; a name already in
    /// the pool is not added twice.
    pub fn register_node(&mut self, node_id: NodeId)
        ensures
            final(self).circuits_model() == old(self).circuits_model(),
            final(self).cache_model() == old(self).cache_model(),
            final(self).pool_model() == if old(self).pool_model().contains(node_id@) {
                old(self).pool_model()
            } else {
                old(self).pool_model().push(node_id@)
            },
            old(self).wf() ==> final(self).wf(),
    {
        let mut i: usize = 0;
        let mut found = false;
        while i < self.available_nodes.len()
            invariant
                i <= self.available_nodes.len(),
                found == exists|j: int| 0 <= j < i && ids_view(self.available_nodes@)[j] == node_id@,
            decreases self.available_nodes.len() - i,
        {
            proof {
                assert(ids_view(self.available_nodes@)[i as int] == self.available_nodes@[i as int].0@);
            }
            if crate::textutil::str_eq(self.available_nodes[i].0.as_str(), node_id.0.as_str()) {
                found = true;
            }
            i = i + 1;
        }
        if !found {
            let ghost old_pool = self.pool_model();
            self.available_nodes.push(node_id);
            proof {
                assert(self.pool_model() =~= old_pool.push(self.available_nodes@.last()@));
            }
        }
        proof {
            assert(self.circuits_model() == old(self).circuits_model());
            assert(self.cache_model() == old(self).cache_model());
        }
    }

    /// Build a multi-hop route through randomly chosen registered nodes:
    /// the hops are a prefix of a random permutation of the pool, each hop
    /// gets a fresh 256-bit key, and the route id is the hex SHA3-256 digest
    /// of the concatenated hop names. Fails exactly when the pool is smaller
    /// than the requested hop count.
    pub fn build_route(&self, num_hops: usize) -> (r: Result<OnionRoute, String>)
        ensures
            r is Ok <==> num_hops <= self.pool_model().len(),
            match r {
                Ok(route) => {
                    &&& route@.hops.len() == num_hops
                    &&& route_wf(route@)
                    &&& exists|s: Seq<NodeId>|
                        (#[trigger] s.to_multiset()) == self.nodes_multiset() && route@.hops
                            == ids_view(s.take(num_hops as int))
                    &&& forall|i: int|
                        0 <= i < num_hops ==> self.pool_model().contains(#[trigger] route@.hops[i])
                    &&& route@.route_id == hex_of(sha3_256_of(hops_bytes(route@.hops)))
                    &&& route@.expires_at == if route@.created_at <= u64::MAX - 3600 {
                        route@.created_at + 3600
                    } else {
                        route@.created_at as int
                    }
                },
                Err(e) => e@ == "Not enough nodes available: have "@ + dec_chars(
                    self.pool_model().len(),
                ) + ", need "@ + dec_chars(num_hops as nat),
            },
    {
        broadcast use vstd::seq_lib::group_to_multiset_ensures;

        if self.available_nodes.len() < num_hops {
            let mut msg = String::from_str("Not enough nodes available: have ");
            let have = u64_to_string(self.available_nodes.len() as u64);
            msg.append(have.as_str());
            msg.append(", need ");
            let need = u64_to_string(num_hops as u64);
            msg.append(need.as_str());
            return Err(msg);
        }
        let shuffled = shuffled_nodes(&self.available_nodes);
        proof {
            assert(shuffled@.len() == shuffled@.to_multiset().len());
            assert(self.available_nodes@.len() == self.available_nodes@.to_multiset().len());
        }
        let mut hops: Vec<NodeId> = Vec::new();
        let mut i: usize = 0;
        while i < num_hops
            invariant
                i <= num_hops,
                num_hops <= shuffled@.len(),
                hops@ == shuffled@.subrange(0, i as int),
            decreases num_hops - i,
        {
            hops.push(shuffled[i].clone());
            proof {
                assert(hops@ =~= shuffled@.subrange(0, i + 1));
            }
            i = i + 1;
        }
        let mut keys: Vec<Vec<u8>> = Vec::new();
        let mut j: usize = 0;
        while j < num_hops
            invariant
                j <= num_hops,
                keys@.len() == j,
                forall|t: int| 0 <= t < j ==> (#[trigger] keys@[t])@.len() == 32,
            decreases num_hops - j,
        {
            keys.push(generate_symmetric_key());
            j = j + 1;
        }
        let route_id = generate_route_id(&hops);
        let created_at = unix_time_secs();
        let expires_at = if created_at <= u64::MAX - 3600 {
            created_at + 3600
        } else {
            created_at
        };
        let route = OnionRoute { route_id, hops, symmetric_keys: keys, created_at, expires_at };
        proof {
            assert(route@.hops =~= ids_view(shuffled@.take(num_hops as int)));
            assert forall|t: int| 0 <= t < num_hops implies (#[trigger] route@.keys[t]).len()
                == 32 by {
                assert(route@.keys[t] == route.symmetric_keys@[t]@);
            }
            assert(route_wf(route@));
            assert(shuffled@.to_multiset() == self.nodes_multiset());
            assert forall|t: int|
                0 <= t < num_hops implies self.pool_model().contains(
                #[trigger] route@.hops[t],
            ) by {
                let e = shuffled@[t];
                assert(shuffled@.contains(e));
                assert(shuffled@.to_multiset().contains(e));
                assert(self.available_nodes@.to_multiset().contains(e));
                assert(self.available_nodes@.contains(e));
                let w = choose|w: int|
                    0 <= w < self.available_nodes@.len() && self.available_nodes@[w] == e;
                assert(self.pool_model()[w] == e@);
                assert(route@.hops[t] == e@);
            }
        }
        Ok(route)
    }

    /// Build a route and record a new circuit over it, in the Building
    /// state; the fresh circuit id (32 hex characters) is returned and the
    /// route is cached under it. Fails exactly when the pool is too small.
    pub fn establish_circuit(&mut self, num_hops: usize) -> (r: Result<String, String>)
        requires
            old(self).wf(),
        ensures
            final(self).wf(),
            final(self).pool_model() == old(self).pool_model(),
            r is Ok <==> num_hops <= old(self).pool_model().len(),
            match r {
                Ok(id) => {
                    &&& id@.len() == 32
                    &&& has_circuit(final(self).circuits_model(), id@)
                    &&& {
                        let c = circuit_at(final(self).circuits_model(), id@);
                        &&& c.state == CircuitState::Building
                        &&& c.route.hops.len() == num_hops
                        &&& route_wf(c.route)
                        &&& forall|i: int|
                            0 <= i < num_hops ==> old(self).pool_model().contains(
                                #[trigger] c.route.hops[i],
                            )
                        &&& final(self).circuits_model() == circuits_upserted(
                            old(self).circuits_model(),
                            c,
                        )
                        &&& final(self).cache_model() == routes_upserted(
                            old(self).cache_model(),
                            id@,
                            c.route,
                        )
                    }
                },
                Err(_) => final(self).circuits_model() == old(self).circuits_model()
                    && final(self).cache_model() == old(self).cache_model(),
            },
    {
        let route = match self.build_route(num_hops) {
            Ok(route) => route,
            Err(e) => {
                return Err(e);
            },
        };
        let circuit_id = generate_circuit_id();
        let circuit = OnionCircuit {
            circuit_id: circuit_id.clone(),
            route: route.clone(),
            state: CircuitState::Building,
        };
        let ghost cm = circuit@;
        let ghost old_model = self.circuits_model();
        match self.find_circuit_index(circuit_id.as_str()) {
            Some(i) => {
                proof {
                    self.lemma_found_is_choice(i as int, circuit_id@);
                }
                self.circuits.set(i, circuit);
                proof {
                    assert(self.circuits_model() =~= circuits_updated(old_model, cm.circuit_id, cm));
                }
            },
            None => {
                self.circuits.push(circuit);
                proof {
                    assert(self.circuits_model() =~= old_model.push(cm));
                }
            },
        }
        let ghost old_cache = self.cache_model();
        proof {
            assert(self.cache_model() == old(self).cache_model());
        }
        match self.find_cache_index(circuit_id.as_str()) {
            Some(k) => {
                proof {
                    self.lemma_cache_found_is_choice(k as int, circuit_id@);
                }
                self.route_cache.set(k, (circuit_id.clone(), route));
                proof {
                    assert(self.cache_model() =~= routes_upserted(old_cache, circuit_id@, cm.route));
                }
            },
            None => {
                self.route_cache.push((circuit_id.clone(), route));
                proof {
                    assert(self.cache_model() =~= old_cache.push((circuit_id@, cm.route)));
                }
            },
        }
        proof {
            let cs0 = old_model;
            let cs1 = self.circuits_model();
            assert forall|i: int, j: int| 0 <= i < j < cs1.len() implies cs1[i].circuit_id
                != cs1[j].circuit_id by {
                if has_circuit(cs0, cm.circuit_id) {
                    let t = choose|t: int| 0 <= t < cs0.len() && cs0[t].circuit_id == cm.circuit_id;
                    assert(cs1[i].circuit_id == cs0[i].circuit_id);
                    assert(cs1[j].circuit_id == cs0[j].circuit_id);
                } else {
                    if j == cs0.len() {
                        assert(cs1[j].circuit_id == cm.circuit_id);
                        assert(!(0 <= i < cs0.len() && cs0[i].circuit_id == cm.circuit_id));
                    }
                }
            }
            assert forall|i: int| 0 <= i < cs1.len() implies route_wf(
                #[trigger] cs1[i].route,
            ) by {
                if has_circuit(cs0, cm.circuit_id) {
                    let t = choose|t: int| 0 <= t < cs0.len() && cs0[t].circuit_id == cm.circuit_id;
                    if i != t {
                        assert(cs1[i] == cs0[i]);
                    }
                } else {
                    if i < cs0.len() {
                        assert(cs1[i] == cs0[i]);
                    }
                }
            }
            let ca0 = old_cache;
            let ca1 = self.cache_model();
            assert forall|i: int, j: int| 0 <= i < j < ca1.len() implies ca1[i].0 != ca1[j].0 by {
                if has_route(ca0, circuit_id@) {
                    let t = choose|t: int| 0 <= t < ca0.len() && ca0[t].0 == circuit_id@;
                    assert(ca1[i].0 == ca0[i].0);
                    assert(ca1[j].0 == ca0[j].0);
                } else {
                    if j == ca0.len() {
                        assert(ca1[j].0 == circuit_id@);
                        assert(!(0 <= i < ca0.len() && ca0[i].0 == circuit_id@));
                    }
                }
            }
            // the inserted circuit is the one found under its id afterwards
            let pos: int = if has_circuit(cs0, cm.circuit_id) {
                choose|t: int| 0 <= t < cs0.len() && cs0[t].circuit_id == cm.circuit_id
            } else {
                cs0.len() as int
            };
            assert(0 <= pos < cs1.len() && cs1[pos] == cm);
            assert(has_circuit(cs1, cm.circuit_id));
            let u = choose|u: int| 0 <= u < cs1.len() && cs1[u].circuit_id == cm.circuit_id;
            if u < pos {
                assert(cs1[u].circuit_id != cs1[pos].circuit_id);
            } else if pos < u {
                assert(cs1[pos].circuit_id != cs1[u].circuit_id);
            }
            assert(circuit_at(cs1, cm.circuit_id) == cm);
        }
        Ok(circuit_id)
    }

    /// Look up a circuit's position in the table.
    fn find_circuit_index(&self, circuit_id: &str) -> (r: Option<usize>)
        ensures
            match r {
                Some(i) => i < self.circuits_model().len() && self.circuits_model()[i as int].circuit_id
                    == circuit_id@,
                None => !has_circuit(self.circuits_model(), circuit_id@),
            },
    {
        let mut i: usize = 0;
        while i < self.circuits.len()
            invariant
                i <= self.circuits.len(),
                forall|j: int| 0 <= j < i ==> self.circuits_model()[j].circuit_id != circuit_id@,
            decreases self.circuits.len() - i,
        {
            if crate::textutil::str_eq(self.circuits[i].circuit_id.as_str(), circuit_id) {
                return Some(i);
            }
            i = i + 1;
        }
        None
    }

    /// Look up a cached route's position.
    fn find_cache_index(&self, id: &str) -> (r: Option<usize>)
        ensures
            match r {
                Some(i) => i < self.cache_model().len() && self.cache_model()[i as int].0 == id@,
                None => !has_route(self.cache_model(), id@),
            },
    {
        let mut i: usize = 0;
        while i < self.route_cache.len()
            invariant
                i <= self.route_cache.len(),
                forall|j: int| 0 <= j < i ==> self.cache_model()[j].0 != id@,
            decreases self.route_cache.len() - i,
        {
            if crate::textutil::str_eq(self.route_cache[i].0.as_str(), id) {
                return Some(i);
            }
            i = i + 1;
        }
        None
    }

    /// Mark a circuit ready for data. A Building circuit becomes Ready; a
    /// circuit further along its lifecycle is left as it is, so states never
    /// move backwards. An unknown id is an error.
    pub fn activate_circuit(&mut self, circuit_id: &str) -> (r: Result<(), String>)
        requires
            old(self).wf(),
        ensures
            final(self).wf(),
            final(self).pool_model() == old(self).pool_model(),
            final(self).cache_model() == old(self).cache_model(),
            r is Ok <==> has_circuit(old(self).circuits_model(), circuit_id@),
            has_circuit(old(self).circuits_model(), circuit_id@) ==> ({
                let before = circuit_at(old(self).circuits_model(), circuit_id@);
                let after = CircuitModel {
                    state: if before.state == CircuitState::Building {
                        CircuitState::Ready
                    } else {
                        before.state
                    },
                    ..before
                };
                &&& final(self).circuits_model() == circuits_updated(
                    old(self).circuits_model(),
                    circuit_id@,
                    after,
                )
                &&& allowed_transition(before.state, after.state)
            }),
            !has_circuit(old(self).circuits_model(), circuit_id@) ==> ({
                &&& final(self).circuits_model() == old(self).circuits_model()
                &&& r matches Err(e) && e@ == "Circuit "@ + circuit_id@ + " not found"@
            }),
    {
        match self.find_circuit_index(circuit_id) {
            Some(i) => {
                proof {
                    self.lemma_found_is_choice(i as int, circuit_id@);
                }
                let ghost old_model = self.circuits_model();
                let cid = self.circuits[i].circuit_id.clone();
                let rt = self.circuits[i].route.clone();
                let st = self.circuits[i].state;
                let new_state = if st == CircuitState::Building {
                    CircuitState::Ready
                } else {
                    st
                };
                self.circuits.set(i, OnionCircuit { circuit_id: cid, route: rt, state: new_state });
                proof {
                    let before = circuit_at(old_model, circuit_id@);
                    let after = CircuitModel {
                        state: if before.state == CircuitState::Building {
                            CircuitState::Ready
                        } else {
                            before.state
                        },
                        ..before
                    };
                    assert(self.circuits_model() =~= circuits_updated(
                        old_model,
                        circuit_id@,
                        after,
                    ));
                    assert forall|a: int, b: int|
                        0 <= a < b < self.circuits_model().len() implies self.circuits_model()[a].circuit_id
                        != self.circuits_model()[b].circuit_id by {
                        assert(self.circuits_model()[a].circuit_id == old_model[a].circuit_id);
                        assert(self.circuits_model()[b].circuit_id == old_model[b].circuit_id);
                    }
                    assert forall|a: int| 0 <= a < self.circuits_model().len() implies route_wf(
                        #[trigger] self.circuits_model()[a].route,
                    ) by {
                        if a != i {
                            assert(self.circuits_model()[a] == old_model[a]);
                        } else {
                            assert(self.circuits_model()[a].route == old_model[a].route);
                        }
                    }
                    assert(self.cache_model() == old(self).cache_model());
                    assert(self.pool_model() == old(self).pool_model());
                }
                Ok(())
            },
            None => {
                let mut msg = String::from_str("Circuit ");
                msg.append(circuit_id);
                msg.append(" not found");
                Err(msg)
            },
        }
    }

    /// The circuit stored under this id, if any.
    pub fn get_circuit(&self, circuit_id: &str) -> (r: Option<OnionCircuit>)
        requires
            self.wf(),
        ensures
            r is Some <==> has_circuit(self.circuits_model(), circuit_id@),
            match r {
                Some(c) => c@ == circuit_at(self.circuits_model(), circuit_id@) && route_wf(
                    c@.route,
                ),
                None => true,
            },
    {
        match self.find_circuit_index(circuit_id) {
            Some(i) => {
                proof {
                    self.lemma_found_is_choice(i as int, circuit_id@);
                }
                Some(self.circuits[i].clone())
            },
            None => None,
        }
    }

    /// Tear a circuit down: whatever its state, it ends Closed, the final
    /// state of the lifecycle. An unknown id is an error.
    pub fn close_circuit(&mut self, circuit_id: &str) -> (r: Result<(), String>)
        requires
            old(self).wf(),
        ensures
            final(self).wf(),
            final(self).pool_model() == old(self).pool_model(),
            final(self).cache_model() == old(self).cache_model(),
            r is Ok <==> has_circuit(old(self).circuits_model(), circuit_id@),
            has_circuit(old(self).circuits_model(), circuit_id@) ==> ({
                let before = circuit_at(old(self).circuits_model(), circuit_id@);
                let after = CircuitModel { state: CircuitState::Closed, ..before };
                &&& final(self).circuits_model() == circuits_updated(
                    old(self).circuits_model(),
                    circuit_id@,
                    after,
                )
                &&& allowed_transition(before.state, after.state)
            }),
            !has_circuit(old(self).circuits_model(), circuit_id@) ==> ({
                &&& final(self).circuits_model() == old(self).circuits_model()
                &&& r matches Err(e) && e@ == "Circuit "@ + circuit_id@ + " not found"@
            }),
    {
        match self.find_circuit_index(circuit_id) {
            Some(i) => {
                proof {
                    self.lemma_found_is_choice(i as int, circuit_id@);
                }
                let ghost old_model = self.circuits_model();
                let cid = self.circuits[i].circuit_id.clone();
                let rt = self.circuits[i].route.clone();
                self.circuits.set(
                    i,
                    OnionCircuit { circuit_id: cid, route: rt, state: CircuitState::Closed },
                );
                proof {
                    let before = circuit_at(old_model, circuit_id@);
                    let after = CircuitModel { state: CircuitState::Closed, ..before };
                    assert(self.circuits_model() =~= circuits_updated(
                        old_model,
                        circuit_id@,
                        after,
                    ));
                    assert forall|a: int, b: int|
                        0 <= a < b < self.circuits_model().len() implies self.circuits_model()[a].circuit_id
                        != self.circuits_model()[b].circuit_id by {
                        assert(self.circuits_model()[a].circuit_id == old_model[a].circuit_id);
                        assert(self.circuits_model()[b].circuit_id == old_model[b].circuit_id);
                    }
                    assert forall|a: int| 0 <= a < self.circuits_model().len() implies route_wf(
                        #[trigger] self.circuits_model()[a].route,
                    ) by {
                        if a != i {
                            assert(self.circuits_model()[a] == old_model[a]);
                        } else {
                            assert(self.circuits_model()[a].route == old_model[a].route);
                        }
                    }
                    assert(self.cache_model() == old(self).cache_model());
                    assert(self.pool_model() == old(self).pool_model());
                }
                Ok(())
            },
            None => {
                let mut msg = String::from_str("Circuit ");
                msg.append(circuit_id);
                msg.append(" not found");
                Err(msg)
            },
        }
    }

    /// Layer-encrypt a payload: the keys are applied in reverse order, so
    /// the exit node's layer is innermost and strips last.
    pub fn encrypt_payload(&self, payload: &[u8], symmetric_keys: &[Vec<u8>]) -> (r: Vec<u8>)
        ensures
            r@ == layered_encrypt(payload@, symmetric_keys.deep_view()),
    {
        let ghost kv = symmetric_keys.deep_view();
        let mut enc = vstd::slice::slice_to_vec(payload);
        let mut idx: usize = symmetric_keys.len();
        while idx > 0
            invariant
                idx <= symmetric_keys@.len(),
                kv == symmetric_keys.deep_view(),
                layered_encrypt(payload@, kv) == layered_encrypt(enc@, kv.take(idx as int)),
            decreases idx,
        {
            idx = idx - 1;
            let ghost prev = enc@;
            let next = xor_encrypt(enc.as_slice(), symmetric_keys[idx].as_slice());
            proof {
                assert(kv.take(idx + 1).last() == kv[idx as int]);
                assert(kv.take(idx + 1).drop_last() =~= kv.take(idx as int));
                assert(kv[idx as int] == symmetric_keys@[idx as int]@);
                assert(layered_encrypt(prev, kv.take(idx + 1)) == layered_encrypt(
                    xor_with_key(prev, kv[idx as int]),
                    kv.take(idx as int),
                ));
            }
            enc = next;
        }
        proof {
            assert(kv.take(0) =~= Seq::<Seq<u8>>::empty());
        }
        enc
    }

    /// Layer-decrypt a payload: the keys are applied in forward order, each
    /// hop stripping the outermost remaining layer.
    pub fn decrypt_payload(&self, encrypted: &[u8], symmetric_keys: &[Vec<u8>]) -> (r: Vec<u8>)
        ensures
            r@ == layered_decrypt(encrypted@, symmetric_keys.deep_view()),
    {
        let ghost kv = symmetric_keys.deep_view();
        let mut dec = vstd::slice::slice_to_vec(encrypted);
        let mut i: usize = 0;
        while i < symmetric_keys.len()
            invariant
                i <= symmetric_keys@.len(),
                kv == symmetric_keys.deep_view(),
                layered_decrypt(encrypted@, kv) == layered_decrypt(dec@, kv.skip(i as int)),
            decreases symmetric_keys@.len() - i,
        {
            let ghost prev = dec@;
            let next = xor_encrypt(dec.as_slice(), symmetric_keys[i].as_slice());
            proof {
                assert(kv.skip(i as int).first() == kv[i as int]);
                assert(kv.skip(i as int).drop_first() =~= kv.skip(i + 1));
                assert(kv[i as int] == symmetric_keys@[i as int]@);
                assert(layered_decrypt(prev, kv.skip(i as int)) == layered_decrypt(
                    xor_with_key(prev, kv[i as int]),
                    kv.skip(i + 1),
                ));
            }
            dec = next;
            i = i + 1;
        }
        proof {
            assert(kv.skip(kv.len() as int) =~= Seq::<Seq<u8>>::empty());
        }
        dec
    }
}

/// The layered cipher round-trips: encrypting a payload with a key schedule
/// (innermost layer applied first) and then decrypting with the same keys in
/// forward order restores the payload, for any schedule of nonempty keys.
pub proof fn lemma_onion_round_trip(p: Seq<u8>, keys: Seq<Seq<u8>>)
    requires
        forall|i: int| 0 <= i < keys.len() ==> #[trigger] keys[i].len() > 0,
    ensures
        layered_decrypt(layered_encrypt(p, keys), keys) == p,
    decreases keys.len(),
{
    if keys.len() > 0 {
        lemma_encrypt_outermost(p, keys);
        let e1 = layered_encrypt(p, keys.drop_first());
        assert(keys[0].len() > 0);
        lemma_xor_involutive(e1, keys.first());
        assert(forall|i: int|
            0 <= i < keys.drop_first().len() ==> #[trigger] keys.drop_first()[i].len() > 0);
        lemma_onion_round_trip(p, keys.drop_first());
    }
}

} // verus!
