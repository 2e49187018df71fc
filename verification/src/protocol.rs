//! The distributed directory: 256-bit node identifiers with the XOR
//! proximity metric, the k-bucket peer table, the domain registry and the
//! content store.

use crate::digest::{sha3_256, sha3_256_of};
use vstd::arithmetic::power::pow;
use vstd::multiset::Multiset;
use vstd::prelude::*;

verus! {

broadcast use vstd::array::group_array_axioms;

/// A 256-bit node identifier, derived from a public key by SHA3-256.
#[derive(Clone, Copy, Debug, PartialEq, Eq, Hash)]
pub struct NodeId(pub [u8; 32]);

impl View for NodeId {
    type V = Seq<u8>;

    open spec fn view(&self) -> Seq<u8> {
        self.0@
    }
}

/// Byte-wise XOR of two equal-length byte strings.
pub open spec fn xor_bytes(a: Seq<u8>, b: Seq<u8>) -> Seq<u8> {
    Seq::new(a.len(), |i: int| a[i] ^ b[i])
}

/// A byte string read as a big-endian unsigned integer.
pub open spec fn be_nat(s: Seq<u8>) -> nat
    decreases s.len(),
{
    if s.len() == 0 {
        0
    } else {
        (s.first() * pow(256, (s.len() - 1) as nat) + be_nat(s.drop_first())) as nat
    }
}

/// The XOR distance between two node ids: their bitwise XOR read as a
/// 256-bit big-endian unsigned integer.
pub open spec fn dist_nat(a: Seq<u8>, b: Seq<u8>) -> nat {
    be_nat(xor_bytes(a, b))
}

/// A big-endian value is bounded by the base power of its length.
pub proof fn lemma_be_nat_bound(s: Seq<u8>)
    ensures
        be_nat(s) < pow(256, s.len() as nat),
    decreases s.len(),
{
    reveal(pow);
    if s.len() == 0 {
        assert(pow(256, 0) == 1);
    } else {
        lemma_be_nat_bound(s.drop_first());
        let p = pow(256, (s.len() - 1) as nat);
        assert(pow(256, s.len() as nat) == 256 * p);
        assert(p > 0) by {
            vstd::arithmetic::power::lemma_pow_positive(256, (s.len() - 1) as nat);
        }
        assert(s.first() * p <= 255 * p) by (nonlinear_arith)
            requires
                s.first() <= 255,
                p > 0,
        ;
        assert(255 * p + p == 256 * p) by (nonlinear_arith);
    }
}

/// Equal prefixes and a smaller byte at the first difference order the
/// big-endian values strictly.
proof fn lemma_be_nat_prefix_lt(a: Seq<u8>, b: Seq<u8>, i: int)
    requires
        a.len() == b.len(),
        0 <= i < a.len(),
        forall|j: int| 0 <= j < i ==> a[j] == b[j],
        a[i] < b[i],
    ensures
        be_nat(a) < be_nat(b),
    decreases i,
{
    let p = pow(256, (a.len() - 1) as nat);
    assert(p > 0) by {
        vstd::arithmetic::power::lemma_pow_positive(256, (a.len() - 1) as nat);
    }
    assert(0 <= a.first() * p && 0 <= b.first() * p) by (nonlinear_arith)
        requires
            p > 0,
    ;
    if i == 0 {
        lemma_be_nat_bound(a.drop_first());
        lemma_be_nat_bound(b.drop_first());
        assert(p > 0) by {
            vstd::arithmetic::power::lemma_pow_positive(256, (a.len() - 1) as nat);
        }
        assert(a.first() * p + p <= b.first() * p) by (nonlinear_arith)
            requires
                a.first() < b.first(),
                p > 0,
        ;
        assert(be_nat(a) < a.first() * p + p);
        assert(0 <= b.first() * p) by (nonlinear_arith)
            requires
                p > 0,
        ;
        assert(be_nat(b) >= b.first() * p);
    } else {
        assert forall|j: int| 0 <= j < i - 1 implies a.drop_first()[j] == b.drop_first()[j] by {
            assert(a[j + 1] == b[j + 1]);
        }
        assert(a.drop_first()[i - 1] == a[i] && b.drop_first()[i - 1] == b[i]);
        lemma_be_nat_prefix_lt(a.drop_first(), b.drop_first(), i - 1);
        assert(a.first() == b.first());
        assert(be_nat(a) == (a.first() * p + be_nat(a.drop_first())) as nat);
        assert(be_nat(b) == (b.first() * p + be_nat(b.drop_first())) as nat);
    }
}

/// Equal-length byte strings compare big-endian exactly as they compare
/// lexicographically; stated through the first differing index.
proof fn lemma_be_nat_eq(a: Seq<u8>, b: Seq<u8>)
    requires
        a.len() == b.len(),
        forall|j: int| 0 <= j < a.len() ==> a[j] == b[j],
    ensures
        be_nat(a) == be_nat(b),
{
    assert(a =~= b);
}

/// The XOR metric is symmetric.
pub proof fn lemma_xor_distance_symmetric(a: Seq<u8>, b: Seq<u8>)
    requires
        a.len() == b.len(),
    ensures
        xor_bytes(a, b) == xor_bytes(b, a),
        dist_nat(a, b) == dist_nat(b, a),
{
    assert(forall|x: u8, y: u8| (x ^ y) == (y ^ x)) by (bit_vector);
    assert(xor_bytes(a, b) =~= xor_bytes(b, a));
}

/// A big-endian value of zero bytes is zero.
proof fn lemma_be_nat_zero(s: Seq<u8>)
    requires
        forall|j: int| 0 <= j < s.len() ==> s[j] == 0,
    ensures
        be_nat(s) == 0,
    decreases s.len(),
{
    if s.len() > 0 {
        lemma_be_nat_zero(s.drop_first());
    }
}

/// The XOR distance from an id to itself is zero.
pub proof fn lemma_xor_distance_self(a: Seq<u8>)
    ensures
        dist_nat(a, a) == 0,
{
    assert(forall|x: u8| (x ^ x) == 0) by (bit_vector);
    lemma_be_nat_zero(xor_bytes(a, a));
}

impl DHT {
    /// The XOR distance between two node ids, most significant byte first.
    pub fn xor_distance(a: &NodeId, b: &NodeId) -> (r: Vec<u8>)
        ensures
            r@ == xor_bytes(a@, b@),
            r@.len() == 32,
    {
        let mut out: Vec<u8> = Vec::new();
        let mut i: usize = 0;
        while i < 32
            invariant
                i <= 32,
                out@ =~= xor_bytes(a@, b@).subrange(0, i as int),
            decreases 32 - i,
        {
            out.push(a.0[i] ^ b.0[i]);
            i = i + 1;
        }
        proof {
            assert(out@ =~= xor_bytes(a@, b@));
        }
        out
    }
}

/// Whether `a` is at most as far from `target` as `b` is, by XOR distance.
pub fn xor_dist_le(a: &NodeId, b: &NodeId, target: &NodeId) -> (r: bool)
    ensures
        r == (dist_nat(a@, target@) <= dist_nat(b@, target@)),
{
    let ghost da = xor_bytes(a@, target@);
    let ghost db = xor_bytes(b@, target@);
    let mut i: usize = 0;
    while i < 32
        invariant
            i <= 32,
            da == xor_bytes(a@, target@),
            db == xor_bytes(b@, target@),
            forall|j: int| 0 <= j < i ==> da[j] == db[j],
        decreases 32 - i,
    {
        let xa = a.0[i] ^ target.0[i];
        let xb = b.0[i] ^ target.0[i];
        proof {
            assert(da[i as int] == xa);
            assert(db[i as int] == xb);
        }
        if xa < xb {
            proof {
                lemma_be_nat_prefix_lt(da, db, i as int);
            }
            return true;
        }
        if xa > xb {
            proof {
                lemma_be_nat_prefix_lt(db, da, i as int);
            }
            return false;
        }
        i = i + 1;
    }
    proof {
        lemma_be_nat_eq(da, db);
    }
    true
}

/// Mathematical model of a registered overlay address.
pub ghost struct AddressModel {
    pub domain: Seq<char>,
    pub node_id: Seq<u8>,
    pub pubkey: Seq<u8>,
}

/// A registered overlay address: a domain name, the owning node's id, and
/// the owner's public-key bytes. A domain maps to at most one address.
#[derive(Debug, PartialEq)]
pub struct FreedomAddress {
    pub domain: String,
    pub node_id: NodeId,
    pub ed25519_pubkey: Vec<u8>,
}

impl View for FreedomAddress {
    type V = AddressModel;

    open spec fn view(&self) -> AddressModel {
        AddressModel {
            domain: self.domain@,
            node_id: self.node_id@,
            pubkey: self.ed25519_pubkey@,
        }
    }
}

impl Clone for FreedomAddress {
    fn clone(&self) -> (r: Self)
        ensures
            r@ == self@,
    {
        let pk = self.ed25519_pubkey.clone();
        proof {
            assert(pk@ =~= self.ed25519_pubkey@);
        }
        FreedomAddress {
            domain: self.domain.clone(),
            node_id: NodeId(self.node_id.0),
            ed25519_pubkey: pk,
        }
    }
}

/// Metadata describing a stored content blob.
#[derive(Clone, Debug)]
pub struct ContentMetadata {
    pub hash: Vec<u8>,
    pub size: u64,
    pub content_type: String,
}

/// A known peer: its node id and socket address as "host:port".
#[derive(Debug)]
pub struct PeerInfo {
    pub node_id: NodeId,
    pub addr: String,
}

impl Clone for PeerInfo {
    fn clone(&self) -> (r: Self)
        ensures
            r == *self,
    {
        PeerInfo { node_id: NodeId(self.node_id.0), addr: self.addr.clone() }
    }
}

/// Messages of the directory protocol.
#[derive(Clone, Debug)]
pub enum DHTMessage {
    FindNode { target: NodeId, requesting_node: NodeId },
    StoreFreedomDomain { domain: String, owner_node: NodeId, pubkey: Vec<u8> },
    FindFreedomDomain { domain: String },
    PeersFound { peers: Vec<PeerInfo> },
    DomainOwner { domain: String, owner: Option<FreedomAddress> },
}

/// Messages of the circuit-relay protocol.
#[derive(Clone, Debug)]
pub enum RoutingMessage {
    BuildCircuit { hops: Vec<NodeId>, circuit_id: u32 },
    RelayData { circuit_id: u32, data: Vec<u8> },
    DestroyCircuit { circuit_id: u32 },
}

/// Messages of the content protocol.
#[derive(Clone, Debug)]
pub enum ContentMessage {
    GetContent { domain: String, path: String, circuit_id: u32 },
    ContentData { data: Vec<u8>, metadata: Option<ContentMetadata> },
    NotFound,
}

/// Size bound of one k-bucket: the classical Kademlia `k`.
pub const K_BUCKET_SIZE: usize = 20;

/// The XOR distance of a peer from a target id.
pub open spec fn peer_dist(p: PeerInfo, target: Seq<u8>) -> nat {
    dist_nat(p.node_id@, target)
}

/// Non-decreasing by XOR distance from the target.
pub open spec fn sorted_by_dist(s: Seq<PeerInfo>, target: Seq<u8>) -> bool {
    forall|i: int, j: int|
        0 <= i < j < s.len() ==> peer_dist(#[trigger] s[i], target) <= peer_dist(
            #[trigger] s[j],
            target,
        )
}

/// There is an address registered under this domain.
pub open spec fn has_domain(rm: Seq<AddressModel>, d: Seq<char>) -> bool {
    exists|i: int| 0 <= i < rm.len() && rm[i].domain == d
}

/// The address registered under this domain, when domains are unique.
pub open spec fn registry_lookup(rm: Seq<AddressModel>, d: Seq<char>) -> Option<AddressModel> {
    if has_domain(rm, d) {
        Some(rm[choose|i: int| 0 <= i < rm.len() && rm[i].domain == d])
    } else {
        None
    }
}

/// There is a blob stored under this domain.
pub open spec fn has_content(cm: Seq<(Seq<char>, Seq<u8>)>, d: Seq<char>) -> bool {
    exists|i: int| 0 <= i < cm.len() && cm[i].0 == d
}

/// The blob stored under this domain, when keys are unique.
pub open spec fn content_lookup(cm: Seq<(Seq<char>, Seq<u8>)>, d: Seq<char>) -> Option<Seq<u8>> {
    if has_content(cm, d) {
        Some(cm[choose|i: int| 0 <= i < cm.len() && cm[i].0 == d].1)
    } else {
        None
    }
}

/// The position of the leading differing bit between two 32-byte ids, read
/// as the index of the k-bucket a peer belongs to: bit length of the XOR
/// distance, minus one. Meaningful only for distinct ids.
pub open spec fn bucket_index(a: Seq<u8>, b: Seq<u8>) -> int {
    let i = first_diff_at(a, b, 0);
    (31 - i) * 8 + high_bit((a[i] ^ b[i]) as u8)
}

/// The first index at or after `i` where the strings differ, or -1.
pub open spec fn first_diff_at(a: Seq<u8>, b: Seq<u8>, i: int) -> int
    decreases a.len() - i,
{
    if i < 0 || i >= a.len() {
        -1
    } else if a[i] != b[i] {
        i
    } else {
        first_diff_at(a, b, i + 1)
    }
}

/// The index of the highest set bit of a nonzero byte.
pub open spec fn high_bit(x: u8) -> int {
    if x >= 128 {
        7
    } else if x >= 64 {
        6
    } else if x >= 32 {
        5
    } else if x >= 16 {
        4
    } else if x >= 8 {
        3
    } else if x >= 4 {
        2
    } else if x >= 2 {
        1
    } else {
        0
    }
}

/// A bucket after inserting a peer: bounded at `K_BUCKET_SIZE`, the
/// least-recently-seen peer (at the front) making room when it is full.
pub open spec fn bucket_push(b: Seq<PeerInfo>, p: PeerInfo) -> Seq<PeerInfo> {
    if b.len() < K_BUCKET_SIZE {
        b.push(p)
    } else {
        b.skip(1).push(p)
    }
}

/// Kademlia-style directory: 256 k-buckets of peers, a domain registry and
/// a content store.
pub struct DHT {
    kbuckets: Vec<Vec<PeerInfo>>,
    domain_registry: Vec<FreedomAddress>,
    content_store: Vec<(String, Vec<u8>)>,
}

impl DHT {
    /// The peer buckets, innermost first.
    pub closed spec fn buckets_model(&self) -> Seq<Seq<PeerInfo>> {
        self.kbuckets@.map_values(|b: Vec<PeerInfo>| b@)
    }

    /// All known peers: the buckets flattened, in bucket order.
    pub open spec fn all_peers(&self) -> Seq<PeerInfo> {
        self.buckets_model().flatten()
    }

    /// The domain registry as a sequence of address models.
    pub closed spec fn registry_model(&self) -> Seq<AddressModel> {
        self.domain_registry@.map_values(|a: FreedomAddress| a@)
    }

    /// The content store as key/blob pairs.
    pub closed spec fn content_model(&self) -> Seq<(Seq<char>, Seq<u8>)> {
        self.content_store@.map_values(|p: (String, Vec<u8>)| (p.0@, p.1@))
    }

    /// Well-formedness: 256 buckets, each bounded, and unique registry and
    /// content keys.
    pub open spec fn wf(&self) -> bool {
        &&& self.buckets_model().len() == 256
        &&& forall|i: int|
            0 <= i < 256 ==> (#[trigger] self.buckets_model()[i]).len() <= K_BUCKET_SIZE
        &&& forall|i: int, j: int|
            0 <= i < j < self.registry_model().len() ==> self.registry_model()[i].domain
                != self.registry_model()[j].domain
        &&& forall|i: int, j: int|
            0 <= i < j < self.content_model().len() ==> self.content_model()[i].0
                != self.content_model()[j].0
    }

    /// An empty directory: 256 empty buckets, no domains, no content.
    pub fn new() -> (r: DHT)
        ensures
            r.wf(),
            r.buckets_model().len() == 256,
            forall|i: int| 0 <= i < 256 ==> (#[trigger] r.buckets_model()[i]).len() == 0,
            r.registry_model() == Seq::<AddressModel>::empty(),
            r.content_model() == Seq::<(Seq<char>, Seq<u8>)>::empty(),
    {
        let mut kbuckets: Vec<Vec<PeerInfo>> = Vec::new();
        let mut i: usize = 0;
        while i < 256
            invariant
                i <= 256,
                kbuckets@.len() == i,
                forall|j: int| 0 <= j < i ==> (#[trigger] kbuckets@[j])@.len() == 0,
            decreases 256 - i,
        {
            kbuckets.push(Vec::new());
            i = i + 1;
        }
        let r = DHT { kbuckets, domain_registry: Vec::new(), content_store: Vec::new() };
        proof {
            assert(r.registry_model() =~= Seq::<AddressModel>::empty());
            assert(r.content_model() =~= Seq::<(Seq<char>, Seq<u8>)>::empty());
        }
        r
    }

    /// Position of a domain in the registry.
    fn find_domain_index(&self, domain: &str) -> (r: Option<usize>)
        ensures
            match r {
                Some(i) => i < self.registry_model().len() && self.registry_model()[i as int].domain
                    == domain@,
                None => !has_domain(self.registry_model(), domain@),
            },
    {
        let mut i: usize = 0;
        while i < self.domain_registry.len()
            invariant
                i <= self.domain_registry.len(),
                forall|j: int| 0 <= j < i ==> self.registry_model()[j].domain != domain@,
            decreases self.domain_registry.len() - i,
        {
            if crate::textutil::str_eq(self.domain_registry[i].domain.as_str(), domain) {
                return Some(i);
            }
            i = i + 1;
        }
        None
    }

    /// Register an overlay domain: the address is inserted under its domain
    /// name, replacing any previous registration of the same name, so the
    /// latest registration wins. Always succeeds.
    pub fn register_domain(&mut self, address: FreedomAddress) -> (r: bool)
        requires
            old(self).wf(),
        ensures
            final(self).wf(),
            r == true,
            final(self).buckets_model() == old(self).buckets_model(),
            final(self).content_model() == old(self).content_model(),
            registry_lookup(final(self).registry_model(), address@.domain) == Some(address@),
            forall|d: Seq<char>|
                d != address@.domain ==> #[trigger] registry_lookup(final(self).registry_model(), d)
                    == registry_lookup(old(self).registry_model(), d),
    {
        let ghost am = address@;
        let ghost rm0 = self.registry_model();
        match self.find_domain_index(address.domain.as_str()) {
            Some(i) => {
                proof {
                    let t = choose|t: int| 0 <= t < rm0.len() && rm0[t].domain == am.domain;
                    if t < i as int {
                        assert(rm0[t].domain != rm0[i as int].domain);
                    } else if (i as int) < t {
                        assert(rm0[i as int].domain != rm0[t].domain);
                    }
                }
                self.domain_registry.set(i, address);
                proof {
                    assert(self.registry_model() =~= rm0.update(i as int, am));
                }
            },
            None => {
                self.domain_registry.push(address);
                proof {
                    assert(self.registry_model() =~= rm0.push(am));
                }
            },
        }
        proof {
            let rm1 = self.registry_model();
            assert forall|a: int, b: int| 0 <= a < b < rm1.len() implies rm1[a].domain
                != rm1[b].domain by {
                if b < rm0.len() {
                    assert(rm1[a].domain == rm0[a].domain || rm1[a] == am);
                    assert(rm1[b].domain == rm0[b].domain || rm1[b] == am);
                } else {
                    assert(rm1[b] == am);
                    assert(!has_domain(rm0, am.domain));
                    assert(rm1[a] == rm0[a]);
                }
            }
            // the registered address is the one found afterwards
            let pos: int = if has_domain(rm0, am.domain) {
                choose|t: int| 0 <= t < rm0.len() && rm0[t].domain == am.domain
            } else {
                rm0.len() as int
            };
            assert(0 <= pos < rm1.len() && rm1[pos] == am);
            assert(has_domain(rm1, am.domain));
            let u = choose|u: int| 0 <= u < rm1.len() && rm1[u].domain == am.domain;
            if u < pos {
                assert(rm1[u].domain != rm1[pos].domain);
            } else if pos < u {
                assert(rm1[pos].domain != rm1[u].domain);
            }
            assert(registry_lookup(rm1, am.domain) == Some(am));
            // other domains are untouched
            assert forall|d: Seq<char>| d != am.domain implies #[trigger] registry_lookup(rm1, d)
                == registry_lookup(rm0, d) by {
                assert forall|t: int| 0 <= t < rm1.len() && rm1[t].domain == d implies 0 <= t
                    < rm0.len() && rm0[t].domain == d && rm1[t] == rm0[t] by {
                    assert(t != pos);
                }
                assert forall|t: int| 0 <= t < rm0.len() && rm0[t].domain == d implies 0 <= t
                    < rm1.len() && rm1[t].domain == d by {
                    assert(t != pos);
                }
                if has_domain(rm1, d) {
                    let t1 = choose|t: int| 0 <= t < rm1.len() && rm1[t].domain == d;
                    let t0 = choose|t: int| 0 <= t < rm0.len() && rm0[t].domain == d;
                    if t0 < t1 {
                        assert(rm1[t0].domain != rm1[t1].domain);
                    } else if t1 < t0 {
                        assert(rm0[t1].domain != rm0[t0].domain);
                    }
                } else {
                    assert(!has_domain(rm0, d));
                }
            }
            assert(self.buckets_model() == old(self).buckets_model());
            assert(self.content_model() == old(self).content_model());
        }
        true
    }

    /// The address registered under a domain, or nothing: a miss is
    /// absence, not an error.
    pub fn lookup_domain(&self, domain: &str) -> (r: Option<FreedomAddress>)
        requires
            self.wf(),
        ensures
            match r {
                Some(a) => registry_lookup(self.registry_model(), domain@) == Some(a@),
                None => registry_lookup(self.registry_model(), domain@) is None,
            },
    {
        match self.find_domain_index(domain) {
            Some(i) => {
                proof {
                    let rm = self.registry_model();
                    let u = choose|u: int| 0 <= u < rm.len() && rm[u].domain == domain@;
                    if u < i as int {
                        assert(rm[u].domain != rm[i as int].domain);
                    } else if (i as int) < u {
                        assert(rm[i as int].domain != rm[u].domain);
                    }
                }
                Some(self.domain_registry[i].clone())
            },
            None => None,
        }
    }

    /// Position of a domain in the content store.
    fn find_content_index(&self, domain: &str) -> (r: Option<usize>)
        ensures
            match r {
                Some(i) => i < self.content_model().len() && self.content_model()[i as int].0
                    == domain@,
                None => !has_content(self.content_model(), domain@),
            },
    {
        let mut i: usize = 0;
        while i < self.content_store.len()
            invariant
                i <= self.content_store.len(),
                forall|j: int| 0 <= j < i ==> self.content_model()[j].0 != domain@,
            decreases self.content_store.len() - i,
        {
            if crate::textutil::str_eq(self.content_store[i].0.as_str(), domain) {
                return Some(i);
            }
            i = i + 1;
        }
        None
    }

    /// Store a content blob under a domain, replacing any previous blob.
    pub fn store_content(&mut self, domain: String, content: Vec<u8>)
        requires
            old(self).wf(),
        ensures
            final(self).wf(),
            final(self).buckets_model() == old(self).buckets_model(),
            final(self).registry_model() == old(self).registry_model(),
            content_lookup(final(self).content_model(), domain@) == Some(content@),
            forall|d: Seq<char>|
                d != domain@ ==> #[trigger] content_lookup(final(self).content_model(), d)
                    == content_lookup(old(self).content_model(), d),
    {
        let ghost cm0 = self.content_model();
        let ghost key = domain@;
        let ghost val = content@;
        match self.find_content_index(domain.as_str()) {
            Some(i) => {
                proof {
                    let t = choose|t: int| 0 <= t < cm0.len() && cm0[t].0 == key;
                    if t < i as int {
                        assert(cm0[t].0 != cm0[i as int].0);
                    } else if (i as int) < t {
                        assert(cm0[i as int].0 != cm0[t].0);
                    }
                }
                self.content_store.set(i, (domain, content));
                proof {
                    assert(self.content_model() =~= cm0.update(i as int, (key, val)));
                }
            },
            None => {
                self.content_store.push((domain, content));
                proof {
                    assert(self.content_model() =~= cm0.push((key, val)));
                }
            },
        }
        proof {
            let cm1 = self.content_model();
            assert forall|a: int, b: int| 0 <= a < b < cm1.len() implies cm1[a].0 != cm1[b].0 by {
                if b < cm0.len() {
                    assert(cm1[a].0 == cm0[a].0 || cm1[a] == (key, val));
                    assert(cm1[b].0 == cm0[b].0 || cm1[b] == (key, val));
                } else {
                    assert(cm1[b] == (key, val));
                    assert(!has_content(cm0, key));
                    assert(cm1[a] == cm0[a]);
                }
            }
            let pos: int = if has_content(cm0, key) {
                choose|t: int| 0 <= t < cm0.len() && cm0[t].0 == key
            } else {
                cm0.len() as int
            };
            assert(0 <= pos < cm1.len() && cm1[pos] == (key, val));
            assert(has_content(cm1, key));
            let u = choose|u: int| 0 <= u < cm1.len() && cm1[u].0 == key;
            if u < pos {
                assert(cm1[u].0 != cm1[pos].0);
            } else if pos < u {
                assert(cm1[pos].0 != cm1[u].0);
            }
            assert(content_lookup(cm1, key) == Some(val));
            assert forall|d: Seq<char>| d != key implies #[trigger] content_lookup(cm1, d)
                == content_lookup(cm0, d) by {
                assert forall|t: int| 0 <= t < cm1.len() && cm1[t].0 == d implies 0 <= t
                    < cm0.len() && cm0[t].0 == d && cm1[t] == cm0[t] by {
                    assert(t != pos);
                }
                assert forall|t: int| 0 <= t < cm0.len() && cm0[t].0 == d implies 0 <= t
                    < cm1.len() && cm1[t].0 == d by {
                    assert(t != pos);
                }
                if has_content(cm1, d) {
                    let t1 = choose|t: int| 0 <= t < cm1.len() && cm1[t].0 == d;
                    let t0 = choose|t: int| 0 <= t < cm0.len() && cm0[t].0 == d;
                    if t0 < t1 {
                        assert(cm1[t0].0 != cm1[t1].0);
                    } else if t1 < t0 {
                        assert(cm0[t1].0 != cm0[t0].0);
                    }
                } else {
                    assert(!has_content(cm0, d));
                }
            }
            assert(self.buckets_model() == old(self).buckets_model());
            assert(self.registry_model() == old(self).registry_model());
        }
    }

    /// The blob stored under a domain, or nothing.
    pub fn get_content(&self, domain: &str) -> (r: Option<Vec<u8>>)
        requires
            self.wf(),
        ensures
            match r {
                Some(c) => content_lookup(self.content_model(), domain@) == Some(c@),
                None => content_lookup(self.content_model(), domain@) is None,
            },
    {
        match self.find_content_index(domain) {
            Some(i) => {
                proof {
                    let cm = self.content_model();
                    let u = choose|u: int| 0 <= u < cm.len() && cm[u].0 == domain@;
                    if u < i as int {
                        assert(cm[u].0 != cm[i as int].0);
                    } else if (i as int) < u {
                        assert(cm[i as int].0 != cm[u].0);
                    }
                }
                let c = self.content_store[i].1.clone();
                proof {
                    assert(c@ =~= self.content_store@[i as int].1@);
                }
                Some(c)
            },
            None => None,
        }
    }
}

/// Sort peers by ascending XOR distance from a target, by repeatedly
/// extracting a closest remaining peer. The result is a sorted permutation
/// of the input.
fn sort_peers_by_distance(peers: Vec<PeerInfo>, target: &NodeId) -> (r: Vec<PeerInfo>)
    ensures
        r@.to_multiset() == peers@.to_multiset(),
        r@.len() == peers@.len(),
        sorted_by_dist(r@, target@),
{
    broadcast use vstd::seq_lib::group_to_multiset_ensures;

    let mut src = peers;
    let mut out: Vec<PeerInfo> = Vec::new();
    proof {
        assert(out@.to_multiset().add(src@.to_multiset()) =~= src@.to_multiset());
    }
    while src.len() > 0
        invariant
            out@.to_multiset().add(src@.to_multiset()) == peers@.to_multiset(),
            out@.len() + src@.len() == peers@.len(),
            sorted_by_dist(out@, target@),
            forall|a: int, b: int|
                0 <= a < out@.len() && 0 <= b < src@.len() ==> peer_dist(#[trigger] out@[a], target@)
                    <= peer_dist(#[trigger] src@[b], target@),
        decreases src.len(),
    {
        let mut min: usize = 0;
        let mut t: usize = 1;
        while t < src.len()
            invariant
                min < src@.len(),
                t <= src@.len(),
                forall|j: int| 0 <= j < t ==> peer_dist(src@[min as int], target@) <= peer_dist(
                    #[trigger] src@[j],
                    target@,
                ),
            decreases src@.len() - t,
        {
            if !xor_dist_le(&src[min].node_id, &src[t].node_id, target) {
                min = t;
            }
            t = t + 1;
        }
        let ghost src0 = src@;
        let ghost out0 = out@;
        let elem = src.remove(min);
        out.push(elem);
        proof {
            assert(src@ == src0.remove(min as int));
            vstd::seq_lib::to_multiset_remove::<PeerInfo>(src0, min as int);
            vstd::seq_lib::to_multiset_build::<PeerInfo>(out0, elem);
            assert(src0.remove(min as int).to_multiset() == src0.to_multiset().remove(elem));
            assert(out@.to_multiset() =~= out0.to_multiset().insert(elem));
            vstd::seq_lib::to_multiset_contains::<PeerInfo>(src0, elem);
            assert(src0.contains(elem));
            assert(src0.to_multiset().contains(elem));
            assert(out@.to_multiset().add(src@.to_multiset()) =~= out0.to_multiset().add(
                src0.to_multiset(),
            ));
            // the extracted peer stays below everything still in src
            assert forall|b: int| 0 <= b < src@.len() implies peer_dist(elem, target@) <= peer_dist(
                #[trigger] src@[b],
                target@,
            ) by {
                if b < min {
                    assert(src@[b] == src0[b]);
                } else {
                    assert(src@[b] == src0[b + 1]);
                }
            }
            assert forall|a: int, b: int|
                0 <= a < b < out@.len() implies peer_dist(#[trigger] out@[a], target@) <= peer_dist(
                #[trigger] out@[b],
                target@,
            ) by {
                if b < out0.len() {
                    assert(out@[a] == out0[a] && out@[b] == out0[b]);
                } else {
                    assert(out@[b] == elem);
                    assert(out@[a] == out0[a]);
                    assert(src0.to_multiset().count(elem) > 0);
                }
            }
        }
    }
    proof {
        assert(src@.to_multiset() =~= Multiset::<PeerInfo>::empty());
        assert(out@.to_multiset().add(Multiset::<PeerInfo>::empty()) =~= out@.to_multiset());
    }
    out
}

impl DHT {
    /// The k-bucket a peer with this id belongs to, relative to the local
    /// id: indexed by the position of the leading differing bit.
    fn compute_bucket_index(local: &NodeId, peer: &NodeId) -> (r: usize)
        requires
            local@ != peer@,
        ensures
            r == bucket_index(local@, peer@),
            r < 256,
    {
        let mut i: usize = 0;
        while i < 32
            invariant
                i <= 32,
                first_diff_at(local@, peer@, 0) == first_diff_at(local@, peer@, i as int),
                forall|j: int| 0 <= j < i ==> local@[j] == peer@[j],
            decreases 32 - i,
        {
            let la = local.0[i];
            let pa = peer.0[i];
            if la != pa {
                let x = la ^ pa;
                proof {
                    assert(x != 0) by (bit_vector)
                        requires
                            x == la ^ pa,
                            la != pa,
                    ;
                    assert(first_diff_at(local@, peer@, i as int) == i);
                }
                let h: usize = if x >= 128 {
                    7
                } else if x >= 64 {
                    6
                } else if x >= 32 {
                    5
                } else if x >= 16 {
                    4
                } else if x >= 8 {
                    3
                } else if x >= 4 {
                    2
                } else if x >= 2 {
                    1
                } else {
                    0
                };
                proof {
                    assert(h == high_bit((local@[i as int] ^ peer@[i as int]) as u8));
                }
                return (31 - i) * 8 + h;
            }
            i = i + 1;
        }
        proof {
            assert(local@ =~= peer@);
        }
        0
    }

    /// Insert a peer into the bucket indexed by the leading differing bit
    /// between its id and the local id. A full bucket evicts its
    /// least-recently-seen peer (the front). A peer with the local id itself
    /// is not stored.
    pub fn add_peer(&mut self, local: &NodeId, peer: PeerInfo)
        requires
            old(self).wf(),
        ensures
            final(self).wf(),
            final(self).registry_model() == old(self).registry_model(),
            final(self).content_model() == old(self).content_model(),
            peer.node_id@ == local@ ==> final(self).buckets_model() == old(self).buckets_model(),
            peer.node_id@ != local@ ==> ({
                let idx = bucket_index(local@, peer.node_id@);
                &&& 0 <= idx < 256
                &&& final(self).buckets_model() == old(self).buckets_model().update(
                    idx,
                    bucket_push(old(self).buckets_model()[idx], peer),
                )
            }),
    {
        let mut i: usize = 0;
        let mut same = true;
        while i < 32
            invariant
                i <= 32,
                same ==> forall|j: int| 0 <= j < i ==> local@[j] == peer.node_id@[j],
                !same ==> local@ != peer.node_id@,
            decreases 32 - i,
        {
            if local.0[i] != peer.node_id.0[i] {
                proof {
                    assert(local@[i as int] != peer.node_id@[i as int]);
                }
                same = false;
            }
            i = i + 1;
        }
        if same {
            proof {
                assert(local@ =~= peer.node_id@);
                assert(self.buckets_model() == old(self).buckets_model());
            }
            return ;
        }
        let idx = Self::compute_bucket_index(local, &peer.node_id);
        let ghost b0 = self.buckets_model();
        let mut b: Vec<PeerInfo> = Vec::new();
        let mut t: usize = 0;
        while t < self.kbuckets[idx].len()
            invariant
                idx < self.kbuckets@.len(),
                t <= self.kbuckets@[idx as int]@.len(),
                b@ =~= self.kbuckets@[idx as int]@.subrange(0, t as int),
            decreases self.kbuckets@[idx as int]@.len() - t,
        {
            b.push(self.kbuckets[idx][t].clone());
            t = t + 1;
        }
        proof {
            assert(b@ =~= b0[idx as int]);
        }
        if b.len() >= K_BUCKET_SIZE {
            let ghost bfull = b@;
            let _ = b.remove(0);
            proof {
                assert(b@ =~= bfull.skip(1));
            }
        }
        b.push(peer);
        self.kbuckets.set(idx, b);
        proof {
            assert(self.buckets_model() =~= b0.update(
                idx as int,
                bucket_push(b0[idx as int], peer),
            ));
            assert forall|a: int| 0 <= a < 256 implies (#[trigger] self.buckets_model()[a]).len()
                <= K_BUCKET_SIZE by {
                if a != idx {
                    assert(self.buckets_model()[a] == b0[a]);
                }
            }
            assert(self.registry_model() == old(self).registry_model());
            assert(self.content_model() == old(self).content_model());
        }
    }

    /// The `k` peers closest to `target` by XOR distance: all buckets are
    /// flattened, sorted non-decreasing by distance (a prefix of a sorted
    /// permutation of the whole table), and the first `k` returned.
    pub fn find_closest_peers(&self, target: &NodeId, k: usize) -> (r: Vec<PeerInfo>)
        requires
            self.wf(),
        ensures
            r@.len() == if k <= self.all_peers().len() {
                k as int
            } else {
                self.all_peers().len() as int
            },
            sorted_by_dist(r@, target@),
            exists|s: Seq<PeerInfo>|
                (#[trigger] s.to_multiset()) == self.all_peers().to_multiset() && sorted_by_dist(
                    s,
                    target@,
                ) && r@ == s.take(
                    if k <= self.all_peers().len() {
                        k as int
                    } else {
                        self.all_peers().len() as int
                    },
                ),
    {
        broadcast use vstd::seq_lib::group_seq_properties;

        let mut all: Vec<PeerInfo> = Vec::new();
        let mut i: usize = 0;
        proof {
            assert(self.buckets_model().take(0) =~= Seq::<Seq<PeerInfo>>::empty());
            assert(Seq::<Seq<PeerInfo>>::empty().flatten() =~= Seq::<PeerInfo>::empty());
        }
        while i < self.kbuckets.len()
            invariant
                i <= self.kbuckets@.len(),
                all@ == self.buckets_model().take(i as int).flatten(),
            decreases self.kbuckets@.len() - i,
        {
            let mut t: usize = 0;
            while t < self.kbuckets[i].len()
                invariant
                    i < self.kbuckets@.len(),
                    t <= self.kbuckets@[i as int]@.len(),
                    all@ == self.buckets_model().take(i as int).flatten() + self.kbuckets@[i as int]@.subrange(
                        0,
                        t as int,
                    ),
                decreases self.kbuckets@[i as int]@.len() - t,
            {
                all.push(self.kbuckets[i][t].clone());
                proof {
                    assert(all@ =~= self.buckets_model().take(i as int).flatten()
                        + self.kbuckets@[i as int]@.subrange(0, t + 1));
                }
                t = t + 1;
            }
            proof {
                broadcast use vstd::seq::Seq::lemma_flatten_push;

                assert(self.kbuckets@[i as int]@.subrange(
                    0,
                    self.kbuckets@[i as int]@.len() as int,
                ) =~= self.buckets_model()[i as int]);
                assert(self.buckets_model().take(i + 1) =~= self.buckets_model().take(
                    i as int,
                ).push(self.buckets_model()[i as int]));
                assert(all@ =~= self.buckets_model().take(i + 1).flatten());
            }
            i = i + 1;
        }
        proof {
            assert(self.buckets_model().take(self.buckets_model().len() as int)
                =~= self.buckets_model());
        }
        let mut sorted = sort_peers_by_distance(all, target);
        let ghost full = sorted@;
        if k < sorted.len() {
            sorted.truncate(k);
            proof {
                assert(sorted@ == full.take(k as int));
            }
        } else {
            proof {
                assert(sorted@ =~= full.take(full.len() as int));
            }
        }
        proof {
            let n: int = if k <= self.all_peers().len() {
                k as int
            } else {
                self.all_peers().len() as int
            };
            assert(sorted@ == full.take(n));
            assert forall|a: int, b: int|
                0 <= a < b < sorted@.len() implies peer_dist(#[trigger] sorted@[a], target@)
                <= peer_dist(#[trigger] sorted@[b], target@) by {
                assert(sorted@[a] == full[a] && sorted@[b] == full[b]);
            }
        }
        sorted
    }
}

/// Derive a node id from a public key: the SHA3-256 digest of its bytes.
pub fn generate_node_id(pubkey: &[u8]) -> (r: NodeId)
    ensures
        r@ == sha3_256_of(pubkey@),
{
    let digest = sha3_256(pubkey);
    let mut id = [0u8; 32];
    let mut i: usize = 0;
    while i < 32
        invariant
            i <= 32,
            digest@.len() == 32,
            digest@ == sha3_256_of(pubkey@),
            forall|j: int| 0 <= j < i ==> id@[j] == digest@[j],
        decreases 32 - i,
    {
        id[i] = digest[i];
        i = i + 1;
    }
    proof {
        assert(id@ =~= sha3_256_of(pubkey@));
    }
    NodeId(id)
}

} // verus!
