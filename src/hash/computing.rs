use vstd::arithmetic::div_mod::lemma_fundamental_div_mod_converse;
use vstd::pervasive::unreached;
use vstd::prelude::*;
use vstd::slice::slice_to_vec;
use vstd::utf8::encode_utf8;

use crate::hash::label::{label_shard, label_text, lemma_label_shard, node_label, parse_shard};
use crate::hash::ring::{
    first_from, lemma_first_from_bound, ring_insert, ring_key, ring_successor, ring_without,
    successor_survives_removal, HashRing,
};

verus! {

/// Seed of the custom hash: 2166136261 read as a signed 32-bit value.
pub const FNV_SEED: i32 = -2128831035i32;

/// Multiplier of the custom hash.
pub const FNV_PRIME: i32 = 16777619i32;

/// One accumulation step of the custom hash.
pub open spec fn fnv_step(acc: i32, b: u8) -> i32 {
    (acc ^ (b as i32)).wrapping_mul(FNV_PRIME)
}

/// The accumulator of the custom hash after consuming `s`, before mixing.
pub open spec fn fnv_acc(s: Seq<u8>) -> i32
    decreases s.len(),
{
    if s.len() == 0 {
        FNV_SEED
    } else {
        fnv_step(fnv_acc(s.drop_last()), s.last())
    }
}

/// The avalanche finisher, in 32-bit two's-complement arithmetic with
/// sign-preserving right shifts.
pub open spec fn avalanche(h0: i32) -> i32 {
    let h1 = h0.wrapping_add(h0.wrapping_shl(13));
    let h2 = h1 ^ (h1 >> 7u32);
    let h3 = h2.wrapping_add(h2.wrapping_shl(3));
    let h4 = h3 ^ (h3 >> 17u32);
    h4.wrapping_add(h4.wrapping_shl(5))
}

/// The magnitude of a signed 32-bit value, as an unsigned 32-bit value
/// (exact for every input, `i32::MIN` included).
pub open spec fn abs_u32(h: i32) -> u32 {
    if h < 0 {
        (0 - h) as u32
    } else {
        h as u32
    }
}

/// The custom 32-bit hash of a byte sequence.
pub open spec fn custom_hash32(s: Seq<u8>) -> u32 {
    abs_u32(avalanche(fnv_acc(s)))
}

fn magnitude(h: i32) -> (r: u32)
    ensures
        r == abs_u32(h),
{
    if h < 0 {
        (0i64 - h as i64) as u32
    } else {
        h as u32
    }
}

/// The custom hash of `value`'s bytes.
pub fn fnv1(value: &Vec<u8>) -> (r: u32)
    ensures
        r == custom_hash32(value@),
{
    let mut hash: i32 = FNV_SEED;
    let mut i: usize = 0;
    while i < value.len()
        invariant
            i <= value@.len(),
            hash == fnv_acc(value@.subrange(0, i as int)),
        decreases value@.len() - i,
    {
        assert(value@.subrange(0, i + 1).drop_last() =~= value@.subrange(0, i as int));
        hash = (hash ^ (value[i] as i32)).wrapping_mul(FNV_PRIME);
        i = i + 1;
    }
    assert(value@.subrange(0, i as int) =~= value@);
    hash = hash.wrapping_add(hash.wrapping_shl(13));
    hash = hash ^ (hash >> 7u32);
    hash = hash.wrapping_add(hash.wrapping_shl(3));
    hash = hash ^ (hash >> 17u32);
    hash = hash.wrapping_add(hash.wrapping_shl(5));
    magnitude(hash)
}


/// The custom hash of the UTF-8 bytes of `value`.
pub fn fnv(value: &str) -> (r: u32)
    ensures
        r == custom_hash32(encode_utf8(value@)),
{
    fnv1(&slice_to_vec(value.as_bytes()))
}

/// The custom hash of `value`'s UTF-8 bytes, computed through a `FnvHasher`.
pub fn hash(value: &str) -> (r: u32)
    ensures
        r == custom_hash32(encode_utf8(value@)),
{
    let mut hasher = FnvHasher::new();
    hasher.write(value.as_bytes());
    hasher.finish() as u32
}

/// `custom_hash32` of the key's bytes, reduced modulo the shard count.
pub fn modulo_custom(value: &str, shards: u32) -> (r: u32)
    requires
        shards > 0,
    ensures
        r == custom_hash32(encode_utf8(value@)) % shards,
        r < shards,
{
    fnv(value) % shards
}

/// `java_hash` of the key's bytes, reduced modulo the shard count.
pub fn modulo_java(value: &str, shards: u32) -> (r: u32)
    requires
        shards > 0,
    ensures
        r == java_hash(encode_utf8(value@)) % shards,
        r < shards,
{
    latin1_java_hash_code(value) % shards
}

/// Builder of `FnvHasher`s, used to key a `HashRing`.
#[derive(Debug)]
pub struct FnvHashBuilder;

impl FnvHashBuilder {
    pub fn build_hasher(&self) -> (r: FnvHasher)
        ensures
            r@ == Seq::<u8>::empty(),
    {
        FnvHasher::new()
    }
}

/// A hasher that keeps the bytes last written to it and finishes with the
/// custom hash of those bytes.
pub struct FnvHasher {
    data: Vec<u8>,
}

impl View for FnvHasher {
    type V = Seq<u8>;

    closed spec fn view(&self) -> Seq<u8> {
        self.data@
    }
}

impl FnvHasher {
    pub fn new() -> (r: Self)
        ensures
            r@ == Seq::<u8>::empty(),
    {
        FnvHasher { data: Vec::new() }
    }

    /// Replaces the held bytes by `bytes`.
    pub fn write(&mut self, bytes: &[u8])
        ensures
            final(self)@ == bytes@,
    {
        self.data = slice_to_vec(bytes);
    }

    /// The custom hash of the held bytes, widened to 64 bits.
    pub fn finish(&self) -> (r: u64)
        ensures
            r == custom_hash32(self@) as u64,
    {
        fnv1(&self.data) as u64
    }
}

/// One step of Java's `String.hashCode`, taking one byte as one code unit.
pub open spec fn java_step(acc: i32, b: u8) -> i32 {
    acc.wrapping_mul(31).wrapping_add(b as i32)
}

/// Java's `String.hashCode` accumulator over `s`, one byte per code unit.
pub open spec fn java_acc(s: Seq<u8>) -> i32
    decreases s.len(),
{
    if s.len() == 0 {
        0
    } else {
        java_step(java_acc(s.drop_last()), s.last())
    }
}

/// The magnitude of Java's `String.hashCode` over `s`, one byte per code unit.
pub open spec fn java_hash(s: Seq<u8>) -> u32 {
    abs_u32(java_acc(s))
}

/// Java's `String.hashCode` of `value`, taking each UTF-8 byte as one code
/// unit, as a magnitude. This agrees with Java for text whose characters are
/// all single bytes (ASCII); for other characters it differs from Java, which
/// hashes UTF-16 code units instead.
pub fn latin1_java_hash_code(value: &str) -> (r: u32)
    ensures
        r == java_hash(encode_utf8(value@)),
{
    let bytes = value.as_bytes();
    let mut hash: i32 = 0;
    let mut i: usize = 0;
    while i < bytes.len()
        invariant
            bytes@ == encode_utf8(value@),
            i <= bytes@.len(),
            hash == java_acc(bytes@.subrange(0, i as int)),
        decreases bytes@.len() - i,
    {
        assert(bytes@.subrange(0, i + 1).drop_last() =~= bytes@.subrange(0, i as int));
        let b: u8 = bytes[i];
        assert(b & 0xffu8 == b) by (bit_vector);
        hash = hash.wrapping_mul(31).wrapping_add((b & 0xffu8) as i32);
        i = i + 1;
    }
    assert(bytes@.subrange(0, i as int) =~= bytes@);
    magnitude(hash)
}

/// Two evaluations of the custom hash on equal byte sequences agree: the
/// hash is a function of the bytes alone.
pub proof fn custom_hash_deterministic(a: Seq<u8>, b: Seq<u8>)
    requires
        a == b,
    ensures
        custom_hash32(a) == custom_hash32(b),
{
}


/// The three ways of choosing a shard.
#[derive(Debug, Clone, Copy, PartialEq, Eq, Structural)]
pub enum Algorithm {
    /// Tag `h`: the custom hash modulo the shard count.
    ModuloCustomHash,
    /// Tag `ch`: lookup on a consistent-hash ring of virtual nodes.
    ConsistentHash,
    /// Tag `j`: Java's string hash code modulo the shard count.
    JavaHashCodeModulo,
}

/// Why a key could not be resolved to a shard.
#[derive(Debug, Clone, Copy, PartialEq, Eq, Structural)]
pub enum ShardError {
    /// The shard count is zero.
    InvalidShardCount,
    /// The algorithm tag is none of `h`, `ch`, `j`.
    UnsupportedAlgorithm,
    /// The consistent-hash ring has no entries (zero virtual nodes per shard).
    RingEmptyLookup,
}

/// The algorithm that a tag selects.
pub open spec fn algorithm_of(tag: Seq<char>) -> Option<Algorithm> {
    if tag == seq!['h'] {
        Some(Algorithm::ModuloCustomHash)
    } else if tag == seq!['c', 'h'] {
        Some(Algorithm::ConsistentHash)
    } else if tag == seq!['j'] {
        Some(Algorithm::JavaHashCodeModulo)
    } else {
        None
    }
}

impl Algorithm {
    /// The algorithm that `tag` selects, if any.
    pub fn from_tag(tag: &str) -> (r: Option<Algorithm>)
        ensures
            r == algorithm_of(tag@),
    {
        let n = tag.unicode_len();
        if n == 1 {
            let c = tag.get_char(0);
            assert(tag@ =~= seq![c]);
            if c == 'h' {
                return Some(Algorithm::ModuloCustomHash);
            } else if c == 'j' {
                return Some(Algorithm::JavaHashCodeModulo);
            }
        } else if n == 2 {
            let c0 = tag.get_char(0);
            let c1 = tag.get_char(1);
            assert(tag@ =~= seq![c0, c1]);
            if c0 == 'c' && c1 == 'h' {
                return Some(Algorithm::ConsistentHash);
            }
        }
        None
    }
}

/// The label of the `n`-th virtual node added when each shard has `vms` of them.
pub open spec fn vnode_label(n: nat, vms: nat) -> Seq<char> {
    label_text(n / vms, n % vms)
}

/// The ring after adding the first `n` virtual nodes, shard by shard.
pub open spec fn ring_of_first(n: nat, vms: nat) -> Seq<(u64, Seq<char>)>
    decreases n,
{
    if n == 0 {
        Seq::empty()
    } else {
        ring_insert(ring_of_first((n - 1) as nat, vms), vnode_label((n - 1) as nat, vms))
    }
}

/// The ring of `vms` virtual nodes for each of `shards` shards.
pub open spec fn vnode_ring(shards: nat, vms: nat) -> Seq<(u64, Seq<char>)> {
    ring_of_first(shards * vms, vms)
}

/// The shard that the consistent-hash ring assigns to `key`.
pub open spec fn ring_shard(key: Seq<char>, shards: nat, vms: nat) -> Option<u32> {
    label_shard(ring_successor(vnode_ring(shards, vms), ring_key(key)))
}

/// `l` names a shard below `shards`.
pub open spec fn names_shard_below(l: Seq<char>, shards: nat) -> bool {
    match label_shard(l) {
        Some(a) => a < shards,
        None => false,
    }
}

proof fn lemma_ring_of_first(n: nat, shards: nat, vms: nat)
    requires
        vms > 0,
        n <= shards * vms,
        shards <= u32::MAX,
    ensures
        ring_of_first(n, vms).len() == n,
        forall|k: int| 0 <= k < n ==> #[trigger] names_shard_below(ring_of_first(n, vms)[k].1, shards),
    decreases n,
{
    if n > 0 {
        let m = (n - 1) as nat;
        lemma_ring_of_first(m, shards, vms);
        let s = ring_of_first(m, vms);
        let l = vnode_label(m, vms);
        lemma_first_from_bound(s, ring_key(l) + 1);
        assert(m / vms < shards) by (nonlinear_arith)
            requires
                m < shards * vms,
                vms > 0,
        ;
        lemma_label_shard((m / vms) as u32, m % vms);
        let r = ring_of_first(n, vms);
        let i = first_from(s, ring_key(l) + 1);
        assert forall|k: int| 0 <= k < n implies #[trigger] names_shard_below(r[k].1, shards) by {
            if k < i {
                assert(r[k] == s[k]);
            } else if k > i {
                assert(r[k] == s[k - 1]);
            }
        }
    }
}

// The ring of `vms` virtual nodes for each of `shards` shards, labelled
// `<shard>&VN<vnode>` and added shard by shard.
fn hash_ring(shards: &u32, vms: &u32) -> (r: HashRing<FnvHashBuilder>)
    ensures
        r.wf(),
        r@ == vnode_ring(*shards as nat, *vms as nat),
{
    let mut ring = HashRing::with_hasher(FnvHashBuilder);
    let mut i: u32 = 0;
    while i < *shards
        invariant
            ring.wf(),
            i <= *shards,
            ring@ == ring_of_first(i as nat * *vms as nat, *vms as nat),
        decreases *shards - i,
    {
        let mut j: u32 = 0;
        while j < *vms
            invariant
                ring.wf(),
                i < *shards,
                j <= *vms,
                ring@ == ring_of_first(i as nat * *vms as nat + j as nat, *vms as nat),
            decreases *vms - j,
        {
            let node = node_label(i, j);
            proof {
                let n = i as nat * *vms as nat + j as nat;
                lemma_fundamental_div_mod_converse(n as int, *vms as int, i as int, j as int);
                assert(vnode_label(n, *vms as nat) == label_text(i as nat, j as nat));
            }
            ring.add(node);
            j = j + 1;
        }
        assert((i as nat + 1) * *vms as nat == i as nat * *vms as nat + *vms as nat) by (nonlinear_arith);
        i = i + 1;
    }
    ring
}

/// The shard that the consistent-hash ring of `shards` shards with `vms`
/// virtual nodes each assigns to `value`.
pub fn hash_ring_get_key(value: &str, shards: &u32, vms: &u32) -> (r: u32)
    requires
        *shards > 0,
        *vms > 0,
    ensures
        ring_shard(value@, *shards as nat, *vms as nat) == Some(r),
        r < *shards,
{
    let mut ring = hash_ring(shards, vms);
    proof {
        ring_coverage(*shards, *vms, value@);
    }
    let ghost shard = ring_shard(value@, *shards as nat, *vms as nat);
    let data = ring.get(value);
    match data {
        Some(label) => {
            assert(label_shard(label@) == shard);
            match parse_shard(label) {
                Some(index) => index,
                None => unreached(),
            }
        },
        None => unreached(),
    }
}

/// The shard that `value` belongs to, among `shards`, under the algorithm
/// that `algorithm` names (`h`, `ch` or `j`; `ch` uses `vms` virtual nodes
/// per shard).
pub fn compute(value: &str, algorithm: &str, shards: &u32, vms: &u32) -> (r: Result<u32, ShardError>)
    ensures
        algorithm_of(algorithm@) is None ==> r == Err::<u32, ShardError>(ShardError::UnsupportedAlgorithm),
        algorithm_of(algorithm@) is Some && *shards == 0 ==> r == Err::<u32, ShardError>(ShardError::InvalidShardCount),
        algorithm_of(algorithm@) == Some(Algorithm::ModuloCustomHash) && *shards > 0 ==>
            r == Ok::<u32, ShardError>((custom_hash32(encode_utf8(value@)) % *shards) as u32),
        algorithm_of(algorithm@) == Some(Algorithm::JavaHashCodeModulo) && *shards > 0 ==>
            r == Ok::<u32, ShardError>((java_hash(encode_utf8(value@)) % *shards) as u32),
        algorithm_of(algorithm@) == Some(Algorithm::ConsistentHash) && *shards > 0 && *vms == 0 ==>
            r == Err::<u32, ShardError>(ShardError::RingEmptyLookup),
        algorithm_of(algorithm@) == Some(Algorithm::ConsistentHash) && *shards > 0 && *vms > 0 ==>
            r is Ok && ring_shard(value@, *shards as nat, *vms as nat) == Some(r->Ok_0),
        r is Ok ==> r->Ok_0 < *shards,
{
    let alg = match Algorithm::from_tag(algorithm) {
        Some(a) => a,
        None => return Err(ShardError::UnsupportedAlgorithm),
    };
    if *shards == 0 {
        return Err(ShardError::InvalidShardCount);
    }
    match alg {
        Algorithm::ModuloCustomHash => Ok(modulo_custom(value, *shards)),
        Algorithm::ConsistentHash => {
            if *vms == 0 {
                Err(ShardError::RingEmptyLookup)
            } else {
                Ok(hash_ring_get_key(value, shards, vms))
            }
        },
        Algorithm::JavaHashCodeModulo => Ok(modulo_java(value, *shards)),
    }
}

/// The ring of `shards` shards with `vms` virtual nodes each has
/// `shards * vms` entries, and assigns every key a shard below `shards`.
pub proof fn ring_coverage(shards: u32, vms: u32, key: Seq<char>)
    requires
        shards > 0,
        vms > 0,
    ensures
        vnode_ring(shards as nat, vms as nat).len() == shards * vms,
        vnode_ring(shards as nat, vms as nat).len() > 0,
        ring_shard(key, shards as nat, vms as nat) is Some,
        ring_shard(key, shards as nat, vms as nat)->Some_0 < shards,
{
    let n = shards as nat * vms as nat;
    lemma_ring_of_first(n, shards as nat, vms as nat);
    assert(n > 0) by (nonlinear_arith)
        requires
            shards > 0,
            vms > 0,
            n == shards as nat * vms as nat,
    ;
    let s = vnode_ring(shards as nat, vms as nat);
    let h = ring_key(key);
    lemma_first_from_bound(s, h as int);
    let i = first_from(s, h as int);
    if i < s.len() {
        assert(names_shard_below(s[i].1, shards as nat));
    } else {
        assert(names_shard_below(s[0].1, shards as nat));
    }
}

/// The consistent-hash resolution of a key depends on the key, the shard
/// count and the virtual node count alone: two resolutions of the same
/// inputs give the same shard.
pub proof fn ring_resolution_deterministic(key: Seq<char>, shards: u32, vms: u32, r1: u32, r2: u32)
    requires
        ring_shard(key, shards as nat, vms as nat) == Some(r1),
        ring_shard(key, shards as nat, vms as nat) == Some(r2),
    ensures
        r1 == r2,
{
}

/// Whether a label names shard `shard`.
pub open spec fn of_shard(shard: u32) -> spec_fn(Seq<char>) -> bool {
    |l: Seq<char>| label_shard(l) == Some(shard)
}

/// Taking every virtual node of shard `gone` off the ring leaves each key
/// that the ring gave to another shard with that same shard.
pub proof fn removing_a_shard_keeps_other_keys(shards: u32, vms: u32, gone: u32, key: Seq<char>)
    requires
        shards > 0,
        vms > 0,
        ring_shard(key, shards as nat, vms as nat) != Some(gone),
    ensures
        ({
            let rest = ring_without(vnode_ring(shards as nat, vms as nat), of_shard(gone));
            &&& rest.len() > 0
            &&& label_shard(ring_successor(rest, ring_key(key))) == ring_shard(key, shards as nat, vms as nat)
        }),
{
    ring_coverage(shards, vms, key);
    let s = vnode_ring(shards as nat, vms as nat);
    let h = ring_key(key);
    let gone_fn = of_shard(gone);
    assert(!gone_fn(ring_successor(s, h)));
    successor_survives_removal(s, h, gone_fn);
    let rest = ring_without(s, gone_fn);
    assert(ring_successor(rest, h) == ring_successor(s, h));
}

} // verus!
