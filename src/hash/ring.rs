use vstd::prelude::*;
use vstd::utf8::encode_utf8;

use crate::hash::computing::{custom_hash32, fnv, FnvHasher};

verus! {

/// The builder a `HashRing` uses when none is given.
pub struct DefaultHashBuilder;

impl DefaultHashBuilder {
    pub fn build_hasher(&self) -> (r: FnvHasher)
        ensures
            r@ == Seq::<u8>::empty(),
    {
        FnvHasher::new()
    }
}

/// The position of a label or a query key on the ring: the custom hash of
/// its UTF-8 bytes, widened to 64 bits.
pub open spec fn ring_key(s: Seq<char>) -> u64 {
    custom_hash32(encode_utf8(s)) as u64
}

/// The index of the first entry whose key is at least `t`, or the length
/// when there is none.
pub open spec fn first_from(s: Seq<(u64, Seq<char>)>, t: int) -> int
    decreases s.len(),
{
    if s.len() == 0 {
        0
    } else if s[0].0 >= t {
        0
    } else {
        1 + first_from(s.drop_first(), t)
    }
}

/// Keys ascend (equal keys may sit side by side).
pub open spec fn keys_sorted(s: Seq<(u64, Seq<char>)>) -> bool {
    forall|i: int, j: int| 0 <= i <= j < s.len() ==> s[i].0 <= s[j].0
}

/// A well-formed ring: keys ascend and each key is its label's position.
pub open spec fn ring_wf(s: Seq<(u64, Seq<char>)>) -> bool {
    &&& keys_sorted(s)
    &&& forall|i: int| 0 <= i < s.len() ==> #[trigger] s[i].0 == ring_key(s[i].1)
}

/// The ring after adding `label`: placed after every entry whose key is not
/// above its own, so that among equal keys the earlier entry comes first.
pub open spec fn ring_insert(s: Seq<(u64, Seq<char>)>, label: Seq<char>) -> Seq<(u64, Seq<char>)> {
    s.insert(first_from(s, ring_key(label) + 1), (ring_key(label), label))
}

/// The label that owns position `h`: that of the first entry whose key is
/// at least `h`, or, past the last key, that of the first entry.
pub open spec fn ring_successor(s: Seq<(u64, Seq<char>)>, h: u64) -> Seq<char> {
    let i = first_from(s, h as int);
    if i < s.len() {
        s[i].1
    } else {
        s[0].1
    }
}

/// The ring without the entries whose label is `gone`.
pub open spec fn ring_without(
    s: Seq<(u64, Seq<char>)>,
    gone: spec_fn(Seq<char>) -> bool,
) -> Seq<(u64, Seq<char>)>
    decreases s.len(),
{
    if s.len() == 0 {
        s
    } else if gone(s[0].1) {
        ring_without(s.drop_first(), gone)
    } else {
        seq![s[0]] + ring_without(s.drop_first(), gone)
    }
}

/// `first_from` is the index that splits the keys below `t` from the rest.
pub proof fn lemma_first_from(s: Seq<(u64, Seq<char>)>, t: int, i: int)
    requires
        0 <= i <= s.len(),
        forall|k: int| 0 <= k < i ==> #[trigger] s[k].0 < t,
        i < s.len() ==> s[i].0 >= t,
    ensures
        first_from(s, t) == i,
    decreases i,
{
    if i > 0 {
        assert(s[0].0 < t);
        let tail = s.drop_first();
        assert forall|k: int| 0 <= k < i - 1 implies #[trigger] tail[k].0 < t by {
            assert(tail[k] == s[k + 1]);
        }
        if i < s.len() {
            assert(tail[i - 1] == s[i]);
        }
        lemma_first_from(tail, t, i - 1);
    }
}

/// `first_from` never passes the end.
pub proof fn lemma_first_from_bound(s: Seq<(u64, Seq<char>)>, t: int)
    ensures
        0 <= first_from(s, t) <= s.len(),
        first_from(s, t) < s.len() ==> s[first_from(s, t)].0 >= t,
    decreases s.len(),
{
    if s.len() > 0 && s[0].0 < t {
        lemma_first_from_bound(s.drop_first(), t);
    }
}

proof fn lemma_without_found(
    s: Seq<(u64, Seq<char>)>,
    t: int,
    gone: spec_fn(Seq<char>) -> bool,
)
    requires
        first_from(s, t) < s.len(),
        !gone(s[first_from(s, t)].1),
    ensures
        first_from(ring_without(s, gone), t) < ring_without(s, gone).len(),
        ring_without(s, gone)[first_from(ring_without(s, gone), t)] == s[first_from(s, t)],
    decreases s.len(),
{
    let w = ring_without(s, gone);
    if s[0].0 < t {
        let tail = s.drop_first();
        lemma_first_from_bound(tail, t);
        assert(first_from(s, t) == 1 + first_from(tail, t));
        assert(s[first_from(s, t)] == tail[first_from(tail, t)]);
        lemma_without_found(tail, t, gone);
        let wt = ring_without(tail, gone);
        if !gone(s[0].1) {
            assert(w == seq![s[0]] + wt);
            assert(w.drop_first() =~= wt);
            lemma_first_from_bound(wt, t);
            assert(first_from(w, t) == 1 + first_from(wt, t));
            assert(w[first_from(w, t)] == wt[first_from(wt, t)]);
        }
    } else {
        assert(w == seq![s[0]] + ring_without(s.drop_first(), gone));
        assert(w[0] == s[0]);
    }
}

proof fn lemma_without_past_end(
    s: Seq<(u64, Seq<char>)>,
    t: int,
    gone: spec_fn(Seq<char>) -> bool,
)
    requires
        first_from(s, t) == s.len(),
    ensures
        first_from(ring_without(s, gone), t) == ring_without(s, gone).len(),
    decreases s.len(),
{
    if s.len() > 0 {
        let tail = s.drop_first();
        lemma_without_past_end(tail, t, gone);
        let w = ring_without(s, gone);
        if !gone(s[0].1) {
            assert(w.drop_first() =~= ring_without(tail, gone));
        }
    }
}

/// Taking entries off the ring moves no position whose owner stays: a key
/// owned by a surviving entry is owned by that same entry afterwards.
pub proof fn successor_survives_removal(
    s: Seq<(u64, Seq<char>)>,
    h: u64,
    gone: spec_fn(Seq<char>) -> bool,
)
    requires
        s.len() > 0,
        !gone(ring_successor(s, h)),
    ensures
        ring_without(s, gone).len() > 0,
        ring_successor(ring_without(s, gone), h) == ring_successor(s, h),
{
    lemma_first_from_bound(s, h as int);
    let w = ring_without(s, gone);
    if first_from(s, h as int) < s.len() {
        lemma_without_found(s, h as int, gone);
    } else {
        lemma_without_past_end(s, h as int, gone);
        assert(w == seq![s[0]] + ring_without(s.drop_first(), gone));
    }
}

// One virtual node of the ring: its position and its label.
struct Node {
    key: u64,
    value: String,
}

impl Node {
    fn new(key: u64, node: String) -> (r: Node)
        ensures
            r.key == key,
            r.value == node,
    {
        Node { key, value: node }
    }
}

/// A consistent-hash ring: labels kept in ascending order of their position.
///
/// Two labels may share a position. Both are kept, in the order they were
/// added; a lookup that lands on that position, and a removal by that
/// position, take the one added first.
pub struct HashRing<S = DefaultHashBuilder> {
    hash_builder: S,
    ring: Vec<Node>,
}

impl<S> View for HashRing<S> {
    type V = Seq<(u64, Seq<char>)>;

    closed spec fn view(&self) -> Seq<(u64, Seq<char>)> {
        self.ring@.map_values(|n: Node| (n.key, n.value@))
    }
}

impl Default for HashRing {
    fn default() -> (r: Self)
        ensures
            r.wf(),
            r@ == Seq::<(u64, Seq<char>)>::empty(),
    {
        HashRing::with_hasher(DefaultHashBuilder)
    }
}

impl HashRing {
    /// Create a new, empty `HashRing`.
    pub fn new() -> (r: HashRing)
        ensures
            r.wf(),
            r@ == Seq::<(u64, Seq<char>)>::empty(),
    {
        HashRing::default()
    }
}

impl<S> HashRing<S> {
    pub open spec fn wf(&self) -> bool {
        ring_wf(self@)
    }

    /// Creates an empty `HashRing` which will use the given builder.
    pub fn with_hasher(hash_builder: S) -> (r: HashRing<S>)
        ensures
            r.wf(),
            r@ == Seq::<(u64, Seq<char>)>::empty(),
    {
        let r = HashRing { hash_builder, ring: Vec::new() };
        assert(r@ =~= Seq::<(u64, Seq<char>)>::empty());
        r
    }

    /// The number of entries on the ring.
    pub fn len(&self) -> (r: usize)
        ensures
            r == self@.len(),
    {
        self.ring.len()
    }

    /// Whether the ring has no entries.
    pub fn is_empty(&self) -> (r: bool)
        ensures
            r == (self@.len() == 0),
    {
        self.ring.len() == 0
    }

    // Binary search for the first entry whose key is at least `k` (or,
    // with `above`, greater than `k`).
    fn partition_point(&self, k: u64, above: bool) -> (r: usize)
        requires
            self.wf(),
        ensures
            r <= self@.len(),
            r == first_from(self@, if above { k + 1 } else { k as int }),
            forall|i: int| 0 <= i < r ==> #[trigger] self@[i].0 < (if above { k + 1 } else { k as int }),
            forall|i: int| r <= i < self@.len() ==> #[trigger] self@[i].0 >= (if above { k + 1 } else { k as int }),
    {
        let ghost t: int = if above { k + 1 } else { k as int };
        let mut lo: usize = 0;
        let mut hi: usize = self.ring.len();
        while lo < hi
            invariant
                self.wf(),
                t == (if above { k + 1 } else { k as int }),
                lo <= hi <= self@.len(),
                self@.len() == self.ring@.len(),
                forall|i: int| 0 <= i < lo ==> #[trigger] self@[i].0 < t,
                forall|i: int| hi <= i < self@.len() ==> #[trigger] self@[i].0 >= t,
            decreases hi - lo,
        {
            let mid: usize = lo + (hi - lo) / 2;
            let mk: u64 = self.ring[mid].key;
            assert(self@[mid as int].0 == mk);
            let go_right: bool = if above { mk <= k } else { mk < k };
            if go_right {
                assert forall|i: int| 0 <= i < mid + 1 implies #[trigger] self@[i].0 < t by {
                    assert(self@[i].0 <= self@[mid as int].0);
                }
                lo = mid + 1;
            } else {
                assert forall|i: int| mid <= i < self@.len() implies #[trigger] self@[i].0 >= t by {
                    assert(self@[mid as int].0 <= self@[i].0);
                }
                hi = mid;
            }
        }
        proof {
            lemma_first_from(self@, t, lo as int);
        }
        lo
    }

    /// Add `node` to the ring, after any entries with an equal key.
    pub fn add(&mut self, node: String)
        requires
            old(self).wf(),
        ensures
            final(self).wf(),
            final(self)@ == ring_insert(old(self)@, node@),
    {
        let key = get_key(node.as_str());
        let i = self.partition_point(key, true);
        let ghost s = self@;
        let ghost e = (key, node@);
        self.ring.insert(i, Node::new(key, node));
        assert(self@ =~= s.insert(i as int, e));
        assert forall|a: int, b: int| 0 <= a <= b < self@.len() implies self@[a].0 <= self@[b].0 by {
            if a < i && b > i {
                assert(self@[b] == s[b - 1]);
            } else if a > i {
                assert(self@[a] == s[a - 1]);
                assert(self@[b] == s[b - 1]);
            } else if b < i {
            } else if a == i && b > i {
                assert(self@[b] == s[b - 1]);
            }
        }
        assert forall|a: int| 0 <= a < self@.len() implies #[trigger] self@[a].0 == ring_key(self@[a].1) by {
            if a > i {
                assert(self@[a] == s[a - 1]);
            }
        }
    }

    /// Remove the first entry whose key is `node`'s position. Returns its
    /// label, or `None` when no entry has that key.
    pub fn remove(&mut self, node: &str) -> (r: Option<String>)
        requires
            old(self).wf(),
        ensures
            final(self).wf(),
            ({
                let s = old(self)@;
                let i = first_from(s, ring_key(node@) as int);
                if i < s.len() && s[i].0 == ring_key(node@) {
                    &&& r is Some
                    &&& r->Some_0@ == s[i].1
                    &&& final(self)@ == s.remove(i)
                } else {
                    &&& r is None
                    &&& final(self)@ == s
                }
            }),
    {
        let key = get_key(node);
        let i = self.partition_point(key, false);
        let ghost s = self@;
        if i < self.ring.len() && self.ring[i].key == key {
            let n = self.ring.remove(i);
            assert(self@ =~= s.remove(i as int));
            assert forall|a: int, b: int| 0 <= a <= b < self@.len() implies self@[a].0 <= self@[b].0 by {
                assert(self@[a] == s[if a < i { a } else { a + 1 }]);
                assert(self@[b] == s[if b < i { b } else { b + 1 }]);
            }
            assert forall|a: int| 0 <= a < self@.len() implies #[trigger] self@[a].0 == ring_key(self@[a].1) by {
                assert(self@[a] == s[if a < i { a } else { a + 1 }]);
            }
            Some(n.value)
        } else {
            None
        }
    }

    /// The label that owns `key`: that of the first entry whose key is at
    /// least `key`'s position, wrapping round to the first entry. `None`
    /// when the ring is empty.
    pub fn get(&mut self, key: &str) -> (r: Option<&str>)
        requires
            old(self).wf(),
        ensures
            *final(self) == *old(self),
            old(self)@.len() == 0 ==> r is None,
            old(self)@.len() > 0 ==> r is Some && r->Some_0@ == ring_successor(old(self)@, ring_key(key@)),
    {
        if self.ring.is_empty() {
            return None;
        }
        let k = get_key(key);
        let n = self.partition_point(k, false);
        if n == self.ring.len() {
            return Some(self.ring[0].value.as_str());
        }
        Some(self.ring[n].value.as_str())
    }
}

// The ring position of `input`.
fn get_key(input: &str) -> (r: u64)
    ensures
        r == ring_key(input@),
{
    fnv(input) as u64
}

} // verus!
