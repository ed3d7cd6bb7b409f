//! The mathematical model of a bidirectional table: total maps together with
//! the predicates and transformers the table's contracts are stated over,
//! and the laws that hold of them.

use vstd::prelude::*;

verus! {

/// Some key of `m` maps to the value `v`.
pub open spec fn in_range<K, V>(m: Map<K, V>, v: V) -> bool {
    exists|k: K| #[trigger] m.dom().contains(k) && m[k] == v
}

/// No two distinct keys of `m` map to the same value. Together with `m`
/// being a map (each key has exactly one value), this makes `m` a bijection
/// between its domain and its range.
pub open spec fn bijective<K, V>(m: Map<K, V>) -> bool {
    forall|k1: K, k2: K|
        #![trigger m.dom().contains(k1), m.dom().contains(k2)]
        m.dom().contains(k1) && m.dom().contains(k2) && m[k1] == m[k2] ==> k1 == k2
}

/// Either side of the pair `(k, v)` already participates in `m`: `k` is a
/// key, or some key maps to `v`.
pub open spec fn collides<K, V>(m: Map<K, V>, k: K, v: V) -> bool {
    m.dom().contains(k) || in_range(m, v)
}

/// The value `k` maps to, or `None` when `k` is not a key of `m`.
pub open spec fn forward_lookup<K, V>(m: Map<K, V>, k: K) -> Option<V> {
    if m.dom().contains(k) {
        Some(m[k])
    } else {
        None
    }
}

/// The key of `m` that maps to `v`, or `None` when no key does. When `m` is
/// bijective the key is unique, so the choice is determined.
pub open spec fn reverse_lookup<K, V>(m: Map<K, V>, v: V) -> Option<K> {
    if in_range(m, v) {
        Some(choose|k: K| #[trigger] m.dom().contains(k) && m[k] == v)
    } else {
        None
    }
}

/// `m` with every pair that touches `l` (as key) or `r` (as value) removed,
/// and the pair `(l, r)` added: the forced-insert transformer.
pub open spec fn overwritten<K, V>(m: Map<K, V>, l: K, r: V) -> Map<K, V> {
    Map::new(
        |k: K| k == l || (m.dom().contains(k) && k != l && m[k] != r),
        |k: K| if k == l {
            r
        } else {
            m[k]
        },
    )
}

/// Insertion rejects collisions: when the pair `(a, b)` is present, the
/// identical pair, any new value for `a`, and any new key for `b` all
/// collide — so an insertion refusing collisions fails on each of them and
/// leaves the map unchanged.
pub proof fn lemma_insert_rejects_collisions<K, V>(m: Map<K, V>, a: K, b: V, x: V, y: K)
    requires
        m.dom().contains(a),
        m[a] == b,
    ensures
        collides(m, a, b),
        collides(m, a, x),
        collides(m, y, b),
{
    assert(m.dom().contains(a) && m[a] == b);
}

/// A collision-free insertion preserves bijectivity: adding a pair neither
/// of whose sides participates in a bijective map yields a bijective map.
pub proof fn lemma_insert_preserves_bijection<K, V>(m: Map<K, V>, k: K, v: V)
    requires
        bijective(m),
        !collides(m, k, v),
    ensures
        bijective(m.insert(k, v)),
{
    let m2 = m.insert(k, v);
    assert forall|k1: K, k2: K|
        #![trigger m2.dom().contains(k1), m2.dom().contains(k2)]
        m2.dom().contains(k1) && m2.dom().contains(k2) && m2[k1] == m2[k2] implies k1 == k2 by {
        if k1 == k && k2 != k {
            assert(m.dom().contains(k2) && m[k2] == v);
        }
        if k2 == k && k1 != k {
            assert(m.dom().contains(k1) && m[k1] == v);
        }
    }
}

/// A forced insertion always restores bijectivity: after removing every pair
/// that touches either side and adding the new pair, a bijective map stays
/// bijective.
pub proof fn lemma_overwritten_preserves_bijection<K, V>(m: Map<K, V>, l: K, r: V)
    requires
        bijective(m),
    ensures
        bijective(overwritten(m, l, r)),
{
    let m2 = overwritten(m, l, r);
    assert forall|k1: K, k2: K|
        #![trigger m2.dom().contains(k1), m2.dom().contains(k2)]
        m2.dom().contains(k1) && m2.dom().contains(k2) && m2[k1] == m2[k2] implies k1 == k2 by {
        if k1 != l && k2 != l {
            assert(m.dom().contains(k1) && m.dom().contains(k2));
        }
    }
}

/// Round-trip lookup: immediately after a collision-free insertion of the
/// pair `(k, v)`, the forward lookup of `k` yields `v` and the reverse
/// lookup of `v` yields `k`.
pub proof fn lemma_round_trip<K, V>(m: Map<K, V>, k: K, v: V)
    requires
        !collides(m, k, v),
    ensures
        forward_lookup(m.insert(k, v), k) == Some(v),
        reverse_lookup(m.insert(k, v), v) == Some(k),
{
    let m2 = m.insert(k, v);
    assert(m2.dom().contains(k) && m2[k] == v);
    let w = choose|k2: K| #[trigger] m2.dom().contains(k2) && m2[k2] == v;
    if w != k {
        assert(m.dom().contains(w) && m[w] == v);
    }
}

/// Forced insertion displaces: when `(a, b)` is a pair of the bijective map
/// `m` and `c != b`, forcing in `(a, c)` makes the forward lookup of `a`
/// yield `c`, leaves no key mapping to `b` (it is orphaned), and makes the
/// reverse lookup of `c` yield `a`.
pub proof fn lemma_overwrite_displaces<K, V>(m: Map<K, V>, a: K, b: V, c: V)
    requires
        bijective(m),
        m.dom().contains(a),
        m[a] == b,
        c != b,
    ensures
        forward_lookup(overwritten(m, a, c), a) == Some(c),
        reverse_lookup(overwritten(m, a, c), b) == None::<K>,
        reverse_lookup(overwritten(m, a, c), c) == Some(a),
{
    let m2 = overwritten(m, a, c);
    assert(m2.dom().contains(a) && m2[a] == c);
    assert forall|k: K| #[trigger] m2.dom().contains(k) implies m2[k] != b by {
        if k != a {
            assert(m.dom().contains(k) && m.dom().contains(a));
        }
    }
    assert(!in_range(m2, b));
    let w = choose|k: K| #[trigger] m2.dom().contains(k) && m2[k] == c;
    assert(w == a);
}

/// Removing a key preserves bijectivity.
pub proof fn lemma_remove_preserves_bijection<K, V>(m: Map<K, V>, k: K)
    requires
        bijective(m),
    ensures
        bijective(m.remove(k)),
{
    let m2 = m.remove(k);
    assert forall|k1: K, k2: K|
        #![trigger m2.dom().contains(k1), m2.dom().contains(k2)]
        m2.dom().contains(k1) && m2.dom().contains(k2) && m2[k1] == m2[k2] implies k1 == k2 by {
        assert(m.dom().contains(k1) && m.dom().contains(k2));
    }
}

/// The empty map is bijective and every lookup in it, in either direction,
/// is absent.
pub proof fn lemma_empty_lookups<K, V>(k: K, v: V)
    ensures
        bijective(Map::<K, V>::empty()),
        forward_lookup(Map::<K, V>::empty(), k) == None::<V>,
        reverse_lookup(Map::<K, V>::empty(), v) == None::<K>,
{
}

} // verus!
