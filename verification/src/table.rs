//! The sequential core of the translation table: [`FlowTable`], a bijection
//! between internal and external flow identifiers backed by a bidirectional
//! hash map, with exact contracts over its abstract map.

use vstd::prelude::*;
use vstd::relations::injective_on;
use vstd::set_lib::lemma_map_size;
use vstd::set_lib::lemma_set_subset_finite;
use crate::bindings::{
    bi_clear, bi_contains_left, bi_contains_right, bi_contents, bi_get_by_left, bi_get_by_right,
    bi_insert, bi_insert_no_overwrite, bi_is_empty, bi_len, bi_new, bi_remove_by_left,
    bi_remove_by_right,
};
use crate::flow::{flow_from_raw, flow_of, key_of, raw_key_of, FlowIdentifier, RawKey};
use crate::model::{
    bijective, collides, forward_lookup, in_range, lemma_insert_preserves_bijection,
    lemma_overwritten_preserves_bijection, lemma_remove_preserves_bijection, overwritten,
    reverse_lookup,
};

verus! {

/// Returned by an insertion when either side of the requested pair already
/// participates in a mapping; the table is left unchanged.
#[derive(Clone, Copy, Debug, PartialEq, Eq, Structural)]
pub struct CollisionError;

/// The flow-identifier map that a raw-keyed map stands for: the same pairs,
/// each key and value read back through [`flow_of`].
pub open spec fn view_of(m: Map<RawKey, RawKey>) -> Map<FlowIdentifier, FlowIdentifier> {
    Map::new(
        |f: FlowIdentifier| m.dom().contains(key_of(f)),
        |f: FlowIdentifier| flow_of(m[key_of(f)]),
    )
}

/// A value is in the range of the raw map exactly when its flow identifier
/// is in the range of the viewed map.
proof fn lemma_view_in_range(m: Map<RawKey, RawKey>, e: FlowIdentifier)
    ensures
        in_range(view_of(m), e) == in_range(m, key_of(e)),
{
    let v = view_of(m);
    if in_range(v, e) {
        let i = choose|i: FlowIdentifier| #[trigger] v.dom().contains(i) && v[i] == e;
        assert(flow_of(m[key_of(i)]) == e);
        assert(m[key_of(i)] == key_of(e));
        assert(m.dom().contains(key_of(i)) && m[key_of(i)] == key_of(e));
    }
    if in_range(m, key_of(e)) {
        let k = choose|k: RawKey| #[trigger] m.dom().contains(k) && m[k] == key_of(e);
        let i = flow_of(k);
        assert(key_of(i) == k);
        assert(v.dom().contains(i) && v[i] == e);
    }
}

/// Inserting a raw pair inserts the corresponding flow pair in the view.
proof fn lemma_view_insert(m: Map<RawKey, RawKey>, l: RawKey, r: RawKey)
    ensures
        view_of(m.insert(l, r)) == view_of(m).insert(flow_of(l), flow_of(r)),
{
    let lhs = view_of(m.insert(l, r));
    let rhs = view_of(m).insert(flow_of(l), flow_of(r));
    assert forall|f: FlowIdentifier| lhs.dom().contains(f) == rhs.dom().contains(f) by {
        assert(flow_of(key_of(f)) == f);
        assert(key_of(flow_of(l)) == l);
    }
    assert forall|f: FlowIdentifier| lhs.dom().contains(f) implies lhs[f] == rhs[f] by {
        assert(flow_of(key_of(f)) == f);
        assert(key_of(flow_of(l)) == l);
    }
    assert(lhs =~= rhs);
}

/// Removing a raw key removes the corresponding flow identifier from the
/// view.
proof fn lemma_view_remove(m: Map<RawKey, RawKey>, l: RawKey)
    ensures
        view_of(m.remove(l)) == view_of(m).remove(flow_of(l)),
{
    let lhs = view_of(m.remove(l));
    let rhs = view_of(m).remove(flow_of(l));
    assert forall|f: FlowIdentifier| lhs.dom().contains(f) == rhs.dom().contains(f) by {
        assert(flow_of(key_of(f)) == f);
        assert(key_of(flow_of(l)) == l);
    }
    assert forall|f: FlowIdentifier| lhs.dom().contains(f) implies lhs[f] == rhs[f] by {
        assert(flow_of(key_of(f)) == f);
    }
    assert(lhs =~= rhs);
}

/// The forced-insert transformer commutes with the view.
proof fn lemma_view_overwritten(m: Map<RawKey, RawKey>, l: RawKey, r: RawKey)
    ensures
        view_of(overwritten(m, l, r)) == overwritten(view_of(m), flow_of(l), flow_of(r)),
{
    let lhs = view_of(overwritten(m, l, r));
    let rhs = overwritten(view_of(m), flow_of(l), flow_of(r));
    assert forall|f: FlowIdentifier| lhs.dom().contains(f) == rhs.dom().contains(f) by {
        assert(flow_of(key_of(f)) == f);
        assert(key_of(flow_of(l)) == l);
        if m.dom().contains(key_of(f)) {
            assert(key_of(flow_of(m[key_of(f)])) == m[key_of(f)]);
            assert(key_of(flow_of(r)) == r);
        }
    }
    assert forall|f: FlowIdentifier| lhs.dom().contains(f) implies lhs[f] == rhs[f] by {
        assert(flow_of(key_of(f)) == f);
        assert(key_of(flow_of(l)) == l);
    }
    assert(lhs =~= rhs);
}

/// A finite raw map and its view have the same number of pairs.
proof fn lemma_view_finite_len(m: Map<RawKey, RawKey>)
    requires
        m.dom().finite(),
    ensures
        view_of(m).dom().finite(),
        view_of(m).len() == m.len(),
{
    let f = |k: RawKey| flow_of(k);
    let x = m.dom();
    let y = view_of(m).dom();
    assert forall|fl: FlowIdentifier| x.map(f).contains(fl) implies y.contains(fl) by {
        let k = choose|k: RawKey| x.contains(k) && fl == f(k);
        assert(key_of(flow_of(k)) == k);
    }
    assert forall|fl: FlowIdentifier| y.contains(fl) implies x.map(f).contains(fl) by {
        assert(flow_of(key_of(fl)) == fl);
        assert(x.contains(key_of(fl)) && fl == f(key_of(fl)));
    }
    assert(x.map(f) =~= y);
    assert forall|k1: RawKey, k2: RawKey|
        x.contains(k1) && x.contains(k2) && #[trigger] f(k1) == #[trigger] f(k2) implies k1
        == k2 by {
        assert(key_of(flow_of(k1)) == k1);
        assert(key_of(flow_of(k2)) == k2);
    }
    assert(injective_on(f, x));
    lemma_map_size(x, y, f);
}

/// The view of the empty raw map is the empty map.
proof fn lemma_view_empty()
    ensures
        (view_of(Map::<RawKey, RawKey>::empty()) == Map::<
            FlowIdentifier,
            FlowIdentifier,
        >::empty()),
{
    assert(view_of(Map::<RawKey, RawKey>::empty()) =~= Map::<
        FlowIdentifier,
        FlowIdentifier,
    >::empty());
}

/// A bijective mapping between internal and external flow identifiers.
///
/// The abstract state is the map `self@` from internal to external
/// identifiers; the reverse direction is determined by it. Every operation
/// preserves the well-formedness predicate [`FlowTable::wf`]: the mapping is
/// finite and no two internal identifiers translate to the same external
/// one.
pub struct FlowTable {
    map: bimap::BiHashMap<RawKey, RawKey>,
}

impl View for FlowTable {
    type V = Map<FlowIdentifier, FlowIdentifier>;

    closed spec fn view(&self) -> Map<FlowIdentifier, FlowIdentifier> {
        view_of(bi_contents(self.map))
    }
}

impl FlowTable {
    /// The table's invariant: finitely many entries, and the mapping from
    /// internal to external identifiers is a bijection.
    pub closed spec fn wf(&self) -> bool {
        bi_contents(self.map).dom().finite() && bijective(self@)
    }

    /// What well-formedness gives a caller: the mapping is a finite
    /// bijection.
    pub proof fn lemma_wf(&self)
        requires
            self.wf(),
        ensures
            bijective(self@),
            self@.dom().finite(),
    {
        lemma_view_finite_len(bi_contents(self.map));
    }

    /// Creates an empty table.
    pub fn new() -> (t: FlowTable)
        ensures
            t.wf(),
            (t@ == Map::<FlowIdentifier, FlowIdentifier>::empty()),
    {
        let map = bi_new();
        proof {
            lemma_view_empty();
        }
        FlowTable { map }
    }

    /// Adds the pair `(internal, external)` if neither identifier already
    /// participates in any mapping, on either side; otherwise fails with
    /// [`CollisionError`] and leaves the table unchanged. Re-inserting an
    /// already-present pair is also a collision.
    pub fn insert(&mut self, internal: FlowIdentifier, external: FlowIdentifier) -> (r: Result<
        (),
        CollisionError,
    >)
        requires
            old(self).wf(),
        ensures
            final(self).wf(),
            ((r is Ok) <==> !collides(old(self)@, internal, external)),
            r is Ok ==> final(self)@ == old(self)@.insert(internal, external),
            r is Err ==> final(self)@ == old(self)@,
    {
        proof {
            lemma_view_in_range(bi_contents(self.map), external);
        }
        let ghost m0 = bi_contents(self.map);
        let ghost v0 = self@;
        let kl = raw_key_of(&internal);
        let kr = raw_key_of(&external);
        let ok = bi_insert_no_overwrite(&mut self.map, kl, kr);
        if ok {
            proof {
                lemma_view_insert(m0, kl, kr);
                assert(flow_of(kl) == internal);
                assert(flow_of(kr) == external);
                lemma_insert_preserves_bijection(v0, internal, external);
            }
            Ok(())
        } else {
            Err(CollisionError)
        }
    }

    /// Forces the pair `(internal, external)` into the table: removes
    /// whatever prior mapping involved `internal` or `external`, on either
    /// side, then adds the pair. Cannot fail; may silently evict an
    /// unrelated mapping that was using `external`.
    pub fn insert_overwrite(&mut self, internal: FlowIdentifier, external: FlowIdentifier)
        requires
            old(self).wf(),
        ensures
            final(self).wf(),
            final(self)@ == overwritten(old(self)@, internal, external),
    {
        let ghost m0 = bi_contents(self.map);
        let ghost v0 = self@;
        let kl = raw_key_of(&internal);
        let kr = raw_key_of(&external);
        bi_insert(&mut self.map, kl, kr);
        proof {
            lemma_view_overwritten(m0, kl, kr);
            assert(flow_of(kl) == internal);
            assert(flow_of(kr) == external);
            lemma_overwritten_preserves_bijection(v0, internal, external);
            assert forall|k: RawKey| #[trigger]
                overwritten(m0, kl, kr).dom().contains(k) implies m0.dom().insert(kl).contains(
                k,
            ) by {}
            assert(overwritten(m0, kl, kr).dom().subset_of(m0.dom().insert(kl)));
            lemma_set_subset_finite(m0.dom().insert(kl), overwritten(m0, kl, kr).dom());
        }
    }

    /// The external identifier that `internal` translates to, or `None` if
    /// `internal` has no mapping. Returns a copy.
    pub fn get_external(&self, internal: &FlowIdentifier) -> (r: Option<FlowIdentifier>)
        ensures
            r == forward_lookup(self@, *internal),
    {
        let kl = raw_key_of(internal);
        let res = bi_get_by_left(&self.map, &kl);
        proof {
            let m = bi_contents(self.map);
            assert(flow_of(key_of(*internal)) == *internal);
            if m.dom().contains(kl) {
                assert(self@[*internal] == flow_of(m[kl]));
            }
        }
        match res {
            Some(k) => Some(flow_from_raw(&k)),
            None => None,
        }
    }

    /// The internal identifier that translates to `external`, or `None` if
    /// no mapping uses `external`. Returns a copy.
    pub fn get_internal(&self, external: &FlowIdentifier) -> (r: Option<FlowIdentifier>)
        requires
            self.wf(),
        ensures
            r == reverse_lookup(self@, *external),
    {
        let kr = raw_key_of(external);
        let res = bi_get_by_right(&self.map, &kr);
        proof {
            let m = bi_contents(self.map);
            let v = self@;
            lemma_view_in_range(m, *external);
            assert(flow_of(key_of(*external)) == *external);
            match res {
                Some(kl) => {
                    let i = flow_of(kl);
                    assert(key_of(i) == kl);
                    assert(v.dom().contains(i) && v[i] == *external);
                    let w = choose|w: FlowIdentifier| #[trigger]
                        v.dom().contains(w) && v[w] == *external;
                    assert(v.dom().contains(w) && v.dom().contains(i) && v[w] == v[i]);
                    assert(w == i);
                },
                None => {
                    assert(!in_range(v, *external));
                },
            }
        }
        match res {
            Some(k) => Some(flow_from_raw(&k)),
            None => None,
        }
    }

    /// Whether `internal` participates in a mapping as the internal side.
    pub fn contains_internal(&self, internal: &FlowIdentifier) -> (r: bool)
        ensures
            r == self@.dom().contains(*internal),
    {
        let kl = raw_key_of(internal);
        proof {
            assert(flow_of(key_of(*internal)) == *internal);
        }
        bi_contains_left(&self.map, &kl)
    }

    /// Whether `external` participates in a mapping as the external side.
    pub fn contains_external(&self, external: &FlowIdentifier) -> (r: bool)
        ensures
            r == in_range(self@, *external),
    {
        let kr = raw_key_of(external);
        proof {
            lemma_view_in_range(bi_contents(self.map), *external);
        }
        bi_contains_right(&self.map, &kr)
    }

    /// The number of mappings in the table.
    pub fn len(&self) -> (n: usize)
        requires
            self.wf(),
        ensures
            n == self@.len(),
    {
        proof {
            lemma_view_finite_len(bi_contents(self.map));
        }
        bi_len(&self.map)
    }

    /// Whether the table holds no mapping.
    pub fn is_empty(&self) -> (r: bool)
        requires
            self.wf(),
        ensures
            r == (self@.len() == 0),
    {
        proof {
            let m = bi_contents(self.map);
            lemma_view_finite_len(m);
            if m.dom().is_empty() {
                assert(m.dom().len() == 0);
            } else {
                if m.dom().len() == 0 {
                    m.dom().lemma_len0_is_empty();
                }
            }
        }
        bi_is_empty(&self.map)
    }

    /// Atomically empties the table: all prior mappings are gone.
    pub fn clear(&mut self)
        ensures
            final(self).wf(),
            (final(self)@ == Map::<FlowIdentifier, FlowIdentifier>::empty()),
    {
        bi_clear(&mut self.map);
        proof {
            lemma_view_empty();
        }
    }

    /// Removes the mapping whose internal side is `internal`, if any, and
    /// returns the external identifier it translated to.
    pub fn remove_internal(&mut self, internal: &FlowIdentifier) -> (r: Option<FlowIdentifier>)
        requires
            old(self).wf(),
        ensures
            final(self).wf(),
            r == forward_lookup(old(self)@, *internal),
            final(self)@ == old(self)@.remove(*internal),
    {
        let ghost m0 = bi_contents(self.map);
        let ghost v0 = self@;
        let kl = raw_key_of(internal);
        let res = bi_remove_by_left(&mut self.map, &kl);
        proof {
            assert(flow_of(key_of(*internal)) == *internal);
            match res {
                Some(p) => {
                    lemma_view_remove(m0, kl);
                    assert(v0[*internal] == flow_of(m0[kl]));
                },
                None => {
                    assert(v0.remove(*internal) =~= v0);
                },
            }
            lemma_remove_preserves_bijection(v0, *internal);
        }
        match res {
            Some(p) => Some(flow_from_raw(&p.1)),
            None => None,
        }
    }

    /// Removes the mapping whose external side is `external`, if any, and
    /// returns the internal identifier that translated to it.
    pub fn remove_external(&mut self, external: &FlowIdentifier) -> (r: Option<FlowIdentifier>)
        requires
            old(self).wf(),
        ensures
            final(self).wf(),
            r == reverse_lookup(old(self)@, *external),
            (final(self)@ == match reverse_lookup(old(self)@, *external) {
                Some(i) => old(self)@.remove(i),
                None => old(self)@,
            }),
    {
        let ghost m0 = bi_contents(self.map);
        let ghost v0 = self@;
        let kr = raw_key_of(external);
        let res = bi_remove_by_right(&mut self.map, &kr);
        proof {
            lemma_view_in_range(m0, *external);
            assert(flow_of(key_of(*external)) == *external);
            match res {
                Some(p) => {
                    let i = flow_of(p.0);
                    assert(key_of(i) == p.0);
                    assert(v0.dom().contains(i) && v0[i] == *external);
                    let w = choose|w: FlowIdentifier| #[trigger]
                        v0.dom().contains(w) && v0[w] == *external;
                    assert(v0.dom().contains(w) && v0.dom().contains(i) && v0[w] == v0[i]);
                    assert(w == i);
                    lemma_view_remove(m0, p.0);
                },
                None => {
                    assert(!in_range(v0, *external));
                },
            }
            lemma_remove_preserves_bijection(v0, reverse_lookup(v0, *external).unwrap());
        }
        match res {
            Some(p) => Some(flow_from_raw(&p.0)),
            None => None,
        }
    }
}

} // verus!
