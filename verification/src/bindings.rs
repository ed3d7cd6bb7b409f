//! Trusted bindings to `bimap::BiHashMap`, the bidirectional hash map that
//! backs the table.
//!
//! The map is held at plain-integer keys ([`RawKey`]) so that its behaviour
//! rests only on the documented equality and hashing of primitive integers.
//! Its abstract contents are named by [`bi_contents`]; each wrapper states,
//! over that name, what the corresponding `BiHashMap` method does according
//! to its documentation and source.

use vstd::prelude::*;
use crate::flow::RawKey;
use crate::model::{in_range, forward_lookup, overwritten};

verus! {

/// Declares `bimap::BiHashMap` so that it can stand in verified signatures
/// and fields; its values are opaque to the verifier.
#[verifier::external_type_specification]
#[verifier::external_body]
#[verifier::reject_recursive_types(L)]
#[verifier::reject_recursive_types(R)]
#[verifier::reject_recursive_types(LS)]
#[verifier::reject_recursive_types(RS)]
pub struct ExBiHashMap<L, R, LS, RS>(bimap::BiHashMap<L, R, LS, RS>);

/// The left-to-right association a `BiHashMap` holds: one entry per
/// left-right pair.
pub uninterp spec fn bi_contents(m: bimap::BiHashMap<RawKey, RawKey>) -> Map<RawKey, RawKey>;

/// Relies on bimap::BiHashMap::new: creates an empty bimap.
#[verifier::external_body]
pub(crate) fn bi_new() -> (m: bimap::BiHashMap<RawKey, RawKey>)
    ensures
        (bi_contents(m) == Map::<RawKey, RawKey>::empty()),
{
    bimap::BiHashMap::new()
}

/// Relies on bimap::BiHashMap::insert_no_overwrite: if either value is
/// already present on its side the map is unchanged and the pair comes back
/// as an error; otherwise the pair is added.
#[verifier::external_body]
pub(crate) fn bi_insert_no_overwrite(
    m: &mut bimap::BiHashMap<RawKey, RawKey>,
    l: RawKey,
    r: RawKey,
) -> (ok: bool)
    ensures
        ok == !(bi_contents(*old(m)).dom().contains(l) || in_range(bi_contents(*old(m)), r)),
        ok ==> bi_contents(*final(m)) == bi_contents(*old(m)).insert(l, r),
        !ok ==> bi_contents(*final(m)) == bi_contents(*old(m)),
{
    m.insert_no_overwrite(l, r).is_ok()
}

/// Relies on bimap::BiHashMap::insert: removes any pair containing the left
/// value and any pair containing the right value, then adds the new pair.
#[verifier::external_body]
pub(crate) fn bi_insert(m: &mut bimap::BiHashMap<RawKey, RawKey>, l: RawKey, r: RawKey)
    ensures
        bi_contents(*final(m)) == overwritten(bi_contents(*old(m)), l, r),
{
    let _ = m.insert(l, r);
}

/// Relies on bimap::BiHashMap::get_by_left: the right value paired with the
/// given left value, or absent.
#[verifier::external_body]
pub(crate) fn bi_get_by_left(m: &bimap::BiHashMap<RawKey, RawKey>, l: &RawKey) -> (r: Option<
    RawKey,
>)
    ensures
        r == forward_lookup(bi_contents(*m), *l),
{
    m.get_by_left(l).copied()
}

/// Relies on bimap::BiHashMap::get_by_right: the left value paired with the
/// given right value, or absent.
#[verifier::external_body]
pub(crate) fn bi_get_by_right(m: &bimap::BiHashMap<RawKey, RawKey>, r: &RawKey) -> (l: Option<
    RawKey,
>)
    ensures
        match l {
            Some(lv) => bi_contents(*m).dom().contains(lv) && bi_contents(*m)[lv] == *r,
            None => !in_range(bi_contents(*m), *r),
        },
{
    m.get_by_right(r).copied()
}

/// Relies on bimap::BiHashMap::contains_left: whether the given left value
/// participates in a pair.
#[verifier::external_body]
pub(crate) fn bi_contains_left(m: &bimap::BiHashMap<RawKey, RawKey>, l: &RawKey) -> (r: bool)
    ensures
        r == bi_contents(*m).dom().contains(*l),
{
    m.contains_left(l)
}

/// Relies on bimap::BiHashMap::contains_right: whether the given right value
/// participates in a pair.
#[verifier::external_body]
pub(crate) fn bi_contains_right(m: &bimap::BiHashMap<RawKey, RawKey>, r: &RawKey) -> (b: bool)
    ensures
        b == in_range(bi_contents(*m), *r),
{
    m.contains_right(r)
}

/// Relies on bimap::BiHashMap::len: the number of left-right pairs.
#[verifier::external_body]
pub(crate) fn bi_len(m: &bimap::BiHashMap<RawKey, RawKey>) -> (n: usize)
    ensures
        n == bi_contents(*m).len(),
{
    m.len()
}

/// Relies on bimap::BiHashMap::is_empty: whether the map holds no pair.
#[verifier::external_body]
pub(crate) fn bi_is_empty(m: &bimap::BiHashMap<RawKey, RawKey>) -> (r: bool)
    ensures
        r == bi_contents(*m).dom().is_empty(),
{
    m.is_empty()
}

/// Relies on bimap::BiHashMap::clear: removes every pair.
#[verifier::external_body]
pub(crate) fn bi_clear(m: &mut bimap::BiHashMap<RawKey, RawKey>)
    ensures
        (bi_contents(*final(m)) == Map::<RawKey, RawKey>::empty()),
{
    m.clear()
}

/// Relies on bimap::BiHashMap::remove_by_left: removes and returns the pair
/// with the given left value, if present.
#[verifier::external_body]
pub(crate) fn bi_remove_by_left(m: &mut bimap::BiHashMap<RawKey, RawKey>, l: &RawKey) -> (r:
    Option<(RawKey, RawKey)>)
    ensures
        match r {
            Some(p) => {
                &&& bi_contents(*old(m)).dom().contains(*l)
                &&& p.0 == *l
                &&& p.1 == bi_contents(*old(m))[*l]
                &&& bi_contents(*final(m)) == bi_contents(*old(m)).remove(*l)
            },
            None => {
                &&& !bi_contents(*old(m)).dom().contains(*l)
                &&& bi_contents(*final(m)) == bi_contents(*old(m))
            },
        },
{
    m.remove_by_left(l)
}

/// Relies on bimap::BiHashMap::remove_by_right: removes and returns the pair
/// with the given right value, if present.
#[verifier::external_body]
pub(crate) fn bi_remove_by_right(m: &mut bimap::BiHashMap<RawKey, RawKey>, r: &RawKey) -> (p:
    Option<(RawKey, RawKey)>)
    ensures
        match p {
            Some(pair) => {
                &&& bi_contents(*old(m)).dom().contains(pair.0)
                &&& bi_contents(*old(m))[pair.0] == *r
                &&& pair.1 == *r
                &&& bi_contents(*final(m)) == bi_contents(*old(m)).remove(pair.0)
            },
            None => {
                &&& !in_range(bi_contents(*old(m)), *r)
                &&& bi_contents(*final(m)) == bi_contents(*old(m))
            },
        },
{
    m.remove_by_right(r)
}

} // verus!
