//! Trusted interface to `roaring::RoaringBitmap`, the compressed bitmap type
//! used for every secondary index of the task queue.
//!
//! The contents of a bitmap are abstracted as a finite `Set<u32>` through the
//! uninterpreted function [`elems`]; each wrapper states over `elems` what the
//! corresponding `roaring` method does according to that crate's source.

use vstd::prelude::*;
use roaring::RoaringBitmap;

verus! {

#[verifier::external_type_specification]
#[verifier::external_body]
pub struct ExRoaringBitmap(RoaringBitmap);

/// What a `roaring::RoaringBitmap` holds, as a set of 32-bit integers.
pub uninterp spec fn elems(b: RoaringBitmap) -> Set<u32>;

/// Relies on `RoaringBitmap::new`: the fresh bitmap contains no value.
#[verifier::external_body]
pub fn rb_new() -> (r: RoaringBitmap)
    ensures
        elems(r) == Set::<u32>::empty(),
{
    RoaringBitmap::new()
}

/// Relies on `RoaringBitmap::clone`: the copy contains exactly the same values.
#[verifier::external_body]
pub fn rb_clone(b: &RoaringBitmap) -> (r: RoaringBitmap)
    ensures
        elems(r) == elems(*b) && elems(r).finite(),
{
    b.clone()
}

/// Relies on `RoaringBitmap::insert`: adds the value and reports whether it
/// was absent.
#[verifier::external_body]
pub fn rb_insert(b: &mut RoaringBitmap, x: u32) -> (r: bool)
    ensures
        elems(*final(b)) == elems(*old(b)).insert(x) && elems(*final(b)).finite(),
        r == !elems(*old(b)).contains(x),
{
    b.insert(x)
}

/// Relies on `RoaringBitmap::remove`: removes the value and reports whether it
/// was present.
#[verifier::external_body]
pub fn rb_remove(b: &mut RoaringBitmap, x: u32) -> (r: bool)
    ensures
        elems(*final(b)) == elems(*old(b)).remove(x) && elems(*final(b)).finite(),
        r == elems(*old(b)).contains(x),
{
    b.remove(x)
}

/// Relies on `RoaringBitmap::contains`.
#[verifier::external_body]
pub fn rb_contains(b: &RoaringBitmap, x: u32) -> (r: bool)
    ensures
        r == elems(*b).contains(x),
{
    b.contains(x)
}

/// Relies on `RoaringBitmap::len`: the number of stored values.
#[verifier::external_body]
pub fn rb_len(b: &RoaringBitmap) -> (r: u64)
    ensures
        r == elems(*b).len(),
{
    b.len()
}

/// Relies on `RoaringBitmap::is_empty`.
#[verifier::external_body]
pub fn rb_is_empty(b: &RoaringBitmap) -> (r: bool)
    ensures
        r == (elems(*b) =~= Set::<u32>::empty()),
{
    b.is_empty()
}

/// Relies on `RoaringBitmap::min`: the smallest stored value, if any.
#[verifier::external_body]
pub fn rb_min(b: &RoaringBitmap) -> (r: Option<u32>)
    ensures
        r is None ==> elems(*b) =~= Set::<u32>::empty(),
        r matches Some(m) ==> elems(*b).contains(m) && (forall|x: u32|
            elems(*b).contains(x) ==> m <= x),
{
    b.min()
}

/// Relies on `RoaringBitmap::max`: the largest stored value, if any.
#[verifier::external_body]
pub fn rb_max(b: &RoaringBitmap) -> (r: Option<u32>)
    ensures
        r is None ==> elems(*b) =~= Set::<u32>::empty(),
        r matches Some(m) ==> elems(*b).contains(m) && (forall|x: u32|
            elems(*b).contains(x) ==> m >= x),
{
    b.max()
}

/// Relies on `BitAnd for &RoaringBitmap`: set intersection.
#[verifier::external_body]
pub fn rb_and(a: &RoaringBitmap, b: &RoaringBitmap) -> (r: RoaringBitmap)
    ensures
        elems(r) == elems(*a).intersect(elems(*b)) && elems(r).finite(),
{
    a & b
}

/// Relies on `BitOr for &RoaringBitmap`: set union.
#[verifier::external_body]
pub fn rb_or(a: &RoaringBitmap, b: &RoaringBitmap) -> (r: RoaringBitmap)
    ensures
        elems(r) == elems(*a).union(elems(*b)) && elems(r).finite(),
{
    a | b
}

/// Relies on `Sub for &RoaringBitmap`: set difference.
#[verifier::external_body]
pub fn rb_sub(a: &RoaringBitmap, b: &RoaringBitmap) -> (r: RoaringBitmap)
    ensures
        elems(r) == elems(*a).difference(elems(*b)) && elems(r).finite(),
{
    a - b
}

/// Relies on `BitOrAssign for RoaringBitmap`: in-place union.
#[verifier::external_body]
pub fn rb_or_assign(a: &mut RoaringBitmap, b: &RoaringBitmap)
    ensures
        elems(*final(a)) == elems(*old(a)).union(elems(*b)) && elems(*final(a)).finite(),
{
    *a |= b
}

/// Relies on `SubAssign for RoaringBitmap`: in-place difference.
#[verifier::external_body]
pub fn rb_sub_assign(a: &mut RoaringBitmap, b: &RoaringBitmap)
    ensures
        elems(*final(a)) == elems(*old(a)).difference(elems(*b)) && elems(*final(a)).finite(),
{
    *a -= b
}

/// Relies on `RoaringBitmap::remove_range` on `lo..`: drops every value that
/// is greater than or equal to the bound.
#[verifier::external_body]
pub fn rb_remove_from(b: &mut RoaringBitmap, lo: u32)
    ensures
        elems(*final(b)) == elems(*old(b)).filter(|x: u32| x < lo) && elems(*final(b)).finite(),
{
    b.remove_range(lo..);
}

/// Relies on `RoaringBitmap::iter`: values come out in strictly increasing
/// order and are exactly the stored values.
#[verifier::external_body]
pub fn rb_to_vec(b: &RoaringBitmap) -> (r: Vec<u32>)
    ensures
        (forall|i: int| 0 <= i < r@.len() ==> elems(*b).contains(#[trigger] r@[i])),
        (forall|x: u32| elems(*b).contains(x) ==> r@.contains(x)),
        (forall|i: int, j: int| 0 <= i < j < r@.len() ==> r@[i] < r@[j]),
        r@.len() == elems(*b).len(),
{
    b.iter().collect()
}

} // verus!
