//! Trusted declarations for the slot-reusing collection of the `slab` crate.
//!
//! The registry keeps, for each live sink, a `u64` handle that stands for the
//! sink itself; the collection maps each identifier to that handle.
use slab::Slab;
use vstd::prelude::*;

verus! {

#[verifier::external_type_specification]
#[verifier::external_body]
#[verifier::reject_recursive_types(T)]
pub struct ExSlab<T>(Slab<T>);

/// The live entries of a slab: each occupied key with the value stored under it.
pub uninterp spec fn slab_entries(s: Slab<u64>) -> Map<usize, u64>;

/// The number of slots of a slab, occupied or vacant: its key space so far.
pub uninterp spec fn slab_slots(s: Slab<u64>) -> usize;

/// Relies on `Slab::new`: a new slab holds no entry and no slot.
#[verifier::external_body]
pub(crate) fn slab_new() -> (r: Slab<u64>)
    ensures
        slab_entries(r) =~= Map::empty(),
        slab_slots(r) == 0,
{
    Slab::new()
}

/// Relies on `Slab::insert`: the value is stored under a key that was vacant,
/// which is returned; no other entry changes. A vacant slot is filled before
/// the slots grow, and they grow by one, at the end.
#[verifier::external_body]
pub(crate) fn slab_insert(s: &mut Slab<u64>, v: u64) -> (r: usize)
    requires
        slab_entries(*old(s)).dom().len() < usize::MAX,
    ensures
        !slab_entries(*old(s)).dom().contains(r),
        slab_entries(*final(s)) == slab_entries(*old(s)).insert(r, v),
        (exists|k: usize| k < slab_slots(*old(s)) && !slab_entries(*old(s)).dom().contains(k))
            ==> r < slab_slots(*old(s)) && slab_slots(*final(s)) == slab_slots(*old(s)),
        !(exists|k: usize| k < slab_slots(*old(s)) && !slab_entries(*old(s)).dom().contains(k))
            ==> r == slab_slots(*old(s)) && slab_slots(*final(s)) == r + 1,
{
    s.insert(v)
}

/// Relies on `Slab::remove`: the entry under `key` is taken out and its value
/// returned; the slot stays, vacant. It panics on a vacant key, which
/// `requires` rules out.
#[verifier::external_body]
pub(crate) fn slab_remove(s: &mut Slab<u64>, key: usize) -> (r: u64)
    requires
        slab_entries(*old(s)).dom().contains(key),
    ensures
        r == slab_entries(*old(s))[key],
        slab_entries(*final(s)) == slab_entries(*old(s)).remove(key),
        slab_slots(*final(s)) == slab_slots(*old(s)),
{
    s.remove(key)
}

/// Relies on `Slab::len`: the number of stored values.
#[verifier::external_body]
pub(crate) fn slab_len(s: &Slab<u64>) -> (r: usize)
    ensures
        r == slab_entries(*s).dom().len(),
{
    s.len()
}

/// Relies on `Slab::contains`: whether a value is stored under `key`.
#[verifier::external_body]
pub(crate) fn slab_contains(s: &Slab<u64>, key: usize) -> (r: bool)
    ensures
        r == slab_entries(*s).dom().contains(key),
{
    s.contains(key)
}

/// Relies on `Slab::get`: the value stored under `key`, if any.
#[verifier::external_body]
pub(crate) fn slab_get(s: &Slab<u64>, key: usize) -> (r: Option<u64>)
    ensures
        r == (if slab_entries(*s).dom().contains(key) {
            Some(slab_entries(*s)[key])
        } else {
            None
        }),
{
    s.get(key).copied()
}

/// Relies on `Slab::iter`: it walks the slots in index order and yields each
/// occupied key once, so the keys come out strictly ascending.
#[verifier::external_body]
pub(crate) fn slab_keys(s: &Slab<u64>) -> (r: Vec<usize>)
    ensures
        forall|i: int, j: int| 0 <= i < j < r@.len() ==> r@[i] < r@[j],
        forall|k: usize| r@.contains(k) <==> slab_entries(*s).dom().contains(k),
{
    s.iter().map(|(k, _)| k).collect()
}

} // verus!
