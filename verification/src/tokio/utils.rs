//! Replacing values in place.
use vstd::prelude::*;

verus! {

/// Puts what `f` makes of a value in its place.
pub fn map_swap_uninit<T: Default, F: FnOnce(T) -> T>(slot: &mut T, f: F)
    requires
        f.requires((*old(slot),)),
    ensures
        f.ensures((*old(slot),), *final(slot)),
{
    let mut other = T::default();
    std::mem::swap(slot, &mut other);
    *slot = f(other);
}

/// Takes a value out of its place, and returns what `f` makes of it.
pub fn map_take_manual_drop<T, U, F: FnOnce(T) -> U>(slot: &mut Option<T>, f: F) -> (r: U)
    requires
        *old(slot) is Some,
        f.requires(((*old(slot))->0,)),
    ensures
        *final(slot) is None,
        f.ensures(((*old(slot))->0,), r),
{
    let taken = slot.take().unwrap();
    f(taken)
}

} // verus!
