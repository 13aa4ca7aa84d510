//! A bag that values are put into one by one and taken out of all at once.
use vstd::prelude::*;

verus! {

/// A bag that values are put into one by one and taken out of all at once.
pub struct Pusher<T> {
    elements: Vec<T>,
}

impl<T> Pusher<T> {
    /// The values, in the order in which they came.
    pub closed spec fn view(&self) -> Seq<T> {
        self.elements@
    }

    /// An empty bag.
    pub fn new() -> (r: Self)
        ensures
            r@ == Seq::<T>::empty(),
    {
        Pusher { elements: Vec::new() }
    }

    /// Puts a value in.
    pub fn push(&mut self, x: T)
        ensures
            final(self)@ == old(self)@.push(x),
    {
        self.elements.push(x);
    }

    /// Takes all values out.
    pub fn extract(&mut self) -> (r: Vec<T>)
        ensures
            r@ == old(self)@,
            final(self)@ == Seq::<T>::empty(),
    {
        let mut r: Vec<T> = Vec::new();
        std::mem::swap(&mut self.elements, &mut r);
        r
    }

    /// Takes all values out.
    pub fn take_owned(&mut self) -> (r: Vec<T>)
        ensures
            r@ == old(self)@,
            final(self)@ == Seq::<T>::empty(),
    {
        let mut r: Vec<T> = Vec::new();
        std::mem::swap(&mut self.elements, &mut r);
        r
    }
}

} // verus!
