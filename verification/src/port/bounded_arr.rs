//! `BoundedArr<T, N>`: an inline array of at most `N` elements.
//!
//! The storage is a fixed array, so the value is `Copy` whenever the
//! element type is. `push` fails with `PortError::Overflow` at capacity
//! and leaves the array unchanged.

use super::error::PortError;
use vstd::prelude::*;
use vstd::std_specs::iter::IteratorSpec;

verus! {

/// A fixed-capacity array whose length never exceeds `N`.
#[derive(Copy, Debug)]
pub struct BoundedArr<T: Copy, const N: usize> {
    data: [Option<T>; N],
    len: usize,
}

impl<T: Copy, const N: usize> View for BoundedArr<T, N> {
    type V = Seq<T>;

    closed spec fn view(&self) -> Seq<T> {
        Seq::new(self.len as nat, |i: int| self.data@[i]->Some_0)
    }
}

/// The value inside an occupied slot, by mutable reference.
fn slot_mut<T>(o: &mut Option<T>) -> (r: Option<&mut T>)
    ensures
        *old(o) is None ==> r is None && *final(o) == *old(o),
        *old(o) is Some ==> r is Some && *r->0 == (*old(o))->Some_0 && *final(o) == Some(*final(r->0)),
    no_unwind
{
    match o {
        Some(x) => Some(x),
        None => None,
    }
}

impl<T: Copy, const N: usize> BoundedArr<T, N> {
    #[verifier::type_invariant]
    spec fn inv(self) -> bool {
        &&& self.len <= N
        &&& forall|i: int| 0 <= i < self.len ==> (#[trigger] self.data@[i]) is Some
    }

    /// The length bound that every value keeps.
    pub open spec fn wf(&self) -> bool {
        self@.len() <= N
    }

    pub fn new() -> (r: Self)
        ensures
            r@ == Seq::<T>::empty(),
            r.wf(),
    {
        let r = Self { data: [None; N], len: 0 };
        proof {
            assert(r@ =~= Seq::<T>::empty());
        }
        r
    }

    pub fn push(&mut self, v: T) -> (r: Result<(), PortError>)
        ensures
            old(self)@.len() < N ==> r is Ok && final(self)@ == old(self)@.push(v),
            old(self)@.len() >= N ==> r == Err::<(), PortError>(PortError::Overflow)
                && final(self)@ == old(self)@,
            final(self).wf(),
    {
        proof {
            use_type_invariant(&*self);
        }
        if self.len >= N {
            return Err(PortError::Overflow);
        }
        let ghost before = self@;
        let n = self.len;
        self.data[n] = Some(v);
        self.len = n + 1;
        proof {
            assert(self@ =~= before.push(v));
        }
        Ok(())
    }

    pub fn get(&self, i: usize) -> (r: Option<&T>)
        ensures
            i < self@.len() ==> r == Some(&self@[i as int]),
            i >= self@.len() ==> r is None,
    {
        proof {
            use_type_invariant(self);
        }
        if i >= self.len {
            return None;
        }
        match &self.data[i] {
            Some(x) => Some(x),
            None => None,
        }
    }

    pub fn get_mut(&mut self, i: usize) -> (r: Option<&mut T>)
        ensures
            i >= old(self)@.len() ==> r is None && final(self)@ == old(self)@,
            i < old(self)@.len() ==> r is Some && *r->0 == old(self)@[i as int]
                && final(self)@ == old(self)@.update(i as int, *final(r->0)),
    {
        proof {
            use_type_invariant(&*self);
        }
        if i >= self.len {
            return None;
        }
        slot_mut(&mut self.data[i])
    }

    pub fn len(&self) -> (r: usize)
        ensures
            r == self@.len(),
            r <= N,
            self.wf(),
    {
        proof {
            use_type_invariant(self);
        }
        self.len
    }

    pub fn is_empty(&self) -> (r: bool)
        ensures
            r == (self@.len() == 0),
    {
        self.len == 0
    }

    pub fn capacity(&self) -> (r: usize)
        ensures
            r == N,
    {
        N
    }

    /// The live elements, first to last.
    pub fn iter(&self) -> (it: std::vec::IntoIter<&T>)
        ensures
            it.remaining() == self@.map_values(|x: T| &x),
    {
        proof {
            use_type_invariant(self);
        }
        let mut v: Vec<&T> = Vec::new();
        let mut i: usize = 0;
        while i < self.len
            invariant
                i <= self.len <= N,
                v@.len() == i,
                forall|j: int| 0 <= j < self.len ==> (#[trigger] self.data@[j]) is Some,
                forall|j: int| 0 <= j < i ==> #[trigger] v@[j] == &self@[j],
            decreases self.len - i,
        {
            match &self.data[i] {
                Some(x) => v.push(x),
                None => {},
            }
            i = i + 1;
        }
        proof {
            assert(v@ =~= self@.map_values(|x: T| &x));
        }
        v.into_iter()
    }
}

impl<T: Copy, const N: usize> Clone for BoundedArr<T, N> {
    fn clone(&self) -> (r: Self)
        ensures
            r == *self,
    {
        *self
    }
}

impl<T: Copy, const N: usize> Default for BoundedArr<T, N> {
    fn default() -> (r: Self)
        ensures
            r@ == Seq::<T>::empty(),
    {
        Self::new()
    }
}

} // verus!
