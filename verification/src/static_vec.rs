//! A vector addressed by a dense identifier type instead of `usize`, so
//! that pattern and offset tables cannot be confused with one another.

use vstd::prelude::*;

verus! {

/// A dense identifier: a thin wrapper around a small index.
pub trait Id: Sized + Copy {
    /// The index the identifier stands for.
    spec fn spec_index(self) -> int;

    /// Which indices the identifier type can represent.
    spec fn spec_in_range(i: int) -> bool;

    fn to_index(self) -> (r: usize)
        ensures
            r as int == self.spec_index(),
    ;

    fn from_index(i: usize) -> (r: Self)
        requires
            Self::spec_in_range(i as int),
        ensures
            r.spec_index() == i as int,
    ;
}

/// A vector indexed by identifiers of type `I`.  Its length is fixed once
/// the table it holds has been built, so every identifier handed out stays
/// valid.
#[derive(Debug)]
pub struct StaticVec<I, T> {
    data: Vec<T>,
    marker: core::marker::PhantomData<I>,
}

impl<I, T> StaticVec<I, T> {
    /// The elements, in identifier order.
    pub closed spec fn view(&self) -> Seq<T> {
        self.data@
    }

    pub fn new(data: Vec<T>) -> (r: Self)
        ensures
            r.view() == data@,
    {
        StaticVec { data, marker: core::marker::PhantomData }
    }

    pub fn num_elements(&self) -> (r: usize)
        ensures
            r == self.view().len(),
    {
        self.data.len()
    }

    /// Append one element; used only while a table is being built.
    pub fn push(&mut self, value: T)
        ensures
            final(self).view() == old(self).view().push(value),
    {
        self.data.push(value);
    }

    /// Apply `f` to every element, producing a parallel table.
    pub fn map<S, F: Fn(&T) -> S>(&self, f: F) -> (r: StaticVec<I, S>)
        requires
            forall|i: int|
                0 <= i < self.view().len() ==> call_requires(f, (&self.view()[i],)),
        ensures
            r.view().len() == self.view().len(),
            forall|i: int|
                0 <= i < self.view().len() ==> call_ensures(
                    f,
                    (&self.view()[i],),
                    #[trigger] r.view()[i],
                ),
    {
        let mut out: Vec<S> = Vec::new();
        let n = self.data.len();
        let mut k: usize = 0;
        while k < n
            invariant
                k <= n,
                n == self.view().len(),
                out@.len() == k,
                forall|i: int|
                    0 <= i < self.view().len() ==> call_requires(f, (&self.view()[i],)),
                forall|i: int|
                    0 <= i < k ==> call_ensures(f, (&self.view()[i],), #[trigger] out@[i]),
            decreases n - k,
        {
            let v = f(&self.data[k]);
            out.push(v);
            k = k + 1;
        }
        StaticVec { data: out, marker: core::marker::PhantomData }
    }
}

impl<I, T: Copy> StaticVec<I, T> {
    /// A table of `num_elements` copies of `value`.
    pub fn fill(value: T, num_elements: usize) -> (r: Self)
        ensures
            r.view().len() == num_elements,
            forall|i: int| 0 <= i < num_elements ==> r.view()[i] == value,
    {
        let mut data: Vec<T> = Vec::new();
        let mut k: usize = 0;
        while k < num_elements
            invariant
                k <= num_elements,
                data@.len() == k,
                forall|i: int| 0 <= i < k ==> data@[i] == value,
            decreases num_elements - k,
        {
            data.push(value);
            k = k + 1;
        }
        StaticVec { data, marker: core::marker::PhantomData }
    }
}

impl<I, T: Copy + Default> StaticVec<I, T> {
    /// A table of `num_elements` default values.
    pub fn new_with_default(num_elements: usize) -> (r: Self)
        ensures
            r.view().len() == num_elements,
            forall|i: int, j: int|
                0 <= i < num_elements && 0 <= j < num_elements ==> r.view()[i] == r.view()[j],
    {
        Self::fill(T::default(), num_elements)
    }
}

impl<I: Id, T> StaticVec<I, T> {
    pub fn get(&self, id: I) -> (r: &T)
        requires
            0 <= id.spec_index() < self.view().len(),
        ensures
            *r == self.view()[id.spec_index()],
    {
        let i = id.to_index();
        &self.data[i]
    }

    pub fn get_mut(&mut self, id: I) -> (r: &mut T)
        requires
            0 <= id.spec_index() < old(self).view().len(),
        ensures
            *r == old(self).view()[id.spec_index()],
            final(self).view() == old(self).view().update(id.spec_index(), *final(r)),
    {
        let i = id.to_index();
        &mut self.data[i]
    }

    /// Replace the element at `id`.
    pub fn set(&mut self, id: I, value: T)
        requires
            0 <= id.spec_index() < old(self).view().len(),
        ensures
            final(self).view() == old(self).view().update(id.spec_index(), value),
    {
        let i = id.to_index();
        self.data[i] = value;
    }

    /// The identifiers of every element, in order.
    pub fn iter(&self) -> (r: Vec<I>)
        requires
            forall|i: int| 0 <= i < self.view().len() ==> I::spec_in_range(i),
        ensures
            r@.len() == self.view().len(),
            forall|i: int| 0 <= i < r@.len() ==> (#[trigger] r@[i]).spec_index() == i,
    {
        let mut out: Vec<I> = Vec::new();
        let n = self.data.len();
        let mut k: usize = 0;
        while k < n
            invariant
                k <= n,
                n == self.view().len(),
                out@.len() == k,
                forall|i: int| 0 <= i < self.view().len() ==> I::spec_in_range(i),
                forall|i: int| 0 <= i < k ==> (#[trigger] out@[i]).spec_index() == i,
            decreases n - k,
        {
            out.push(I::from_index(k));
            k = k + 1;
        }
        out
    }
}

} // verus!
