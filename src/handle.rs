use vstd::prelude::*;
use std::marker::PhantomData;
use crate::bi::Bi;
use crate::kline::{KLine, KLineUnit};
use crate::seg::Seg;

verus! {

/// Objects that know their index in their arena.
pub trait Indexable {
    fn index(&self) -> usize;
}

/// Objects that may belong to a parent object, named by its index.
pub trait HasParent {
    fn parent(&self) -> Option<usize>;

    fn set_parent(&mut self, parent: usize);
}

/// Objects that can name themselves by a handle.
pub trait AsHandle {
    type Output;

    fn as_handle(&self) -> Self::Output;
}

/// A stable reference to an element of an append-only arena: an index, valid
/// for as long as the arena keeps that element.
#[derive(Debug)]
pub struct Handle<T> {
    index: usize,
    _marker: PhantomData<T>,
}

impl<T> Handle<T> {
    pub closed spec fn spec_index(&self) -> usize {
        self.index
    }

    /// A handle to element `index` of `arena`.
    pub fn new(arena: &Vec<T>, index: usize) -> (r: Self)
        ensures
            r.spec_index() == index,
    {
        Handle { index, _marker: PhantomData }
    }

    /// A handle to element `index` of whichever arena it is used with.
    pub fn at(index: usize) -> (r: Self)
        ensures
            r.spec_index() == index,
    {
        Handle { index, _marker: PhantomData }
    }

    pub fn update_index(&mut self, index: usize)
        ensures
            final(self).spec_index() == index,
    {
        self.index = index;
    }

    pub fn index(&self) -> (r: usize)
        ensures
            r == self.spec_index(),
    {
        self.index
    }

    /// Another handle to the same element.
    pub fn copy(&self) -> (r: Self)
        ensures
            r.spec_index() == self.spec_index(),
    {
        Handle { index: self.index, _marker: PhantomData }
    }

    /// The element the handle names.
    pub fn to_ref<'a>(&self, arena: &'a Vec<T>) -> (r: &'a T)
        requires
            self.spec_index() < arena@.len(),
        ensures
            *r == arena@[self.spec_index() as int],
    {
        &arena[self.index]
    }

    /// The element the handle names, for changing it in place.
    pub fn as_mut<'a>(&self, arena: &'a mut Vec<T>) -> (r: &'a mut T)
        requires
            self.spec_index() < old(arena)@.len(),
        ensures
            *r == old(arena)@[self.spec_index() as int],
            final(arena)@ == old(arena)@.update(self.spec_index() as int, *final(r)),
    {
        &mut arena[self.index]
    }

    /// The handle `step` elements later, if the arena has that element.
    pub fn next_step_by(&self, arena: &Vec<T>, step: usize) -> (r: Option<Handle<T>>)
        ensures
            self.spec_index() + step < arena@.len() ==> (r matches Some(h) && h.spec_index() == self.spec_index() + step),
            self.spec_index() + step >= arena@.len() ==> r.is_none(),
    {
        if step >= arena.len() || self.index >= arena.len() - step {
            None
        } else {
            Some(Handle { index: self.index + step, _marker: PhantomData })
        }
    }

    /// The handle `step` elements earlier, if there is one.
    pub fn prev_step_by(&self, step: usize) -> (r: Option<Handle<T>>)
        ensures
            step <= self.spec_index() ==> (r matches Some(h) && h.spec_index() == self.spec_index() - step),
            step > self.spec_index() ==> r.is_none(),
    {
        if step > self.index {
            None
        } else {
            Some(Handle { index: self.index - step, _marker: PhantomData })
        }
    }

    pub fn next(&self, arena: &Vec<T>) -> (r: Option<Handle<T>>)
        ensures
            self.spec_index() + 1 < arena@.len() ==> (r matches Some(h) && h.spec_index() == self.spec_index() + 1),
            self.spec_index() + 1 >= arena@.len() ==> r.is_none(),
    {
        self.next_step_by(arena, 1)
    }

    pub fn prev(&self) -> (r: Option<Handle<T>>)
        ensures
            self.spec_index() >= 1 ==> (r matches Some(h) && h.spec_index() == self.spec_index() - 1),
            self.spec_index() == 0 ==> r.is_none(),
    {
        self.prev_step_by(1)
    }
}

impl Indexable for KLineUnit {
    fn index(&self) -> usize {
        self.idx
    }
}

impl Indexable for KLine {
    fn index(&self) -> usize {
        self.idx
    }
}

impl Indexable for Bi {
    fn index(&self) -> usize {
        self.idx
    }
}

impl Indexable for Seg {
    fn index(&self) -> usize {
        self.idx
    }
}

impl HasParent for Bi {
    fn parent(&self) -> Option<usize> {
        self.seg_idx
    }

    fn set_parent(&mut self, parent: usize) {
        self.seg_idx = Some(parent);
    }
}

impl AsHandle for Bi {
    type Output = Handle<Bi>;

    fn as_handle(&self) -> Handle<Bi> {
        Handle::at(self.idx)
    }
}

impl AsHandle for Seg {
    type Output = Handle<Seg>;

    fn as_handle(&self) -> Handle<Seg> {
        Handle::at(self.idx)
    }
}

} // verus!
