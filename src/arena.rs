use vstd::prelude::*;

verus! {

/// Handle to one slot of an `Arena`.
#[derive(Clone, Copy, Debug, PartialEq, Eq, Hash, Structural)]
pub struct Node(pub usize);

/// Append-only store addressed by `Node` handles.
pub struct Arena<T> {
    items: Vec<T>,
}

impl<T> View for Arena<T> {
    type V = Seq<T>;

    closed spec fn view(&self) -> Seq<T> {
        self.items@
    }
}

impl<T> Arena<T> {
    pub fn new() -> (r: Self)
        ensures
            r@ == Seq::<T>::empty(),
    {
        Arena { items: Vec::new() }
    }

    pub fn len(&self) -> (r: usize)
        ensures
            r == self@.len(),
    {
        self.items.len()
    }

    pub fn is_empty(&self) -> (r: bool)
        ensures
            r == (self@.len() == 0),
    {
        self.items.len() == 0
    }

    /// Appends `val`; its handle is the previous length.
    pub fn add(&mut self, val: T) -> (r: Node)
        ensures
            final(self)@ == old(self)@.push(val),
            r.0 == old(self)@.len(),
            final(self)@.len() == old(self)@.len() + 1,
            forall|i: int| 0 <= i < old(self)@.len() ==> final(self)@[i] == old(self)@[i],
    {
        let n = self.items.len();
        self.items.push(val);
        Node(n)
    }

    pub fn get(&self, idx: Node) -> (r: &T)
        requires
            idx.0 < self@.len(),
        ensures
            *r == self@[idx.0 as int],
    {
        &self.items[idx.0]
    }

    /// Mutable access to the slot at `idx`; the other slots stay as they are.
    pub fn get_mut(&mut self, idx: Node) -> (r: &mut T)
        requires
            idx.0 < old(self)@.len(),
        ensures
            *r == old(self)@[idx.0 as int],
            final(self)@ == old(self)@.update(idx.0 as int, *final(r)),
    {
        &mut self.items[idx.0]
    }

    /// Overwrites the slot at `idx` and hands back what it held.
    pub fn replace(&mut self, idx: Node, val: T) -> (r: T)
        requires
            idx.0 < old(self)@.len(),
        ensures
            final(self)@ == old(self)@.update(idx.0 as int, val),
            r == old(self)@[idx.0 as int],
            final(self)@.len() == old(self)@.len(),
            forall|i: int| 0 <= i < old(self)@.len() && i != idx.0 ==> final(self)@[i] == old(self)@[i],
    {
        let mut v = val;
        std::mem::swap(&mut v, &mut self.items[idx.0]);
        v
    }
}

} // verus!
