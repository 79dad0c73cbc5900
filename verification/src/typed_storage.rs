//! A statically typed, growable component buffer: the storage experiment
//! that the crate's program runs.
use vstd::prelude::*;

verus! {

/// Marker trait for values that can be stored in a [`MyStorage`].
pub trait Comp {

}

/// A component made of a byte and a 64-bit integer.
pub struct Test {
    pub a: u8,
    pub b: u64,
}

/// A component holding a string.
pub struct StringTest {
    pub str: String,
}

impl Comp for Test {

}

impl Comp for StringTest {

}

/// A buffer of values of one type: a number of slots, of which the first
/// `len` hold values. It starts with one slot and doubles the number of
/// slots whenever a push finds them all filled.
pub struct MyStorage<T> {
    buffer: Vec<Option<T>>,
    len: usize,
}

impl<T> View for MyStorage<T> {
    type V = Seq<T>;

    /// The stored values, in push order.
    closed spec fn view(&self) -> Seq<T> {
        Seq::new(self.len as nat, |i: int| self.buffer@[i]->0)
    }
}

impl<T: Comp> MyStorage<T> {
    /// The number of slots.
    pub closed spec fn capacity(&self) -> nat {
        self.buffer@.len()
    }

    /// The buffer's invariant: at least one slot, the first `len` slots
    /// filled and the others empty.
    pub closed spec fn wf(&self) -> bool {
        &&& 1 <= self.buffer@.len()
        &&& self.len <= self.buffer@.len()
        &&& forall|i: int| 0 <= i < self.buffer@.len() ==> ((#[trigger] self.buffer@[i]) is Some <==> i < self.len)
    }

    /// A push can proceed: a slot is free, or the number of slots can double
    /// within a `usize`.
    pub open spec fn can_push(&self) -> bool {
        self@.len() < self.capacity() || 2 * self.capacity() <= usize::MAX
    }

    /// Creates an empty buffer with one slot.
    pub fn new() -> (storage: Self)
        ensures
            storage.wf(),
            storage@ == Seq::<T>::empty(),
            storage.capacity() == 1,
    {
        let mut buffer: Vec<Option<T>> = Vec::new();
        buffer.push(None);
        let storage = Self { buffer, len: 0 };
        assert(storage@ =~= Seq::<T>::empty());
        storage
    }

    /// Doubles the number of slots, keeping the stored values.
    fn grow(&mut self)
        requires
            old(self).wf(),
            2 * old(self).capacity() <= usize::MAX,
        ensures
            final(self).wf(),
            final(self)@ == old(self)@,
            final(self).capacity() == 2 * old(self).capacity(),
    {
        let new_size = self.buffer.len() * 2;
        self.buffer.reserve(new_size - self.buffer.len());
        while self.buffer.len() < new_size
            invariant
                self.len == old(self).len,
                old(self).buffer@.len() <= self.buffer@.len() <= new_size,
                new_size == 2 * old(self).buffer@.len(),
                forall|i: int| 0 <= i < old(self).buffer@.len() ==> self.buffer@[i] == old(self).buffer@[i],
                forall|i: int| old(self).buffer@.len() <= i < self.buffer@.len() ==> self.buffer@[i] is None,
                old(self).wf(),
            decreases new_size - self.buffer.len(),
        {
            self.buffer.push(None);
        }
        assert(self@ =~= old(self)@);
    }

    /// Appends a value, doubling the number of slots first when all are
    /// filled.
    pub fn push(&mut self, value: T)
        requires
            old(self).wf(),
            old(self).can_push(),
        ensures
            final(self).wf(),
            final(self)@ == old(self)@.push(value),
            final(self).capacity() == if old(self)@.len() < old(self).capacity() {
                old(self).capacity()
            } else {
                2 * old(self).capacity()
            },
    {
        if self.len >= self.buffer.len() {
            self.grow();
        }
        let ghost before = self@;
        self.buffer.set(self.len, Some(value));
        self.len = self.len + 1;
        assert(self@ =~= before.push(value));
    }
}

} // verus!
