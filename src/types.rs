use std::marker::PhantomData;
use vstd::prelude::*;

verus! {

/// An id tagged with the kind of thing it indexes, so ids of different
/// kinds cannot be mixed up.
pub struct Id<T> {
    pub val: u32,
    pub kind: PhantomData<T>,
}

/// The id that `hi` and `lo` pack into one 32-bit value.
pub open spec fn split_value(hi: u16, lo: u16) -> u32 {
    (hi as int * 0x10000 + lo as int) as u32
}

impl<T> Id<T> {
    pub fn new(val: u32) -> (r: Self)
        ensures
            r.val == val,
    {
        Id { val, kind: PhantomData }
    }

    /// An id whose upper 16 bits are `hi` (the owning container) and whose
    /// lower 16 bits are `lo` (the index inside that container).
    pub fn new_split(hi: u16, lo: u16) -> (r: Self)
        ensures
            r.val == split_value(hi, lo),
            r.val / 0x10000 == hi,
            r.val % 0x10000 == lo,
    {
        let v: u32 = ((hi as u32) << 16u32) | (lo as u32);
        assert(v == (hi as u32) * 0x10000u32 + (lo as u32)) by (bit_vector)
            requires
                v == ((hi as u32) << 16u32) | (lo as u32),
        ;
        Self::new(v)
    }

    pub fn full(&self) -> (r: u32)
        ensures
            r == self.val,
    {
        self.val
    }

    pub fn hi(&self) -> (r: u16)
        ensures
            r == self.val / 0x10000,
    {
        let v = self.val;
        let r = (v >> 16u32) as u16;
        assert(r == v / 0x10000u32) by (bit_vector)
            requires
                r == (v >> 16u32) as u16,
        ;
        r
    }

    pub fn lo(&self) -> (r: u16)
        ensures
            r == self.val % 0x10000,
    {
        let v = self.val;
        let r = (v & 0xFFFFu32) as u16;
        assert(r == v % 0x10000u32) by (bit_vector)
            requires
                r == (v & 0xFFFFu32) as u16,
        ;
        r
    }

    /// The id that follows this one.
    pub fn next(&self) -> (r: Self)
        requires
            self.val < u32::MAX,
        ensures
            r.val == self.val + 1,
    {
        Id { val: self.val + 1, kind: PhantomData }
    }
}

impl<T> Clone for Id<T> {
    fn clone(&self) -> (r: Self)
        ensures
            r.val == self.val,
    {
        Id { val: self.val, kind: PhantomData }
    }
}

impl<T> Copy for Id<T> {
}

impl<T> PartialEq for Id<T> {
    fn eq(&self, other: &Self) -> (r: bool) {
        self.val == other.val
    }
}

impl<T> vstd::std_specs::cmp::PartialEqSpecImpl for Id<T> {
    open spec fn obeys_eq_spec() -> bool {
        true
    }

    open spec fn eq_spec(&self, other: &Self) -> bool {
        self.val == other.val
    }
}

impl<T> Eq for Id<T> {
}

impl<T> Default for Id<T> {
    fn default() -> (r: Self)
        ensures
            r.val == 0,
    {
        Id { val: 0, kind: PhantomData }
    }
}

/// A value that can return to its initial state in place, without
/// reallocating.
pub trait Reset {
    /// Whether the value is in a state from which it can be reset.
    spec fn can_reset(&self) -> bool;

    /// Whether the value is in its initial state.
    spec fn is_reset(&self) -> bool;

    fn reset(&mut self)
        requires
            old(self).can_reset(),
        ensures
            final(self).is_reset(),
    ;
}

} // verus!
