//! Splitting an integer into its high and low halves.

use vstd::prelude::*;

verus! {

/// Access to the high and low halves of an integer.
pub trait HiLo<T>: Sized {
    /// The high half.
    spec fn hi_spec(&self) -> T;

    /// The low half.
    spec fn lo_spec(&self) -> T;

    fn hi(&self) -> (r: T)
        ensures
            r == self.hi_spec(),
    ;

    fn lo(&self) -> (r: T)
        ensures
            r == self.lo_spec(),
    ;

    /// Both halves, high first.
    fn split(&self) -> (r: (T, T))
        ensures
            r == (self.hi_spec(), self.lo_spec()),
    {
        (self.hi(), self.lo())
    }
}

/// The two nibbles of a byte.
impl HiLo<u8> for u8 {
    open spec fn hi_spec(&self) -> u8 {
        (*self / 16) as u8
    }

    open spec fn lo_spec(&self) -> u8 {
        (*self % 16) as u8
    }

    fn hi(&self) -> (r: u8) {
        let v = *self;
        assert((v & 0xf0) >> 4 == v / 16) by (bit_vector);
        (v & 0xf0) >> 4
    }

    fn lo(&self) -> (r: u8) {
        let v = *self;
        assert(v & 0xf == v % 16) by (bit_vector);
        v & 0xf
    }
}

/// The two bytes of a word.
impl HiLo<u8> for u16 {
    open spec fn hi_spec(&self) -> u8 {
        (*self / 256) as u8
    }

    open spec fn lo_spec(&self) -> u8 {
        (*self % 256) as u8
    }

    fn hi(&self) -> (r: u8) {
        let v = *self;
        assert((v & 0xff00) >> 8 == v / 256) by (bit_vector);
        ((v & 0xff00) >> 8) as u8
    }

    fn lo(&self) -> (r: u8) {
        let v = *self;
        assert(v & 0xff == v % 256) by (bit_vector);
        (v & 0xff) as u8
    }
}

} // verus!
