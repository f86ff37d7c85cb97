//! Arithmetic on registers that also reports the carry, borrow or shifted-out bit.

use vstd::prelude::*;

verus! {

/// Addition that also reports whether the sum overflowed.
pub trait AddCarry: Sized {
    /// The wrapped sum and the carry out of the top bit.
    spec fn add_carry_spec(x: Self, y: Self) -> (Self, bool);

    /// The wrapped sum and whether a carry came out of the top bit.
    fn add_carry(x: Self, y: Self) -> (r: (Self, bool))
        ensures
            r == Self::add_carry_spec(x, y),
    ;

    /// The wrapped sum alone.
    fn add_no_carry(x: Self, y: Self) -> (r: Self)
        ensures
            r == Self::add_carry_spec(x, y).0,
    {
        Self::add_carry(x, y).0
    }
}

impl AddCarry for u8 {
    open spec fn add_carry_spec(x: u8, y: u8) -> (u8, bool) {
        (((x as int + y as int) % 256) as u8, x as int + y as int > 255)
    }

    fn add_carry(x: u8, y: u8) -> (r: (u8, bool)) {
        let n: u16 = x as u16 + y as u16;
        let c = (n & 0xff00) != 0;
        assert(((n & 0xff00) != 0) == (n > 255)) by (bit_vector)
            requires
                n <= 510,
        ;
        assert((n & 0xff) == n % 256) by (bit_vector);
        ((n & 0xff) as u8, c)
    }
}

/// Subtraction that also reports whether the subtrahend fitted in the minuend.
pub trait SubBorrow: Sized {
    /// The difference and the no-borrow flag.
    spec fn sub_borrow_spec(x: Self, y: Self) -> (Self, bool);

    /// The difference, floored at zero, and `true` when no borrow was needed.
    fn sub_borrow(x: Self, y: Self) -> (r: (Self, bool))
        ensures
            r == Self::sub_borrow_spec(x, y),
    ;

    /// The difference alone.
    fn sub_no_borrow(x: Self, y: Self) -> (r: Self)
        ensures
            r == Self::sub_borrow_spec(x, y).0,
    {
        Self::sub_borrow(x, y).0
    }
}

impl SubBorrow for u8 {
    /// `x - y` with the flag set when `x >= y`; zero with the flag clear otherwise.
    open spec fn sub_borrow_spec(x: u8, y: u8) -> (u8, bool) {
        if x < y {
            (0, false)
        } else {
            ((x - y) as u8, true)
        }
    }

    fn sub_borrow(x: u8, y: u8) -> (r: (u8, bool)) {
        if x < y {
            (0, false)
        } else {
            (x - y, true)
        }
    }
}

/// Shifts that also report the bit shifted out.
pub trait ShiftOverflow: Sized {
    /// The shifted value and the bit that leaves at the top.
    spec fn shift_left_spec(n: Self, x: usize) -> (Self, bool);

    /// The shifted value and the bit that leaves at the bottom.
    spec fn shift_right_spec(n: Self, x: usize) -> (Self, bool);

    /// Shift left by `x`; the flag is the top bit of `n`.
    fn shift_left(n: Self, x: usize) -> (r: (Self, bool))
        requires
            x < 8,
        ensures
            r == Self::shift_left_spec(n, x),
    ;

    /// Shift right by `x`; the flag is the bottom bit of `n`.
    fn shift_right(n: Self, x: usize) -> (r: (Self, bool))
        requires
            x < 8,
        ensures
            r == Self::shift_right_spec(n, x),
    ;
}

impl ShiftOverflow for u8 {
    open spec fn shift_left_spec(n: u8, x: usize) -> (u8, bool) {
        (n << (x as u8), n >= 0x80)
    }

    open spec fn shift_right_spec(n: u8, x: usize) -> (u8, bool) {
        (n >> (x as u8), n % 2 == 1)
    }

    fn shift_left(n: u8, x: usize) -> (r: (u8, bool)) {
        let overflow = (n & 0x80) != 0;
        assert(((n & 0x80) != 0) == (n >= 0x80)) by (bit_vector);
        (n << (x as u8), overflow)
    }

    fn shift_right(n: u8, x: usize) -> (r: (u8, bool)) {
        let underflow = (n & 0x1) != 0;
        assert(((n & 0x1) != 0) == (n % 2 == 1)) by (bit_vector);
        (n >> (x as u8), underflow)
    }
}

} // verus!
