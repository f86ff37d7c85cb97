use rchip8::carry_borrow::{AddCarry, ShiftOverflow, SubBorrow};

#[test]
fn add_no_overflow() {
    assert_eq!(u8::add_carry(22, 44), (66, false));
}

#[test]
fn add_overflow_zero() {
    assert_eq!(u8::add_carry(0xfd, 0x3), (0, true));
}

#[test]
fn add_overflow_nonzero() {
    assert_eq!(u8::add_carry(0xfd, 0xa), (7, true));
}

#[test]
fn sub_no_borrow() {
    assert_eq!(u8::sub_borrow(20, 15), (5, true));
}

#[test]
fn sub_borrow() {
    assert_eq!(u8::sub_borrow(15, 20), (0, false));
}

#[test]
fn test_shift_left_no_overflow() {
    let (n, overflow) = u8::shift_left(0x71, 1);
    assert_eq!(n, 0xe2);
    assert!(!overflow);
}

#[test]
fn test_shift_left_overflow() {
    let (n, overflow) = u8::shift_left(0xe2, 1);
    assert_eq!(n, 0xc4);
    assert!(overflow);
}

#[test]
fn test_shift_right_no_underflow() {
    let (n, underflow) = u8::shift_right(0xe2, 1);
    assert_eq!(n, 0x71);
    assert!(!underflow);
}

#[test]
fn test_shift_right_underflow() {
    let (n, underflow) = u8::shift_right(0xe1, 1);
    assert_eq!(n, 0x70);
    assert!(underflow);
}

#[test]
fn add_no_carry_wraps() {
    assert_eq!(u8::add_no_carry(0xff, 0x02), 0x01);
}

#[test]
fn sub_no_borrow_floors_at_zero() {
    assert_eq!(u8::sub_no_borrow(3, 9), 0);
    assert_eq!(u8::sub_no_borrow(9, 3), 6);
}
