use rchip8::hilo::HiLo;

#[test]
fn test_hi() {
    assert_eq!(0xab_u8.hi(), 0xa);
}

#[test]
fn test_lo() {
    assert_eq!(0xab_u8.lo(), 0xb);
}

#[test]
fn test_split() {
    assert_eq!(0xab_u8.split(), (0xa, 0xb));
}

#[test]
fn hilo_test_hi() {
    assert_eq!(0xabcd_u16.hi(), 0xab);
}

#[test]
fn hilo_test_lo() {
    assert_eq!(0xabcd_u16.lo(), 0xcd);
}

#[test]
fn hilo_test_split() {
    assert_eq!(0xabcd_u16.split(), (0xab, 0xcd));
}
