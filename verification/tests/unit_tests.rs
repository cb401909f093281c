use libchip8::{bcd, nybble};

#[test]
fn test_bcd() {
    let (h, t, o) = bcd(255);

    assert_eq!(h, 2);
    assert_eq!(t, 5);
    assert_eq!(o, 5);
}

#[test]
fn test_nybble() {
    let value = 0xDEADu16;

    assert_eq!(nybble(value, 3), 0xD);
    assert_eq!(nybble(value, 2), 0xE);
    assert_eq!(nybble(value, 1), 0xA);
    assert_eq!(nybble(value, 0), 0xD);
}
