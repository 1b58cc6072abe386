use dns_codec::rand::xorshift_u16;

#[test]
fn xorshift_u16_works() {
    let a = xorshift_u16(500);
    let b = xorshift_u16(a);

    assert_ne!(a, b);

    let a1 = xorshift_u16(b);
    let b1 = xorshift_u16(a1);

    assert_ne!(a, a1);
    assert_ne!(b, b1);
    assert_ne!(a1, b1);

    println!("{a}, {b}");
}

#[test]
fn xorshift_u16_exact_value() {
    // 500 ^ (500 << 7) = 0xFBF4; ^ (0xFBF4 >> 9) = 0xFB89; ^ (0xFB89 << 8) = 0x7289.
    assert_eq!(xorshift_u16(500), 0x7289);
}
