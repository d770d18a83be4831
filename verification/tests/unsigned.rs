use ir_decoder::decoder::timings::Unsigned;

#[test]
fn from_u128_keeps_the_number() {
    assert_eq!(<u8 as Unsigned>::from_u128(0), 0u8);
    assert_eq!(<u8 as Unsigned>::from_u128(255), 255u8);
    assert_eq!(<u16 as Unsigned>::from_u128(256), 256u16);
    assert_eq!(<u16 as Unsigned>::from_u128(65_535), 65_535u16);
    assert_eq!(<u32 as Unsigned>::from_u128(4_294_967_295), u32::MAX);
    assert_eq!(<u64 as Unsigned>::from_u128(u64::MAX as u128), u64::MAX);
    assert_eq!(<u128 as Unsigned>::from_u128(u128::MAX), u128::MAX);
}
