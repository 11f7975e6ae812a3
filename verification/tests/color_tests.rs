use softraster::color::Color;

#[test]
fn new_packs_channels_in_rgb_order() {
    assert_eq!(Color::new(255, 0, 0).as_hex(), 0xFF0000);
    assert_eq!(Color::new(0, 255, 0).as_hex(), 0x00FF00);
    assert_eq!(Color::new(0, 0, 255).as_hex(), 0x0000FF);
    assert_eq!(Color::new(0x12, 0x34, 0x56).as_hex(), 0x123456);
}

#[test]
fn as_tuple_inverts_new() {
    for &(r, g, b) in &[(0u8, 0u8, 0u8), (255, 255, 255), (1, 2, 3), (200, 150, 100)] {
        assert_eq!(Color::new(r, g, b).as_tuple(), (r, g, b));
    }
}

#[test]
fn new_from_hex_keeps_the_word() {
    let c = Color::new_from_hex(0x123456);
    assert_eq!(c.as_hex(), 0x123456);
    assert_eq!(c.as_tuple(), (0x12, 0x34, 0x56));
}

#[test]
fn as_tuple_reads_only_the_low_24_bits() {
    let c = Color::new_from_hex(0xAA_123456);
    assert_eq!(c.as_tuple(), (0x12, 0x34, 0x56));
}
