use game_of_life::color::Color;

#[test]
fn packed_white_and_black() {
    let white = Color::new(255, 255, 255).to_packed();
    let black = Color::new(0, 0, 0).to_packed();
    assert_eq!(white, 0x00FF_FFFF);
    assert_eq!(black, 0x0000_0000);
    assert_ne!(white, black);
}

#[test]
fn packed_channel_layout() {
    assert_eq!(Color::new(0x12, 0x34, 0x56).to_packed(), 0x0012_3456);
    assert_eq!(Color::new(255, 0, 0).to_packed(), 0x00FF_0000);
    assert_eq!(Color::new(0, 255, 0).to_packed(), 0x0000_FF00);
    assert_eq!(Color::new(0, 0, 255).to_packed(), 0x0000_00FF);
}

#[test]
fn pack_unpack_roundtrip() {
    let samples = [
        (0u8, 0u8, 0u8),
        (255, 255, 255),
        (1, 2, 3),
        (255, 0, 128),
        (0, 255, 1),
        (17, 34, 51),
    ];
    for &(r, g, b) in samples.iter() {
        let c = Color::new(r, g, b);
        assert_eq!(Color::from_packed(c.to_packed()), c);
    }
}

#[test]
fn from_packed_ignores_high_byte() {
    assert_eq!(Color::from_packed(0xFF12_3456), Color::new(0x12, 0x34, 0x56));
}
