use iced_color_map::color::{byte_label, rgb_hex_string};
use iced_color_map::Rgb;

#[test]
fn hex_string_is_upper_case_and_padded() {
    assert_eq!(rgb_hex_string(Rgb::new(0x1A, 0x2B, 0x3C)), "#1A2B3C");
    assert_eq!(rgb_hex_string(Rgb::new(0, 5, 255)), "#0005FF");
}

#[test]
fn byte_labels() {
    assert_eq!(byte_label(0), "00");
    assert_eq!(byte_label(0x0F), "0F");
    assert_eq!(byte_label(0xA0), "A0");
    assert_eq!(byte_label(255), "FF");
    for b in 0..=255u8 {
        assert_eq!(byte_label(b), format!("{b:02X}"));
    }
}
