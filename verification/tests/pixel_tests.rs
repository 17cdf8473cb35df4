use toy_browser::css::Color;
use toy_browser::pixel::{blend_channel, blend_pixel, pack_rgb};

#[test]
fn blend_channel_values() {
    assert_eq!(blend_channel(200, 100, 255), 200);
    assert_eq!(blend_channel(200, 100, 0), 100);
    // (200 * 128 + 100 * 127) / 255 = 38300 / 255 = 150
    assert_eq!(blend_channel(200, 100, 128), 150);
    // (0 * 1 + 255 * 254) / 255 = 254
    assert_eq!(blend_channel(0, 255, 1), 254);
    assert_eq!(blend_channel(255, 255, 77), 255);
    assert_eq!(blend_channel(0, 0, 200), 0);
}

#[test]
fn pack_rgb_values() {
    assert_eq!(pack_rgb(0x12, 0x34, 0x56), 0x0012_3456);
    assert_eq!(pack_rgb(255, 255, 255), 0x00ff_ffff);
    assert_eq!(pack_rgb(0, 0, 0), 0);
}

#[test]
fn blend_pixel_values() {
    let black = Color { r: 0, g: 0, b: 0 };
    // full coverage gives the text color, none keeps the background
    assert_eq!(blend_pixel(0x00ff_ffff, black, 255), 0);
    assert_eq!(blend_pixel(0x00ab_cdef, black, 0), 0x00ab_cdef);
    // each channel blended on its own: (10*51 + 0x80*204)/255, (20*51 + 0x40*204)/255, (30*51 + 0x20*204)/255
    let c = Color { r: 10, g: 20, b: 30 };
    let expected = pack_rgb(
        ((10 * 51 + 0x80 * 204) / 255) as u8,
        ((20 * 51 + 0x40 * 204) / 255) as u8,
        ((30 * 51 + 0x20 * 204) / 255) as u8,
    );
    assert_eq!(blend_pixel(0x0080_4020, c, 51), expected);
    assert_eq!(expected, 0x0068_371f);
    // the byte above the three channels of the background is ignored
    assert_eq!(blend_pixel(0xff80_4020, c, 51), expected);
}
