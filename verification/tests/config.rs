use customaio::config::{color, hex_rgb, rgb_hex, Colors, Device, Display, Fan, Profile, Sensors};

#[test]
fn defaults_match_the_documented_settings() {
    let d = Display::default();
    assert!(d.lcd && d.save_png);
    assert_eq!(d.png_path, "data/frame.png");
    assert_eq!(d.rotation, 90);
    assert_eq!(d.brightness, 100);
    let dev = Device::default();
    assert_eq!((dev.vendor_id, dev.product_id, dev.serial.as_str()), (0, 0, ""));
    let s = Sensors::default();
    assert_eq!((s.cpu.as_str(), s.gpu.as_str(), s.pawnio_modules.as_str()), ("auto", "auto", "modules"));
    let c = Colors::default();
    assert_eq!(c.background, "#000000");
    assert_eq!(c.accent, "#FF7A1A");
    assert_eq!(c.alert_background, "#FF0000");
    let p = Profile::default();
    assert!(p.pump.is_empty() && p.fan.is_empty());
    let f = Fan::default();
    assert!(f.enabled);
    assert_eq!(f.silent.pump, vec![[20, 60], [35, 60], [40, 70], [45, 80], [50, 90], [55, 100]]);
    assert_eq!(f.performance.fan.last(), Some(&[60, 100]));
}

#[test]
fn hex_colours_long_and_short() {
    assert_eq!(hex_rgb("#FF7A1A"), (0xFF, 0x7A, 0x1A));
    assert_eq!(hex_rgb("#ff7a1a"), (0xFF, 0x7A, 0x1A));
    assert_eq!(hex_rgb("#abc"), (0xAA, 0xBB, 0xCC));
    assert_eq!(hex_rgb("#abc"), hex_rgb("#aabbcc"));
    assert_eq!(hex_rgb("  #202020\t"), (0x20, 0x20, 0x20));
    assert_eq!(hex_rgb("##123456"), (0x12, 0x34, 0x56));
    assert_eq!(hex_rgb("123"), (0x11, 0x22, 0x33));
}

#[test]
fn bad_colours_are_magenta() {
    assert_eq!(hex_rgb("#12345G"), (255, 0, 255));
    assert_eq!(hex_rgb(""), (255, 0, 255));
    assert_eq!(hex_rgb("red"), (255, 0, 255));
    assert_eq!(hex_rgb("#1234"), (255, 0, 255));
    assert_eq!(hex_rgb("#ééé"), (255, 0, 255));
}

#[test]
fn a_sign_before_the_digits_is_magenta() {
    assert_eq!(hex_rgb("#+12345"), (255, 0, 255));
    assert_eq!(hex_rgb("#+FF"), (255, 0, 255));
    assert_eq!(hex_rgb("#-12345"), (255, 0, 255));
    assert_eq!(hex_rgb("#+"), (255, 0, 255));
}

#[test]
fn written_colours_read_back() {
    assert_eq!(rgb_hex(0xFF, 0x7A, 0x1A), "#FF7A1A");
    assert_eq!(rgb_hex(0, 1, 255), "#0001FF");
    for (r, g, b) in [(0, 0, 0), (255, 255, 255), (18, 52, 86), (171, 205, 239)] {
        assert_eq!(hex_rgb(&rgb_hex(r, g, b)), (r, g, b));
    }
}

#[test]
fn colour_is_built_by_tiny_skia() {
    assert_eq!(color("#FF7A1A"), tiny_skia::Color::from_rgba8(0xFF, 0x7A, 0x1A, 255));
    assert_eq!(color("oops"), tiny_skia::Color::from_rgba8(255, 0, 255, 255));
    assert_eq!(color("#+12345"), tiny_skia::Color::from_rgba8(255, 0, 255, 255));
    assert_ne!(color("#000000"), tiny_skia::Color::from_rgba8(255, 0, 255, 255));
}
