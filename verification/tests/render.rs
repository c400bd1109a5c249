use hlm::render::{header_label, split_argb};

#[test]
fn argb_channels() {
    assert_eq!(split_argb(0xD9131722), (0x13, 0x17, 0x22, 0xD9));
    assert_eq!(split_argb(0xFF26A69A), (0x26, 0xA6, 0x9A, 0xFF));
    assert_eq!(split_argb(0xFFEF5350), (0xEF, 0x53, 0x50, 0xFF));
    assert_eq!(split_argb(0x00FFFFFF), (0xFF, 0xFF, 0xFF, 0x00));
    assert_eq!(split_argb(0), (0, 0, 0, 0));
}

#[test]
fn header_text() {
    assert_eq!(header_label("BTC", "1m"), "BTC  1m");
    assert_eq!(header_label("xyz:CL", "5m"), "xyz:CL  5m");
}

