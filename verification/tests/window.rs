use hlm::window::to_wayland_argb;

#[test]
fn transparent_pixels_become_zero() {
    assert_eq!(to_wayland_argb(&[10, 20, 30, 0]), vec![0, 0, 0, 0]);
}

#[test]
fn opaque_pixels_swap_red_and_blue() {
    assert_eq!(to_wayland_argb(&[10, 20, 30, 255]), vec![30, 20, 10, 255]);
}

#[test]
fn translucent_pixels_are_unpremultiplied() {
    // alpha 128: (64 * 255 + 64) / 128 = 128 and (128 * 255 + 64) / 128 = 255.
    assert_eq!(to_wayland_argb(&[64, 0, 128, 128]), vec![255, 0, 128, 128]);
    // (1 * 255 + 1) / 3 = 85
    assert_eq!(to_wayland_argb(&[1, 2, 3, 3]), vec![255, 170, 85, 3]);
}

#[test]
fn several_pixels_and_leftover_bytes() {
    let src = [1, 2, 3, 255, 9, 9, 9, 0, 7, 7];
    assert_eq!(to_wayland_argb(&src), vec![3, 2, 1, 255, 0, 0, 0, 0]);
    assert!(to_wayland_argb(&[]).is_empty());
}
