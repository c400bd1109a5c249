use vstd::prelude::*;

verus! {

/// The four channels of a colour written as `0xAARRGGBB`, as
/// `(red, green, blue, alpha)`.
pub fn split_argb(c: u32) -> (r: (u8, u8, u8, u8))
    ensures
        r.0 == (c >> 16) & 0xFF,
        r.1 == (c >> 8) & 0xFF,
        r.2 == c & 0xFF,
        r.3 == (c >> 24) & 0xFF,
        r.3 as u32 * 0x100_0000 + r.0 as u32 * 0x1_0000 + r.1 as u32 * 0x100 + r.2 as u32 == c,
{
    let red = ((c >> 16) & 0xFF) as u8;
    let green = ((c >> 8) & 0xFF) as u8;
    let blue = (c & 0xFF) as u8;
    let alpha = ((c >> 24) & 0xFF) as u8;
    assert((c >> 24) & 0xFF < 256 && (c >> 16) & 0xFF < 256 && (c >> 8) & 0xFF < 256 && c & 0xFF
        < 256) by (bit_vector);
    assert(((c >> 24) & 0xFF) * 0x100_0000 + ((c >> 16) & 0xFF) * 0x1_0000 + ((c >> 8) & 0xFF)
        * 0x100 + (c & 0xFF) == c) by (bit_vector);
    (red, green, blue, alpha)
}

/// The header text of the overlay: the asset, two spaces, the interval.
pub fn header_label(coin: &str, interval_label: &str) -> (r: String)
    ensures
        r@ == coin@ + "  "@ + interval_label@,
{
    let mut label = coin.to_owned();
    label.append("  ");
    label.append(interval_label);
    label
}

} // verus!
