use vstd::prelude::*;

verus! {

/// A colour channel `c` premultiplied by alpha `a` (nonzero) brought back to
/// its straight value, rounded to nearest and at most 255.
pub open spec fn unpremultiply(c: u8, a: u8) -> u8
    recommends
        a > 0,
{
    let v = (c * 255 + a / 2) / (a as int);
    if v > 255 {
        255
    } else {
        v as u8
    }
}

/// Byte `i` of the Wayland ARGB8888 buffer (little endian: blue, green, red,
/// alpha) made from the premultiplied RGBA pixels in `src`: a transparent
/// pixel is all zero, an opaque one keeps its channels, any other has them
/// unpremultiplied.
pub open spec fn wayland_byte(src: Seq<u8>, i: int) -> u8 {
    let k = i / 4;
    let j = i % 4;
    let a = src[4 * k + 3];
    if a == 0 {
        0
    } else if j == 3 {
        a
    } else if a == 255 {
        src[4 * k + 2 - j]
    } else {
        unpremultiply(src[4 * k + 2 - j], a)
    }
}

proof fn lemma_pixel_index(k: int, j: int)
    requires
        0 <= k,
        0 <= j < 4,
    ensures
        (4 * k + j) / 4 == k,
        (4 * k + j) % 4 == j,
{
    assert((4 * k + j) / 4 == k && (4 * k + j) % 4 == j) by (nonlinear_arith)
        requires
            0 <= k,
            0 <= j < 4,
    ;
}

/// Unpremultiplies one channel (see `unpremultiply`).
fn unpremultiply_channel(c: u8, a: u8) -> (r: u8)
    requires
        a > 0,
    ensures
        r == unpremultiply(c, a),
{
    assert(c as u32 * 255 <= 255 * 255) by (nonlinear_arith);
    let v = (c as u32 * 255 + a as u32 / 2) / a as u32;
    if v > 255 {
        255
    } else {
        v as u8
    }
}

/// Converts tiny-skia's premultiplied RGBA pixels into the Wayland ARGB8888
/// layout (see `wayland_byte`); trailing bytes that make no whole pixel are
/// left out.
pub fn to_wayland_argb(src: &[u8]) -> (out: Vec<u8>)
    ensures
        out@.len() == src@.len() / 4 * 4,
        forall|i: int| 0 <= i < out@.len() ==> #[trigger] out@[i] == wayland_byte(src@, i),
        forall|i: int| 0 <= i < out@.len() && i % 4 == 3 ==> #[trigger] out@[i] == src@[i],
{
    let n = src.len() / 4;
    assert(4 * n <= src@.len()) by (nonlinear_arith)
        requires
            n == src@.len() / 4,
    ;
    let mut out: Vec<u8> = Vec::new();
    let mut k: usize = 0;
    while k < n
        invariant
            n == src@.len() / 4,
            4 * n <= src@.len(),
            k <= n,
            out@.len() == 4 * k,
            forall|i: int| 0 <= i < out@.len() ==> #[trigger] out@[i] == wayland_byte(src@, i),
        decreases n - k,
    {
        let base = 4 * k;
        let a = src[base + 3];
        let ghost before = out@;
        if a == 0 {
            out.push(0);
            out.push(0);
            out.push(0);
            out.push(0);
        } else if a == 255 {
            out.push(src[base + 2]);
            out.push(src[base + 1]);
            out.push(src[base]);
            out.push(255);
        } else {
            out.push(unpremultiply_channel(src[base + 2], a));
            out.push(unpremultiply_channel(src[base + 1], a));
            out.push(unpremultiply_channel(src[base], a));
            out.push(a);
        }
        proof {
            lemma_pixel_index(k as int, 0);
            lemma_pixel_index(k as int, 1);
            lemma_pixel_index(k as int, 2);
            lemma_pixel_index(k as int, 3);
            assert forall|i: int| 0 <= i < out@.len() implies #[trigger] out@[i] == wayland_byte(
                src@,
                i,
            ) by {
                if i < before.len() {
                    assert(out@[i] == before[i]);
                }
            }
        }
        k = k + 1;
    }
    proof {
        assert(src@.len() / 4 * 4 == 4 * n) by (nonlinear_arith)
            requires
                n == src@.len() / 4,
        ;
        assert forall|i: int| 0 <= i < out@.len() && i % 4 == 3 implies #[trigger] out@[i]
            == src@[i] by {
            let k = i / 4;
            assert(i == 4 * k + 3 && k >= 0) by (nonlinear_arith)
                requires
                    i % 4 == 3,
                    i >= 0,
                    k == i / 4,
            ;
            lemma_pixel_conversion(src@, k, 0);
        }
    }
    out
}

/// What the conversion does to pixel `k` (bytes `4k..4k+4` of `src`, in
/// the order red, green, blue, alpha): the alpha byte is kept as it is; the
/// output colour bytes come in the order blue, green, red; a transparent
/// pixel has them zero, an opaque one copies them, and any other alpha `a`
/// has each channel `c` unpremultiplied to `(c * 255 + a / 2) / a`, at most
/// 255.
pub proof fn lemma_pixel_conversion(src: Seq<u8>, k: int, j: int)
    requires
        0 <= k,
        4 * k + 3 < src.len(),
        0 <= j < 3,
    ensures
        wayland_byte(src, 4 * k + 3) == src[4 * k + 3],
        src[4 * k + 3] == 0 ==> wayland_byte(src, 4 * k + j) == 0,
        src[4 * k + 3] == 255 ==> wayland_byte(src, 4 * k + j) == src[4 * k + 2 - j],
        0 < src[4 * k + 3] < 255 ==> wayland_byte(src, 4 * k + j) as int == (if (src[4 * k + 2
            - j] * 255 + src[4 * k + 3] / 2) / (src[4 * k + 3] as int) <= 255 {
            (src[4 * k + 2 - j] * 255 + src[4 * k + 3] / 2) / (src[4 * k + 3] as int)
        } else {
            255
        }),
{
    lemma_pixel_index(k, j);
    lemma_pixel_index(k, 3);
}

} // verus!
