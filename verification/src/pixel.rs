use vstd::prelude::*;

use crate::css::Color;

verus! {

/// One channel of `fg` drawn over `bg` with coverage `alpha` (0 = only `bg`, 255 = only
/// `fg`): `(fg * alpha + bg * (255 - alpha)) / 255`, rounded down.
pub open spec fn blend_spec(fg: u8, bg: u8, alpha: u8) -> u8 {
    ((fg as int * alpha as int + bg as int * (255 - alpha as int)) / 255) as u8
}

/// A pixel `0x00RRGGBB` from its three channels.
pub open spec fn pack_spec(r: u8, g: u8, b: u8) -> u32 {
    ((r as u32) << 16) | ((g as u32) << 8) | (b as u32)
}

/// Blends one color channel: `(fg * alpha + bg * (255 - alpha)) / 255`, rounded down.
pub fn blend_channel(fg: u8, bg: u8, alpha: u8) -> (c: u8)
    ensures
        c as int == (fg as int * alpha as int + bg as int * (255 - alpha as int)) / 255,
        c == blend_spec(fg, bg, alpha),
{
    let f = fg as u32;
    let b = bg as u32;
    let a = alpha as u32;
    assert(f * a + b * (255 - a) <= 255 * 255) by (nonlinear_arith)
        requires
            f <= 255,
            b <= 255,
            a <= 255,
    {
        assert(f * a <= 255 * a);
        assert(b * (255 - a) <= 255 * (255 - a));
    }
    assert(0 <= f * a + b * (255 - a)) by (nonlinear_arith)
        requires
            a <= 255,
    ;
    let v = (f * a + b * (255 - a)) / 255;
    assert(v <= 255);
    v as u8
}

/// Packs three channels into a pixel `0x00RRGGBB`.
pub fn pack_rgb(r: u8, g: u8, b: u8) -> (p: u32)
    ensures
        p == pack_spec(r, g, b),
        p as int == r as int * 0x10000 + g as int * 0x100 + b as int,
{
    let p = ((r as u32) << 16) | ((g as u32) << 8) | (b as u32);
    assert(p as int == r as int * 0x10000 + g as int * 0x100 + b as int) by (bit_vector)
        requires
            p == ((r as u32) << 16) | ((g as u32) << 8) | (b as u32),
    ;
    p
}

/// The pixel `0x00RRGGBB` that drawing `color` with coverage `alpha` over the pixel `bg` gives,
/// each channel blended on its own.
pub fn blend_pixel(bg: u32, color: Color, alpha: u8) -> (p: u32)
    ensures
        p == ((blend_spec(color.r, ((bg >> 16) & 0xff) as u8, alpha) as u32) << 16) | ((blend_spec(
            color.g,
            ((bg >> 8) & 0xff) as u8,
            alpha,
        ) as u32) << 8) | (blend_spec(color.b, (bg & 0xff) as u8, alpha) as u32),
{
    let bg_r = ((bg >> 16) & 0xff) as u8;
    let bg_g = ((bg >> 8) & 0xff) as u8;
    let bg_b = (bg & 0xff) as u8;
    let r = blend_channel(color.r, bg_r, alpha);
    let g = blend_channel(color.g, bg_g, alpha);
    let b = blend_channel(color.b, bg_b, alpha);
    pack_rgb(r, g, b)
}

/// Blending stays between the two channels; full coverage gives the foreground, no coverage
/// the background, and blending a channel with itself leaves it as it is.
pub proof fn lemma_blend_bounds(fg: u8, bg: u8, alpha: u8)
    ensures
        (fg <= bg ==> fg <= blend_spec(fg, bg, alpha) <= bg),
        (bg <= fg ==> bg <= blend_spec(fg, bg, alpha) <= fg),
        blend_spec(fg, bg, 255) == fg,
        blend_spec(fg, bg, 0) == bg,
        blend_spec(fg, fg, alpha) == fg,
{
    let f = fg as int;
    let b = bg as int;
    let a = alpha as int;
    let v = f * a + b * (255 - a);
    assert(v == b * 255 + (f - b) * a) by (nonlinear_arith)
        requires
            v == f * a + b * (255 - a),
    ;
    assert(f <= b ==> f * 255 <= v <= b * 255) by (nonlinear_arith)
        requires
            v == b * 255 + (f - b) * a,
            0 <= a <= 255,
    ;
    assert(b <= f ==> b * 255 <= v <= f * 255) by (nonlinear_arith)
        requires
            v == b * 255 + (f - b) * a,
            0 <= a <= 255,
    ;
    assert(f * 255 / 255 == f);
    assert(b * 255 / 255 == b);
    assert(f <= b ==> f <= v / 255 <= b) by (nonlinear_arith)
        requires
            f <= b ==> f * 255 <= v <= b * 255,
    ;
    assert(b <= f ==> b <= v / 255 <= f) by (nonlinear_arith)
        requires
            b <= f ==> b * 255 <= v <= f * 255,
    ;
    assert(f * 255 + b * 0 == f * 255);
    assert(f * 0 + b * 255 == b * 255);
    assert(f * a + f * (255 - a) == f * 255) by (nonlinear_arith);
}

} // verus!
