//! A fixed dark-to-bright colour gradient.
//!
//! Positions run from `0` to `POSITION_MAX`; the gradient interpolates
//! linearly between nine colour stops spaced `SEGMENT` positions apart. The
//! stops follow the inferno map from near black through purple and orange to
//! pale yellow, with each channel held at least at its earlier value, so
//! that every channel, and with them the lightness, never falls along the
//! gradient. Positions past `POSITION_MAX` give the last stop.

use vstd::prelude::*;
use crate::pixels::{cast_to_bytes, in_byte_order};

verus! {

/// Positions between two neighbouring stops.
pub const SEGMENT: u32 = 256;

/// Last position of the gradient.
pub const POSITION_MAX: u32 = 2048;

/// Colour stop `i` (for `0 <= i <= 8`) as red, green and blue levels.
pub open spec fn stop(i: int) -> (int, int, int) {
    if i <= 0 {
        (0, 0, 4)
    } else if i == 1 {
        (31, 12, 72)
    } else if i == 2 {
        (85, 15, 109)
    } else if i == 3 {
        (136, 34, 109)
    } else if i == 4 {
        (186, 54, 109)
    } else if i == 5 {
        (227, 89, 109)
    } else if i == 6 {
        (249, 140, 109)
    } else if i == 7 {
        (249, 201, 109)
    } else {
        (252, 255, 164)
    }
}

/// Channel `c` (0 red, 1 green, 2 blue) of a colour.
pub open spec fn channel_of(rgb: (int, int, int), c: int) -> int {
    if c == 0 {
        rgb.0
    } else if c == 1 {
        rgb.1
    } else {
        rgb.2
    }
}

/// Linear interpolation from `a` to `b` at step `f` of `SEGMENT`, rounded
/// down.
pub open spec fn lerp(a: int, b: int, f: int) -> int {
    (a * (SEGMENT - f) + b * f) / SEGMENT as int
}

/// Channel `c` of the gradient at position `pos`.
pub open spec fn gradient_channel(pos: int, c: int) -> int {
    if pos >= POSITION_MAX {
        channel_of(stop(8), c)
    } else {
        let s = pos / SEGMENT as int;
        lerp(channel_of(stop(s), c), channel_of(stop(s + 1), c), pos % SEGMENT as int)
    }
}

/// A colour packed as the bytes red, green, blue, alpha of a little-endian
/// `u32`, fully opaque.
pub open spec fn pack_rgb(r: int, g: int, b: int) -> u32 {
    (r + g * 0x100 + b * 0x1_0000 + 0xff00_0000) as u32
}

/// The packed, opaque colour of the gradient at `pos`.
pub open spec fn gradient(pos: int) -> u32 {
    pack_rgb(gradient_channel(pos, 0), gradient_channel(pos, 1), gradient_channel(pos, 2))
}

/// Lightness of a colour in Rec. 709 luma weights, scaled by 10000.
pub open spec fn lightness(pos: int) -> int {
    2126 * gradient_channel(pos, 0) + 7152 * gradient_channel(pos, 1) + 722 * gradient_channel(
        pos,
        2,
    )
}

fn stop_rgb(i: u32) -> (r: (u32, u32, u32))
    ensures
        r.0 == stop(i as int).0,
        r.1 == stop(i as int).1,
        r.2 == stop(i as int).2,
{
    if i == 0 {
        (0, 0, 4)
    } else if i == 1 {
        (31, 12, 72)
    } else if i == 2 {
        (85, 15, 109)
    } else if i == 3 {
        (136, 34, 109)
    } else if i == 4 {
        (186, 54, 109)
    } else if i == 5 {
        (227, 89, 109)
    } else if i == 6 {
        (249, 140, 109)
    } else if i == 7 {
        (249, 201, 109)
    } else {
        (252, 255, 164)
    }
}

fn lerp_level(a: u32, b: u32, f: u32) -> (r: u32)
    requires
        a <= 255,
        b <= 255,
        f < SEGMENT,
    ensures
        r == lerp(a as int, b as int, f as int),
        r <= 255,
{
    proof {
        let (ai, bi, fi) = (a as int, b as int, f as int);
        assert(ai * (256 - fi) + bi * fi <= 255 * 256) by (nonlinear_arith)
            requires
                0 <= ai <= 255,
                0 <= bi <= 255,
                0 <= fi < 256,
        ;
        assert(0 <= ai * (256 - fi) + bi * fi) by (nonlinear_arith)
            requires
                0 <= ai,
                0 <= bi,
                0 <= fi < 256,
        ;
    }
    (a * (SEGMENT - f) + b * f) / SEGMENT
}

/// The packed colour of the gradient at `pos` (red in the low byte, alpha
/// `0xff` in the high byte).
pub fn gradient_color(pos: u32) -> (r: u32)
    ensures
        r == gradient(pos as int),
{
    let (red, green, blue) = if pos >= POSITION_MAX {
        stop_rgb(8)
    } else {
        let s = pos / SEGMENT;
        let f = pos % SEGMENT;
        let lo = stop_rgb(s);
        let hi = stop_rgb(s + 1);
        (lerp_level(lo.0, hi.0, f), lerp_level(lo.1, hi.1, f), lerp_level(lo.2, hi.2, f))
    };
    red + green * 0x100 + blue * 0x1_0000 + 0xff00_0000
}

/// The gradient starts at the first stop and ends at the last one.
pub proof fn lemma_gradient_endpoints()
    ensures
        gradient(0) == pack_rgb(stop(0).0, stop(0).1, stop(0).2),
        gradient(POSITION_MAX as int) == pack_rgb(stop(8).0, stop(8).1, stop(8).2),
{
    assert(gradient_channel(0, 0) == stop(0).0);
    assert(gradient_channel(0, 1) == stop(0).1);
    assert(gradient_channel(0, 2) == stop(0).2);
}

/// Each channel of the stops never falls from one stop to a later one.
proof fn lemma_stops_rise(i: int, j: int, c: int)
    requires
        0 <= i <= j <= 8,
    ensures
        channel_of(stop(i), c) <= channel_of(stop(j), c),
    decreases j - i,
{
    if i < j {
        lemma_stops_rise(i, j - 1, c);
    }
}

/// Interpolating between rising levels stays between them and rises with
/// the step.
proof fn lemma_lerp_rises(a: int, b: int, f1: int, f2: int)
    requires
        0 <= a <= b,
        0 <= f1 <= f2 < SEGMENT,
    ensures
        a <= lerp(a, b, f1) <= lerp(a, b, f2) <= b,
{
    let n1 = a * (256 - f1) + b * f1;
    let n2 = a * (256 - f2) + b * f2;
    assert(a * 256 <= n1 <= n2 <= b * 256) by (nonlinear_arith)
        requires
            0 <= a <= b,
            0 <= f1 <= f2 < 256,
            n1 == a * (256 - f1) + b * f1,
            n2 == a * (256 - f2) + b * f2,
    ;
    vstd::arithmetic::div_mod::lemma_div_is_ordered(a * 256, n1, 256);
    vstd::arithmetic::div_mod::lemma_div_is_ordered(n1, n2, 256);
    vstd::arithmetic::div_mod::lemma_div_is_ordered(n2, b * 256, 256);
    vstd::arithmetic::div_mod::lemma_div_by_multiple(a, 256);
    vstd::arithmetic::div_mod::lemma_div_by_multiple(b, 256);
}

/// Along the gradient every channel rises or stays, and so does the
/// lightness.
pub proof fn lemma_gradient_monotone(lo_pos: int, hi_pos: int)
    requires
        0 <= lo_pos <= hi_pos,
    ensures
        forall|c: int| 0 <= c < 3 ==> #[trigger] gradient_channel(lo_pos, c) <= gradient_channel(hi_pos, c),
        lightness(lo_pos) <= lightness(hi_pos),
{
    assert forall|c: int| 0 <= c < 3 implies #[trigger] gradient_channel(lo_pos, c)
        <= gradient_channel(hi_pos, c) by {
        lemma_channel_monotone(lo_pos, hi_pos, c);
    }
}

proof fn lemma_channel_monotone(lo_pos: int, hi_pos: int, c: int)
    requires
        0 <= lo_pos <= hi_pos,
    ensures
        gradient_channel(lo_pos, c) <= gradient_channel(hi_pos, c),
{
    let m = POSITION_MAX as int;
    if lo_pos >= m {
    } else {
        let s1 = lo_pos / 256;
        let f1 = lo_pos % 256;
        assert(0 <= s1 < 8 && 0 <= f1 < 256);
        lemma_stops_rise(s1, s1 + 1, c);
        let a1 = channel_of(stop(s1), c);
        let b1 = channel_of(stop(s1 + 1), c);
        assert(a1 >= 0);
        lemma_lerp_rises(a1, b1, f1, 255);
        if hi_pos >= m {
            lemma_stops_rise(s1 + 1, 8, c);
        } else {
            let s2 = hi_pos / 256;
            let f2 = hi_pos % 256;
            assert(0 <= s2 < 8 && 0 <= f2 < 256);
            let a2 = channel_of(stop(s2), c);
            let b2 = channel_of(stop(s2 + 1), c);
            lemma_stops_rise(s2, s2 + 1, c);
            assert(a2 >= 0);
            if s1 == s2 {
                lemma_lerp_rises(a1, b1, f1, f2);
            } else {
                assert(s1 < s2);
                lemma_stops_rise(s1 + 1, s2, c);
                lemma_lerp_rises(a2, b2, 0, f2);
            }
        }
    }
}

/// The colours of the gradient at `positions`, one packed colour each.
pub fn gradient_colors(positions: &[u32]) -> (r: Vec<u32>)
    ensures
        r@ == positions@.map_values(|p: u32| gradient(p as int)),
{
    let mut colors: Vec<u32> = Vec::new();
    let mut i: usize = 0;
    while i < positions.len()
        invariant
            i <= positions@.len(),
            colors@ == positions@.subrange(0, i as int).map_values(|p: u32| gradient(p as int)),
        decreases positions@.len() - i,
    {
        colors.push(gradient_color(positions[i]));
        i = i + 1;
        assert(colors@ =~= positions@.subrange(0, i as int).map_values(
            |p: u32| gradient(p as int),
        ));
    }
    assert(positions@.subrange(0, i as int) =~= positions@);
    colors
}

/// The colours of the gradient at `positions` as image bytes, four per
/// position in the machine's byte order (red, green, blue, alpha on a
/// little-endian machine).
pub fn gradient_bytes(positions: &[u32]) -> (r: Vec<u8>)
    ensures
        r@.len() == 4 * positions@.len(),
        in_byte_order(positions@.map_values(|p: u32| gradient(p as int)), r@, true)
            || in_byte_order(positions@.map_values(|p: u32| gradient(p as int)), r@, false),
{
    let colors = gradient_colors(positions);
    cast_to_bytes(colors.as_slice())
}

} // verus!
