//! Chart colours and themes, and the colour rules the renderer applies to
//! them.
use vstd::prelude::*;

verus! {

/// An RGBA colour as stored in a chart, each channel nominally 0-255.
#[derive(Clone, Copy, Debug, PartialEq, Eq, Structural)]
pub struct Color {
    pub r: u32,
    pub g: u32,
    pub b: u32,
    pub a: u32,
}

/// A theme: the list of colours a chart section is painted with. Colour 0
/// is the background, colour 1 the note heads, colour 2 the hit effects.
#[derive(Clone, Debug)]
pub struct Theme {
    pub colors_list: Vec<Color>,
}

pub open spec fn white() -> Color {
    Color { r: 255, g: 255, b: 255, a: 255 }
}

/// The number of easing curves a chart can name.
pub const EASE_COUNT: u32 = 19;

/// Easing types past the end of the table fall back to linear (type 0).
pub open spec fn spec_ease_index(ease_type: u32) -> u32 {
    if ease_type < EASE_COUNT {
        ease_type
    } else {
        0
    }
}

/// The easing curve a chart's `easeType` selects.
pub fn ease_index(ease_type: u32) -> (i: u32)
    ensures
        i == spec_ease_index(ease_type),
        i < EASE_COUNT,
{
    if ease_type < EASE_COUNT {
        ease_type
    } else {
        0
    }
}

// ---------------------------------------------------------------------------
// Theme lookups
// ---------------------------------------------------------------------------

/// Colour `c` of theme `t`, when both exist.
pub open spec fn theme_color(themes: Seq<Theme>, t: int, c: int) -> Option<Color> {
    if 0 <= t < themes.len() && 0 <= c < themes[t].colors_list@.len() {
        Some(themes[t].colors_list@[c])
    } else {
        None
    }
}

fn get_theme_color(themes: &Vec<Theme>, t: usize, c: usize) -> (r: Option<Color>)
    ensures
        r == theme_color(themes@, t as int, c as int),
{
    if t < themes.len() && c < themes[t].colors_list.len() {
        Some(themes[t].colors_list[c])
    } else {
        None
    }
}

/// The theme in force: the one after the active challenge time, or theme 0
/// outside challenge times.
pub open spec fn active_theme(challenge: Option<usize>) -> int {
    match challenge {
        Some(i) => i + 1,
        None => 0,
    }
}

pub open spec fn spec_hit_effect_color(themes: Seq<Theme>, challenge: Option<usize>) -> Color {
    match theme_color(themes, active_theme(challenge), 2) {
        Some(c) => c,
        None => match theme_color(themes, 0, 2) {
            Some(c) => c,
            None => white(),
        },
    }
}

/// The colour of a hit effect: colour 2 of the theme in force, else colour 2
/// of theme 0, else white.
pub fn hit_effect_color(themes: &Vec<Theme>, challenge: Option<usize>) -> (c: Color)
    requires
        challenge matches Some(i) ==> i < usize::MAX,
    ensures
        c == spec_hit_effect_color(themes@, challenge),
{
    let t: usize = match challenge {
        Some(i) => i + 1,
        None => 0,
    };
    match get_theme_color(themes, t, 2) {
        Some(c) => c,
        None => match get_theme_color(themes, 0, 2) {
            Some(c) => c,
            None => Color { r: 255, g: 255, b: 255, a: 255 },
        },
    }
}

pub open spec fn spec_note_head_color(themes: Seq<Theme>, challenge: Option<usize>) -> Color {
    match theme_color(themes, active_theme(challenge), 1) {
        Some(c) => c,
        None => match theme_color(themes, 0, 0) {
            Some(c) => c,
            None => white(),
        },
    }
}

/// The colour of a tap note's head: colour 1 of the theme in force, else
/// colour 0 of theme 0, else white. The chart must have a theme.
pub fn note_head_color(themes: &Vec<Theme>, challenge: Option<usize>) -> (c: Color)
    requires
        themes@.len() > 0,
        challenge matches Some(i) ==> i < usize::MAX,
    ensures
        c == spec_note_head_color(themes@, challenge),
{
    let t: usize = match challenge {
        Some(i) => i + 1,
        None => 0,
    };
    match get_theme_color(themes, t, 1) {
        Some(c) => c,
        None => match get_theme_color(themes, 0, 0) {
            Some(c) => c,
            None => Color { r: 255, g: 255, b: 255, a: 255 },
        },
    }
}

/// The background colour: colour 0 of theme 0, if the chart has one.
pub fn background_color(themes: &Vec<Theme>) -> (c: Option<Color>)
    ensures
        c == theme_color(themes@, 0, 0),
{
    get_theme_color(themes, 0, 0)
}

/// The colour of the challenge-time backdrop for challenge time `active`:
/// colour 0 of the theme after it, if there is one.
pub fn challenge_backdrop_color(themes: &Vec<Theme>, active: usize) -> (c: Option<Color>)
    requires
        active < usize::MAX,
    ensures
        c == theme_color(themes@, active + 1, 0),
{
    get_theme_color(themes, active + 1, 0)
}

// ---------------------------------------------------------------------------
// Alpha blending
// ---------------------------------------------------------------------------

/// `x * (255 - a) + y * a` over 255, rounded to the nearest integer and
/// brought into the `u32` range. The weighted sum is an integer, so the
/// quotient never lies halfway between two integers.
pub open spec fn blend_channel(x: u32, y: u32, a: u32) -> u32 {
    let n = x as int * (255 - a as int) + y as int * a as int;
    if n <= 0 {
        0
    } else if (n + 127) / 255 > u32::MAX {
        u32::MAX
    } else {
        ((n + 127) / 255) as u32
    }
}

/// Standard alpha blending of `over` onto `base`; the result keeps the
/// base's alpha.
pub open spec fn spec_mix_color(base: Color, over: Color) -> Color {
    if over.a == 0 {
        base
    } else if over.a == 255 {
        Color { r: over.r, g: over.g, b: over.b, a: base.a }
    } else {
        Color {
            r: blend_channel(base.r, over.r, over.a),
            g: blend_channel(base.g, over.g, over.a),
            b: blend_channel(base.b, over.b, over.a),
            a: base.a,
        }
    }
}

fn blend(x: u32, y: u32, a: u32) -> (v: u32)
    ensures
        v == blend_channel(x, y, a),
{
    proof {
        assert(-0x1_0000_0000 * 0x1_0000_0000 <= x as int * (255 - a as int) <= 0x1_0000_0000
            * 0x1_0000_0000) by (nonlinear_arith)
            requires
                0 <= x <= u32::MAX,
                0 <= a <= u32::MAX,
        ;
        assert(0 <= y as int * a as int <= 0x1_0000_0000 * 0x1_0000_0000) by (nonlinear_arith)
            requires
                0 <= y <= u32::MAX,
                0 <= a <= u32::MAX,
        ;
    }
    let n: i128 = x as i128 * (255 - a as i128) + y as i128 * a as i128;
    if n <= 0 {
        0
    } else if (n + 127) / 255 > u32::MAX as i128 {
        u32::MAX
    } else {
        ((n + 127) / 255) as u32
    }
}

/// Blends `over` onto `base` by `over`'s alpha.
pub fn mix_color(base: &Color, over: &Color) -> (c: Color)
    ensures
        c == spec_mix_color(*base, *over),
{
    if over.a == 0 {
        return *base;
    }
    if over.a == 255 {
        return Color { r: over.r, g: over.g, b: over.b, a: base.a };
    }
    Color {
        r: blend(base.r, over.r, over.a),
        g: blend(base.g, over.g, over.a),
        b: blend(base.b, over.b, over.a),
        a: base.a,
    }
}

/// Blending keeps the base's alpha, and for colours with 0-255 channels
/// each blended channel lies between the two it blends.
pub proof fn lemma_mix_color_bounds(base: Color, over: Color)
    requires
        over.a <= 255,
    ensures
        spec_mix_color(base, over).a == base.a,
        ({
            let m = spec_mix_color(base, over);
            &&& (base.r <= over.r ==> base.r <= m.r <= over.r)
            &&& (over.r <= base.r ==> over.r <= m.r <= base.r)
            &&& (base.g <= over.g ==> base.g <= m.g <= over.g)
            &&& (over.g <= base.g ==> over.g <= m.g <= base.g)
            &&& (base.b <= over.b ==> base.b <= m.b <= over.b)
            &&& (over.b <= base.b ==> over.b <= m.b <= base.b)
        }),
{
    if 0 < over.a < 255 {
        lemma_blend_between(base.r, over.r, over.a);
        lemma_blend_between(base.g, over.g, over.a);
        lemma_blend_between(base.b, over.b, over.a);
    }
}

proof fn lemma_blend_between(x: u32, y: u32, a: u32)
    requires
        0 < a < 255,
    ensures
        x <= y ==> x <= blend_channel(x, y, a) <= y,
        y <= x ==> y <= blend_channel(x, y, a) <= x,
{
    let n = x as int * (255 - a as int) + y as int * a as int;
    let q = (n + 127) / 255;
    assert(x <= y ==> x <= q <= y) by (nonlinear_arith)
        requires
            n == x as int * (255 - a as int) + y as int * a as int,
            q == (n + 127) / 255,
            0 < a < 255,
            0 <= x,
    ;
    assert(y <= x ==> y <= q <= x) by (nonlinear_arith)
        requires
            n == x as int * (255 - a as int) + y as int * a as int,
            q == (n + 127) / 255,
            0 < a < 255,
            0 <= y,
    ;
    assert(n >= 0) by (nonlinear_arith)
        requires
            n == x as int * (255 - a as int) + y as int * a as int,
            0 < a < 255,
            0 <= x,
            0 <= y,
    ;
}

} // verus!
