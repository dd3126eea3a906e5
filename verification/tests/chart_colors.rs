use ch_rzl::chart::{
    background_color, challenge_backdrop_color, ease_index, hit_effect_color, mix_color,
    note_head_color, Color, Theme, EASE_COUNT,
};

fn rgba(r: u32, g: u32, b: u32, a: u32) -> Color {
    Color { r, g, b, a }
}

fn theme(colors: Vec<Color>) -> Theme {
    Theme { colors_list: colors }
}

fn sample_themes() -> Vec<Theme> {
    vec![
        theme(vec![rgba(10, 20, 30, 255), rgba(40, 50, 60, 255), rgba(70, 80, 90, 255)]),
        theme(vec![rgba(1, 2, 3, 255), rgba(4, 5, 6, 255), rgba(7, 8, 9, 255)]),
        theme(vec![rgba(100, 100, 100, 255)]),
    ]
}

#[test]
fn ease_index_keeps_known_curves() {
    assert_eq!(ease_index(0), 0);
    assert_eq!(ease_index(7), 7);
    assert_eq!(ease_index(18), 18);
    assert_eq!(EASE_COUNT, 19);
}

#[test]
fn ease_index_falls_back_to_linear() {
    assert_eq!(ease_index(19), 0);
    assert_eq!(ease_index(1000), 0);
    assert_eq!(ease_index(u32::MAX), 0);
}

#[test]
fn hit_effect_color_outside_challenge_uses_theme_zero() {
    let themes = sample_themes();
    assert_eq!(hit_effect_color(&themes, None), rgba(70, 80, 90, 255));
}

#[test]
fn hit_effect_color_in_challenge_uses_next_theme() {
    let themes = sample_themes();
    assert_eq!(hit_effect_color(&themes, Some(0)), rgba(7, 8, 9, 255));
}

#[test]
fn hit_effect_color_falls_back_to_theme_zero() {
    let themes = sample_themes();
    // theme 2 has no colour 2; theme 3 does not exist
    assert_eq!(hit_effect_color(&themes, Some(1)), rgba(70, 80, 90, 255));
    assert_eq!(hit_effect_color(&themes, Some(5)), rgba(70, 80, 90, 255));
}

#[test]
fn hit_effect_color_defaults_to_white() {
    let themes: Vec<Theme> = vec![theme(vec![rgba(1, 1, 1, 1)])];
    assert_eq!(hit_effect_color(&themes, None), rgba(255, 255, 255, 255));
    let none: Vec<Theme> = Vec::new();
    assert_eq!(hit_effect_color(&none, Some(3)), rgba(255, 255, 255, 255));
}

#[test]
fn note_head_color_rules() {
    let themes = sample_themes();
    assert_eq!(note_head_color(&themes, None), rgba(40, 50, 60, 255));
    assert_eq!(note_head_color(&themes, Some(0)), rgba(4, 5, 6, 255));
    // theme 2 has no colour 1: colour 0 of theme 0
    assert_eq!(note_head_color(&themes, Some(1)), rgba(10, 20, 30, 255));
    let bare: Vec<Theme> = vec![theme(Vec::new())];
    assert_eq!(note_head_color(&bare, None), rgba(255, 255, 255, 255));
}

#[test]
fn background_and_backdrop_colors() {
    let themes = sample_themes();
    assert_eq!(background_color(&themes), Some(rgba(10, 20, 30, 255)));
    assert_eq!(challenge_backdrop_color(&themes, 0), Some(rgba(1, 2, 3, 255)));
    assert_eq!(challenge_backdrop_color(&themes, 1), Some(rgba(100, 100, 100, 255)));
    assert_eq!(challenge_backdrop_color(&themes, 2), None);
    let none: Vec<Theme> = Vec::new();
    assert_eq!(background_color(&none), None);
}

#[test]
fn mix_color_transparent_keeps_base() {
    let base = rgba(12, 34, 56, 200);
    assert_eq!(mix_color(&base, &rgba(255, 0, 0, 0)), base);
}

#[test]
fn mix_color_opaque_takes_over_but_keeps_alpha() {
    let base = rgba(12, 34, 56, 200);
    assert_eq!(mix_color(&base, &rgba(1, 2, 3, 255)), rgba(1, 2, 3, 200));
}

#[test]
fn mix_color_half_blend_exact_values() {
    let base = rgba(0, 0, 0, 255);
    let over = rgba(255, 255, 255, 128);
    // 255 * 128 / 255 = 128
    assert_eq!(mix_color(&base, &over), rgba(128, 128, 128, 255));
    let base2 = rgba(100, 0, 255, 10);
    let over2 = rgba(200, 255, 0, 51);
    // 100 * 0.8 + 200 * 0.2 = 120; 255 * 0.2 = 51; 255 * 0.8 = 204
    assert_eq!(mix_color(&base2, &over2), rgba(120, 51, 204, 10));
}

#[test]
fn mix_color_rounds_to_nearest() {
    // 10 * (1 - 1/255) + 0 = 9.96 -> 10
    assert_eq!(mix_color(&rgba(10, 0, 0, 255), &rgba(0, 0, 0, 1)), rgba(10, 0, 0, 255));
    // 0 + 3 * 100/255 = 1.176 -> 1
    assert_eq!(mix_color(&rgba(0, 0, 0, 255), &rgba(3, 0, 0, 100)), rgba(1, 0, 0, 255));
}

#[test]
fn mix_color_stays_between_channels() {
    let pairs = [(0u32, 255u32), (255, 0), (17, 200), (90, 90)];
    for a in 1..255u32 {
        for &(x, y) in pairs.iter() {
            let m = mix_color(&rgba(x, x, x, 7), &rgba(y, y, y, a));
            let lo = x.min(y);
            let hi = x.max(y);
            assert!(lo <= m.r && m.r <= hi);
            assert_eq!(m.a, 7);
        }
    }
}
