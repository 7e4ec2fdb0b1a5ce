use herdr_floax::color::{conv_color, dim_fg, idx_to_rgb, scale_rgb, CellColor, Paint};

#[test]
fn base_sixteen_entries() {
    assert_eq!(idx_to_rgb(0), (0, 0, 0));
    assert_eq!(idx_to_rgb(1), (205, 49, 49));
    assert_eq!(idx_to_rgb(7), (229, 229, 229));
    assert_eq!(idx_to_rgb(8), (102, 102, 102));
    assert_eq!(idx_to_rgb(12), (59, 142, 234));
    assert_eq!(idx_to_rgb(15), (255, 255, 255));
}

#[test]
fn colour_cube_entries() {
    assert_eq!(idx_to_rgb(16), (0, 0, 0));
    assert_eq!(idx_to_rgb(17), (0, 0, 95));
    assert_eq!(idx_to_rgb(21), (0, 0, 255));
    assert_eq!(idx_to_rgb(22), (0, 95, 0));
    assert_eq!(idx_to_rgb(52), (95, 0, 0));
    assert_eq!(idx_to_rgb(196), (255, 0, 0));
    assert_eq!(idx_to_rgb(208), (255, 135, 0));
    assert_eq!(idx_to_rgb(231), (255, 255, 255));
}

#[test]
fn gray_ramp_entries() {
    assert_eq!(idx_to_rgb(232), (8, 8, 8));
    assert_eq!(idx_to_rgb(244), (128, 128, 128));
    assert_eq!(idx_to_rgb(255), (238, 238, 238));
}

#[test]
fn every_cube_and_ramp_entry_uses_the_known_levels() {
    let levels = [0u8, 95, 135, 175, 215, 255];
    for i in 16u8..=231 {
        let (r, g, b) = idx_to_rgb(i);
        assert!(levels.contains(&r) && levels.contains(&g) && levels.contains(&b));
    }
    for i in 232u8..=255 {
        let v = 8 + (i - 232) * 10;
        assert_eq!(idx_to_rgb(i), (v, v, v));
    }
}

#[test]
fn colours_convert_as_they_are() {
    assert_eq!(conv_color(CellColor::Default), Paint::Reset);
    assert_eq!(conv_color(CellColor::Idx(42)), Paint::Indexed(42));
    assert_eq!(conv_color(CellColor::Rgb(1, 2, 3)), Paint::Rgb(1, 2, 3));
}

#[test]
fn scale_rgb_exact() {
    assert_eq!(scale_rgb(10, 20, 30, 1, 2), Paint::Rgb(5, 10, 15));
    assert_eq!(scale_rgb(205, 214, 244, 2, 5), Paint::Rgb(82, 85, 97));
    // 200 * 3 / 2 = 300, cut to a byte as the cast does.
    assert_eq!(scale_rgb(200, 0, 1, 3, 2), Paint::Rgb(44, 0, 1));
}

#[test]
fn dimmed_text_colours() {
    assert_eq!(dim_fg(CellColor::Default), Paint::Rgb(82, 85, 97));
    assert_eq!(dim_fg(CellColor::Idx(1)), Paint::Rgb(82, 19, 19));
    assert_eq!(dim_fg(CellColor::Idx(232)), Paint::Rgb(3, 3, 3));
    assert_eq!(dim_fg(CellColor::Rgb(255, 255, 255)), Paint::Rgb(102, 102, 102));
    assert_eq!(dim_fg(CellColor::Rgb(10, 20, 30)), Paint::Rgb(4, 8, 12));
}

#[test]
fn dimmed_text_never_exceeds_two_fifths() {
    for i in 0u8..=255 {
        match dim_fg(CellColor::Idx(i)) {
            Paint::Rgb(r, g, b) => assert!(r <= 102 && g <= 102 && b <= 102),
            other => panic!("not rgb: {other:?}"),
        }
    }
}
