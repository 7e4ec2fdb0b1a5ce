use herdr_floax::config::Config;
use herdr_floax::geometry::{box_inner, box_rect, Rect};

fn cfg(w: u16, h: u16) -> Config {
    Config { width_pct: w, height_pct: h, ..Config::default() }
}

#[test]
fn box_is_centered_at_80pct() {
    let r = box_rect(Rect::new(0, 0, 100, 50), &cfg(80, 80));
    assert_eq!(r, Rect::new(10, 5, 80, 40));
}

#[test]
fn box_respects_area_offset() {
    let r = box_rect(Rect::new(7, 3, 100, 50), &cfg(80, 80));
    assert_eq!(r, Rect::new(17, 8, 80, 40));
}

#[test]
fn box_clamps_to_minimums_on_tiny_areas() {
    let r = box_rect(Rect::new(0, 0, 30, 6), &cfg(20, 20));
    assert!(r.width >= 20 && r.height >= 5);
    // ... and never exceeds the area even when the area is below minimums.
    let r = box_rect(Rect::new(0, 0, 12, 3), &cfg(80, 80));
    assert!(r.width <= 12 && r.height <= 3);
}

#[test]
fn full_size_at_100pct() {
    let area = Rect::new(0, 0, 100, 50);
    assert_eq!(box_rect(area, &cfg(100, 100)), area);
}

#[test]
fn inner_is_border_inset_and_never_zero() {
    let inner = box_inner(Rect::new(0, 0, 100, 50), &cfg(80, 80));
    assert_eq!(inner, Rect::new(11, 6, 78, 38));
    let tiny = box_inner(Rect::new(0, 0, 2, 2), &cfg(20, 20));
    assert!(tiny.width >= 1 && tiny.height >= 1);
}
