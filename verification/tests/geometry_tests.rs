use herdr_floax::config::Config;
use herdr_floax::geometry::{box_inner, box_rect, Rect};

fn pct(w: u16, h: u16) -> Config {
    Config { width_pct: w, height_pct: h, ..Config::default() }
}

#[test]
fn rect_new_cuts_size_at_u16_range() {
    let r = Rect::new(65530, 0, 10, 1);
    assert_eq!(r, Rect { x: 65530, y: 0, width: 5, height: 1 });
    let r = Rect::new(0, 65535, 3, 9);
    assert_eq!(r, Rect { x: 0, y: 65535, width: 3, height: 0 });
    let r = Rect::new(1, 2, 3, 4);
    assert_eq!(r, Rect { x: 1, y: 2, width: 3, height: 4 });
}

#[test]
fn right_and_bottom_saturate() {
    let r = Rect { x: 10, y: 20, width: 5, height: 6 };
    assert_eq!((r.right(), r.bottom()), (15, 26));
    let r = Rect { x: 65530, y: 65535, width: 10, height: 1 };
    assert_eq!((r.right(), r.bottom()), (65535, 65535));
}

#[test]
fn default_box_on_a_common_terminal() {
    let r = box_rect(Rect::new(0, 0, 80, 24), &Config::default());
    // 80 * 94 / 100 = 75, 24 * 92 / 100 = 22
    assert_eq!(r, Rect::new(2, 1, 75, 22));
    let inner = box_inner(Rect::new(0, 0, 80, 24), &Config::default());
    assert_eq!(inner, Rect::new(3, 2, 73, 20));
}

#[test]
fn odd_leftover_rounds_toward_the_origin() {
    let r = box_rect(Rect::new(0, 0, 101, 11), &pct(50, 50));
    assert_eq!(r, Rect::new(25, 3, 50, 5));
}

#[test]
fn minimum_width_and_height_apply() {
    // 30 * 20 / 100 = 6 columns, raised to 20; 6 * 20 / 100 = 1 row, raised to 5.
    let r = box_rect(Rect::new(0, 0, 30, 6), &pct(20, 20));
    assert_eq!(r, Rect::new(5, 0, 20, 5));
}

#[test]
fn narrow_area_gives_whole_area() {
    let r = box_rect(Rect::new(4, 4, 10, 3), &pct(20, 20));
    assert_eq!(r, Rect::new(4, 4, 10, 3));
}

#[test]
fn empty_area_gives_empty_box_and_one_cell_interior() {
    let r = box_rect(Rect::new(3, 7, 0, 0), &pct(50, 50));
    assert_eq!(r, Rect::new(3, 7, 0, 0));
    let inner = box_inner(Rect::new(3, 7, 0, 0), &pct(50, 50));
    assert_eq!(inner, Rect::new(4, 8, 1, 1));
}

#[test]
fn box_lies_within_area_and_is_centered() {
    let area = Rect::new(13, 5, 157, 61);
    for w in [20u16, 33, 50, 77, 94, 100] {
        for h in [20u16, 41, 92, 100] {
            let r = box_rect(area, &pct(w, h));
            assert!(r.x >= area.x && r.right() <= area.right());
            assert!(r.y >= area.y && r.bottom() <= area.bottom());
            let left = r.x - area.x;
            let right = area.right() - r.right();
            assert!(right == left || right == left + 1);
            let top = r.y - area.y;
            let bottom = area.bottom() - r.bottom();
            assert!(bottom == top || bottom == top + 1);
            let inner = box_inner(area, &pct(w, h));
            assert_eq!(inner, Rect::new(r.x + 1, r.y + 1, r.width - 2, r.height - 2));
        }
    }
}

#[test]
fn full_area_at_100pct_with_offset() {
    let area = Rect::new(9, 4, 37, 13);
    assert_eq!(box_rect(area, &pct(100, 100)), area);
}
