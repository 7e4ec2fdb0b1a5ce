use herdr_floax::color::{CellColor, Paint};
use herdr_floax::config::Config;
use herdr_floax::geometry::Rect;
use herdr_floax::render::{
    backdrop_paint, border_paint, box_bg_paint, chrome_inner, cursor_target, hint_text, render_screen,
    render_snapshot_dimmed, title_text, CellPaint, PaneGrid, ScreenCell, ScreenGrid,
};

fn cell(text: &str) -> ScreenCell {
    ScreenCell {
        contents: text.to_string(),
        fg: CellColor::Default,
        bg: CellColor::Default,
        bold: false,
        italic: false,
        underline: false,
        inverse: false,
        wide: false,
    }
}

fn grid(rows: &[&str]) -> ScreenGrid {
    let cols = rows.iter().map(|r| r.chars().count()).max().unwrap_or(0);
    let cells = rows
        .iter()
        .map(|r| {
            let mut row: Vec<Option<ScreenCell>> = r
                .chars()
                .map(|ch| {
                    let text = if ch == '.' { String::new() } else { ch.to_string() };
                    Some(cell(&text))
                })
                .collect();
            row.resize_with(cols, || None);
            row
        })
        .collect();
    ScreenGrid { rows: rows.len() as u16, cols: cols as u16, cells }
}

fn at(out: &[CellPaint]) -> Vec<(u16, u16, String)> {
    out.iter().map(|p| (p.x, p.y, p.symbol.clone())).collect()
}

#[test]
fn chrome_defaults() {
    let c = Config::default();
    assert_eq!(border_paint(&c), Paint::Magenta);
    assert_eq!(box_bg_paint(&c), Paint::Reset);
    assert_eq!(backdrop_paint(&c), Paint::Rgb(0x0d, 0x2b, 0x1d));
    assert_eq!(title_text(&c), " \u{2302} floax ");
    assert_eq!(hint_text(&c), " prefix+f hides \u{b7} shell persists ");
}

#[test]
fn chrome_configured() {
    let mut c = Config::default();
    c.apply_conf("border=#010203\nbox_bg=#040506\ntitle=work\nkey_hint=C-a f\n");
    assert_eq!(border_paint(&c), Paint::Rgb(1, 2, 3));
    assert_eq!(box_bg_paint(&c), Paint::Rgb(4, 5, 6));
    assert_eq!(title_text(&c), " \u{2302} work ");
    assert_eq!(hint_text(&c), " C-a f hides \u{b7} shell persists ");
}

#[test]
fn cursor_inside_interior() {
    let inner = Rect::new(11, 6, 78, 38);
    assert_eq!(cursor_target(inner, false, 0, 0), Some((11, 6)));
    assert_eq!(cursor_target(inner, false, 37, 77), Some((88, 43)));
}

#[test]
fn cursor_hidden_or_outside() {
    let inner = Rect::new(11, 6, 78, 38);
    assert_eq!(cursor_target(inner, true, 0, 0), None);
    assert_eq!(cursor_target(inner, false, 38, 0), None);
    assert_eq!(cursor_target(inner, false, 0, 78), None);
}

#[test]
fn screen_painted_at_interior_offset() {
    let g = grid(&["ab", "c."]);
    let out = render_screen(&g, Rect::new(5, 7, 10, 10), Rect::new(0, 0, 80, 24), Paint::Magenta);
    assert_eq!(
        at(&out),
        vec![
            (5, 7, "a".to_string()),
            (6, 7, "b".to_string()),
            (5, 8, "c".to_string()),
            (6, 8, " ".to_string()),
        ]
    );
    // A default background becomes the box background; the foreground stays.
    assert!(out.iter().all(|p| p.bg == Paint::Magenta && p.fg == Paint::Reset));
}

#[test]
fn screen_colours_and_modifiers() {
    let mut g = grid(&["x"]);
    g.cells[0][0] = Some(ScreenCell {
        contents: "x".to_string(),
        fg: CellColor::Idx(3),
        bg: CellColor::Rgb(9, 8, 7),
        bold: true,
        italic: false,
        underline: true,
        inverse: true,
        wide: false,
    });
    let out = render_screen(&g, Rect::new(0, 0, 5, 5), Rect::new(0, 0, 5, 5), Paint::Reset);
    assert_eq!(out.len(), 1);
    let p = &out[0];
    assert_eq!((p.fg, p.bg), (Paint::Indexed(3), Paint::Rgb(9, 8, 7)));
    assert_eq!((p.bold, p.italic, p.underlined, p.reversed), (true, false, true, true));
}

#[test]
fn screen_clipped_to_interior_and_buffer() {
    let g = grid(&["abcd", "efgh", "ijkl"]);
    // Interior of 3x2: only the top-left 3x2 of the screen is visited.
    let out = render_screen(&g, Rect::new(0, 0, 3, 2), Rect::new(0, 0, 80, 24), Paint::Reset);
    assert_eq!(out.len(), 6);
    // The buffer covers only columns 1.. and row 0.
    let out = render_screen(&g, Rect::new(0, 0, 3, 2), Rect::new(1, 0, 79, 1), Paint::Reset);
    assert_eq!(at(&out), vec![(1, 0, "b".to_string()), (2, 0, "c".to_string())]);
}

#[test]
fn wide_character_skips_its_second_half() {
    let mut g = grid(&["AxBy"]);
    g.cells[0][0].as_mut().unwrap().wide = true;
    g.cells[0][2].as_mut().unwrap().wide = true;
    g.cells[0][0].as_mut().unwrap().contents = "\u{4e2d}".to_string();
    let out = render_screen(&g, Rect::new(0, 0, 10, 1), Rect::new(0, 0, 10, 1), Paint::Reset);
    assert_eq!(at(&out), vec![(0, 0, "\u{4e2d}".to_string()), (2, 0, "B".to_string())]);
}

#[test]
fn missing_cell_is_skipped_and_does_not_hide_the_next() {
    let mut g = grid(&["ab"]);
    g.cells[0][0] = None;
    let out = render_screen(&g, Rect::new(0, 0, 2, 1), Rect::new(0, 0, 2, 1), Paint::Reset);
    assert_eq!(at(&out), vec![(1, 0, "b".to_string())]);
}

#[test]
fn backdrop_panes_map_through_area_origin() {
    let mut g = grid(&["xy"]);
    g.cells[0][0].as_mut().unwrap().bg = CellColor::Idx(4);
    g.cells[0][0].as_mut().unwrap().bold = true;
    let panes = vec![PaneGrid { rect: Rect::new(30, 4, 2, 1), grid: g }];
    // Captured area starts at (25, 1); the frame area at (0, 0).
    let out = render_snapshot_dimmed(&panes, Rect::new(25, 1, 50, 10), Rect::new(0, 0, 50, 10), Rect::new(0, 0, 50, 10));
    assert_eq!(out.len(), 1);
    assert_eq!(at(&out[0]), vec![(5, 3, "x".to_string()), (6, 3, "y".to_string())]);
    let p = &out[0][0];
    assert_eq!(p.fg, Paint::Rgb(82, 85, 97));
    assert_eq!(p.bg, Paint::Indexed(4));
    assert!(!p.bold && !p.italic && !p.underlined && !p.reversed);
    assert_eq!(out[0][1].bg, Paint::Reset);
}

#[test]
fn backdrop_clipped_to_frame_area() {
    let g = grid(&["abc", "def"]);
    let panes = vec![PaneGrid { rect: Rect::new(0, 0, 3, 2), grid: g }];
    // The pane lies left of and above the captured area's origin by one cell.
    let out = render_snapshot_dimmed(&panes, Rect::new(1, 1, 10, 10), Rect::new(0, 0, 10, 10), Rect::new(0, 0, 10, 10));
    assert_eq!(at(&out[0]), vec![(0, 0, "e".to_string()), (1, 0, "f".to_string())]);
}

#[test]
fn backdrop_pane_rect_limits_the_screen() {
    let g = grid(&["abc", "def"]);
    let empty = grid(&[]);
    let panes = vec![
        PaneGrid { rect: Rect::new(0, 0, 2, 1), grid: g },
        PaneGrid { rect: Rect::new(5, 5, 3, 3), grid: empty },
    ];
    let out = render_snapshot_dimmed(&panes, Rect::new(0, 0, 10, 10), Rect::new(0, 0, 10, 10), Rect::new(0, 0, 10, 10));
    assert_eq!(out.len(), 2);
    assert_eq!(at(&out[0]), vec![(0, 0, "a".to_string()), (1, 0, "b".to_string())]);
    assert!(out[1].is_empty());
}

#[test]
fn chrome_interior_is_one_cell_in() {
    assert_eq!(chrome_inner(Rect::new(10, 5, 80, 40)), Rect::new(11, 6, 78, 38));
    assert_eq!(chrome_inner(Rect::new(0, 0, 2, 2)), Rect::new(1, 1, 0, 0));
    assert_eq!(chrome_inner(Rect::new(4, 4, 0, 0)), Rect::new(4, 4, 0, 0));
    assert_eq!(chrome_inner(Rect::new(3, 3, 1, 5)), Rect::new(4, 4, 0, 3));
}
