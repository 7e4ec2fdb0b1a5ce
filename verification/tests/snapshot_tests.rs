use herdr_floax::color::CellColor;
use herdr_floax::geometry::Rect;
use herdr_floax::snapshot::Snapshot;

#[test]
fn parses_area_and_panes() {
    let text = b"AREA 25 1 207 42\nPANE 25 1 100 2\nhello\nworld\nFLOAX_END_PANE\nPANE 126 1 81 1\nbye\nFLOAX_END_PANE\n";
    let s = Snapshot::parse(text).expect("parses");
    assert_eq!(s.area, Rect::new(25, 1, 207, 42));
    assert_eq!(s.panes.len(), 2);
    assert_eq!(s.panes[0].rect, Rect::new(25, 1, 100, 2));
    let cell = s.panes[0].screen.cell(0, 0).expect("cell");
    assert_eq!(cell.contents(), "h");
    let cell = s.panes[0].screen.cell(1, 0).expect("cell");
    assert_eq!(cell.contents(), "w");
}

#[test]
fn end_marker_glued_to_last_line_still_terminates_pane() {
    // The capture emits no trailing newline, so the end marker lands on the
    // same line as the last row of content.
    let text = b"AREA 0 0 30 5\nPANE 0 0 30 2\nrow one\nrow twoFLOAX_END_PANE\nPANE 0 3 30 1\nnextFLOAX_END_PANE\n";
    let s = Snapshot::parse(text).expect("parses");
    assert_eq!(s.panes.len(), 2);
    assert_eq!(s.panes[0].screen.cell(1, 4).expect("cell").contents(), "t");
    assert_eq!(s.panes[1].screen.cell(0, 0).expect("cell").contents(), "n");
}

#[test]
fn empty_or_garbage_yields_none() {
    assert!(Snapshot::parse(b"").is_none());
    assert!(Snapshot::parse(b"not a snapshot").is_none());
    assert!(Snapshot::parse(b"AREA 0 0 10 10\n").is_none()); // no panes
}

#[test]
fn ansi_colors_survive_parsing() {
    let text = b"AREA 0 0 20 2\nPANE 0 0 20 1\n\x1b[38;2;10;20;30mX\nFLOAX_END_PANE\n";
    let s = Snapshot::parse(text).expect("parses");
    let cell = s.panes[0].screen.cell(0, 0).expect("cell");
    assert_eq!(cell.fgcolor(), CellColor::Rgb(10, 20, 30));
}
