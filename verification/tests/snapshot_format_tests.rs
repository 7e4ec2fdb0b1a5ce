use herdr_floax::geometry::Rect;
use herdr_floax::color::CellColor;
use herdr_floax::snapshot::{
    fits_one_row, pane_chunks, terminal_can_show, pane_input, parse_layout, parse_rect_line, Snapshot, SnapshotLayout,
};

fn lines_of(l: &SnapshotLayout, pane: usize) -> Vec<&[u8]> {
    l.panes[pane].lines.iter().map(|v| v.as_slice()).collect()
}

#[test]
fn rect_line_exact() {
    assert_eq!(parse_rect_line(b"AREA 1 2 3 4", b"AREA "), Some(Rect::new(1, 2, 3, 4)));
    assert_eq!(parse_rect_line(b"PANE 25 1 100 2", b"PANE "), Some(Rect::new(25, 1, 100, 2)));
}

#[test]
fn rect_line_fields_split_on_any_whitespace() {
    assert_eq!(parse_rect_line(b"AREA  1\t2 \t 3   4  ", b"AREA "), Some(Rect::new(1, 2, 3, 4)));
    assert_eq!(parse_rect_line(b"AREA 1 2 3 4\r", b"AREA "), Some(Rect::new(1, 2, 3, 4)));
}

#[test]
fn rect_line_needs_exactly_four_fields_plus_sign_accepted() {
    assert_eq!(parse_rect_line(b"AREA 1 2 3 4 5", b"AREA "), None);
    assert_eq!(parse_rect_line(b"AREA 1 2 3 4 junk", b"AREA "), None);
    assert_eq!(parse_rect_line(b"AREA +1 2 3 +4", b"AREA "), Some(Rect::new(1, 2, 3, 4)));
}

#[test]
fn rect_line_rejects() {
    assert_eq!(parse_rect_line(b"AREA 1 2 3", b"AREA "), None);
    assert_eq!(parse_rect_line(b"AREA 1 2 x 4", b"AREA "), None);
    assert_eq!(parse_rect_line(b"AREA 1 2 3 70000", b"AREA "), None);
    assert_eq!(parse_rect_line(b"AREA 1 2 -3 4", b"AREA "), None);
    assert_eq!(parse_rect_line(b"area 1 2 3 4", b"AREA "), None);
    assert_eq!(parse_rect_line(b"AREA", b"AREA "), None);
    assert_eq!(parse_rect_line(b"AREA 1 2 3 4 \xff", b"AREA "), None);
    assert_eq!(parse_rect_line(b"PANE 1 2 3 4", b"AREA "), None);
}

#[test]
fn rect_line_size_cut_at_u16_range() {
    assert_eq!(parse_rect_line(b"AREA 65535 0 10 1", b"AREA "), Some(Rect::new(65535, 0, 0, 1)));
}

#[test]
fn layout_lines_with_crlf_and_glued_marker() {
    let l = parse_layout(b"AREA 0 0 5 5\r\nPANE 0 0 5 2\r\nab\r\ncdFLOAX_END_PANE\r\n").expect("parses");
    assert_eq!(l.area, Rect::new(0, 0, 5, 5));
    assert_eq!(l.panes.len(), 1);
    assert_eq!(l.panes[0].rect, Rect::new(0, 0, 5, 2));
    assert_eq!(lines_of(&l, 0), vec![&b"ab"[..], &b"cd"[..]]);
}

#[test]
fn layout_marker_alone_adds_no_line() {
    let l = parse_layout(b"AREA 0 0 5 5\nPANE 0 0 5 2\nab\nFLOAX_END_PANE\n").expect("parses");
    assert_eq!(lines_of(&l, 0), vec![&b"ab"[..]]);
}

#[test]
fn layout_pane_without_marker_takes_the_rest() {
    let l = parse_layout(b"AREA 0 0 5 5\nPANE 0 0 5 2\nx\ny\n").expect("parses");
    assert_eq!(l.panes.len(), 1);
    assert_eq!(lines_of(&l, 0), vec![&b"x"[..], &b"y"[..], &b""[..]]);
}

#[test]
fn layout_header_inside_content_is_content() {
    let l = parse_layout(b"AREA 0 0 9 9\nPANE 0 0 9 9\nPANE 1 1 1 1\nFLOAX_END_PANE\n").expect("parses");
    assert_eq!(l.panes.len(), 1);
    assert_eq!(lines_of(&l, 0), vec![&b"PANE 1 1 1 1"[..]]);
}

#[test]
fn layout_junk_between_panes_skipped() {
    let text = b"AREA 0 0 9 9\njunk\nPANE 0 0 9 1\nx\nFLOAX_END_PANE\nmore junk\nPANE 1 2 3 4\nFLOAX_END_PANE";
    let l = parse_layout(text).expect("parses");
    assert_eq!(l.panes.len(), 2);
    assert_eq!(l.panes[1].rect, Rect::new(1, 2, 3, 4));
    assert!(l.panes[1].lines.is_empty());
}

#[test]
fn layout_needs_area_first_and_a_pane() {
    assert!(parse_layout(b"").is_none());
    assert!(parse_layout(b"PANE 0 0 1 1\nAREA 0 0 1 1\n").is_none());
    assert!(parse_layout(b"\nAREA 0 0 1 1\nPANE 0 0 1 1\n").is_none());
    assert!(parse_layout(b"AREA 0 0 1 1\nPANE x\n").is_none());
    assert!(parse_layout(b"AREA 0 0 1 1\nPANE 0 0 1 1").is_some());
}

#[test]
fn chunks_put_crlf_between_lines_only() {
    let none: Vec<Vec<u8>> = Vec::new();
    assert!(pane_chunks(&none).is_empty());
    assert_eq!(pane_chunks(&vec![b"a".to_vec()]), vec![b"a".to_vec()]);
    assert_eq!(
        pane_chunks(&vec![b"a".to_vec(), b"".to_vec(), b"c".to_vec()]),
        vec![b"a".to_vec(), b"\r\n".to_vec(), b"".to_vec(), b"\r\n".to_vec(), b"c".to_vec()]
    );
}

#[test]
fn snapshot_keeps_layout_rects() {
    let text = b"AREA 2 3 40 20\nPANE 2 3 20 20\nleft\nFLOAX_END_PANE\nPANE 23 3 19 20\nright\nFLOAX_END_PANE\n";
    let s = Snapshot::parse(text).expect("parses");
    assert_eq!(s.area, Rect::new(2, 3, 40, 20));
    assert_eq!(s.panes.len(), 2);
    assert_eq!(s.panes[1].rect, Rect::new(23, 3, 19, 20));
    assert_eq!(s.panes[1].screen.cell(0, 4).expect("cell").contents(), "t");
}

#[test]
fn snapshot_empty_pane_rect_gets_one_cell_screen() {
    let s = Snapshot::parse(b"AREA 0 0 1 1\nPANE 0 0 0 0\nz\nFLOAX_END_PANE\n").expect("parses");
    assert_eq!(s.panes[0].rect, Rect::new(0, 0, 0, 0));
    assert_eq!(s.panes[0].screen.size(), (1, 1));
}

#[test]
fn snapshot_last_line_does_not_scroll() {
    let s = Snapshot::parse(b"AREA 0 0 3 2\nPANE 0 0 3 2\nab\ncdFLOAX_END_PANE\n").expect("parses");
    let screen = &s.panes[0].screen;
    assert_eq!(screen.cell(0, 0).expect("cell").contents(), "a");
    assert_eq!(screen.cell(1, 1).expect("cell").contents(), "d");
}

#[test]
fn pane_input_joins_lines_with_crlf() {
    let none: Vec<Vec<u8>> = Vec::new();
    assert!(pane_input(&none).is_empty());
    assert_eq!(pane_input(&vec![b"ab".to_vec()]), b"ab".to_vec());
    assert_eq!(pane_input(&vec![b"ab".to_vec(), b"".to_vec(), b"c".to_vec()]), b"ab\r\n\r\nc".to_vec());
}

#[test]
fn one_row_budget() {
    assert!(fits_one_row(b"", 1));
    assert!(fits_one_row(b"abc", 3));
    assert!(!fits_one_row(b"abcd", 3));
    assert!(fits_one_row(b"abc\r\ndef", 3));
    assert!(fits_one_row(b"\x1b[38;2;10;20;30mX\x1b[0m", 1));
    assert!(fits_one_row(b"\x1b[mab", 2));
    assert!(!fits_one_row(b"\x1b[2Cab", 5)); // cursor movement is not a colour sequence
    assert!(fits_one_row(b"a\tb", 10));
    assert!(!fits_one_row(b"a\tb", 9));
    assert!(fits_one_row("\u{4e2d}".as_bytes(), 3));
    assert!(!fits_one_row("\u{4e2d}".as_bytes(), 2));
    assert!(fits_one_row("\u{e9}t\u{e9}".as_bytes(), 5));
    assert!(!fits_one_row(b"\x1b[31", 9));
}

#[test]
fn terminal_safety_by_size() {
    // Wider and taller than one cell: anything goes but tabs on huge widths.
    assert!(terminal_can_show(2, 2, b"\x1b[5Chello world\t\xff"));
    assert!(!terminal_can_show(2, 65535, b"\x1b[65535C\t"));
    assert!(terminal_can_show(2, 65527, b"\x1b[65535C\t"));
    assert!(terminal_can_show(2, 65535, b"\x1b[65535Cx"));
    // One column: wrapping is fine, double-width characters are not.
    assert!(terminal_can_show(3, 1, b"a long line that wraps"));
    assert!(terminal_can_show(3, 1, "\u{e9}\u{3a9}\u{5d0}".as_bytes()));
    assert!(!terminal_can_show(3, 1, "\u{4e2d}".as_bytes()));
    // One row: nothing may wrap, and the text must be valid UTF-8.
    assert!(terminal_can_show(1, 10, "\u{e9}".as_bytes()));
    assert!(!terminal_can_show(1, 10, b"\xe9"));
    assert!(!terminal_can_show(1, 5, b"hello world"));
    assert!(!terminal_can_show(0, 5, b""));
}

#[test]
fn characters_below_u1000_are_safe_on_one_column() {
    let mut text = b"AREA 0 0 1 2\n".to_vec();
    for cp in 0x80u32..0x1000 {
        if let Some(c) = char::from_u32(cp) {
            text.extend_from_slice(b"PANE 0 0 1 2\n");
            text.extend_from_slice(c.to_string().as_bytes());
            text.extend_from_slice(b"\nFLOAX_END_PANE\n");
        }
    }
    let s = Snapshot::parse_checked(&text).expect("parses");
    assert_eq!(s.panes.len(), 0x1000 - 0x80);
    assert!(s.panes.iter().all(|p| p.screen.size() == (2, 1)));
}

#[test]
fn accepted_narrow_panes() {
    let text = b"AREA 0 0 10 10\nPANE 0 0 10 1\n\xc3\xa9\nFLOAX_END_PANE\nPANE 0 1 1 3\nwrapping text\nFLOAX_END_PANE\n";
    let s = Snapshot::parse_checked(text).expect("parses");
    assert_eq!(s.panes.len(), 2);
    assert_eq!(s.panes[0].screen.cell(0, 0).expect("cell").contents(), "\u{e9}");
    assert_eq!(s.panes[1].screen.size(), (3, 1));
}

#[test]
fn wrapping_content_in_one_row_pane_is_refused() {
    let text = b"AREA 0 0 10 10\nPANE 0 0 5 1\nhello world\nFLOAX_END_PANE\n";
    assert!(parse_layout(text).is_some());
    assert!(Snapshot::parse_checked(text).is_none());
    let text = b"AREA 0 0 10 10\nPANE 0 0 1 4\n\xe4\xb8\xad\nFLOAX_END_PANE\n";
    assert!(Snapshot::parse_checked(text).is_none());
}

#[test]
fn checked_parse_agrees_where_panes_are_emulable() {
    let text = b"AREA 0 0 20 2\nPANE 0 0 20 1\n\x1b[38;2;10;20;30mX\nFLOAX_END_PANE\nPANE 0 1 5 5\nhello world, wrapping\nFLOAX_END_PANE\n";
    let s = Snapshot::parse_checked(text).expect("parses");
    assert_eq!(s.panes.len(), 2);
    assert_eq!(s.panes[0].screen.cell(0, 0).expect("cell").fgcolor(), CellColor::Rgb(10, 20, 30));
    assert_eq!(s.panes[1].screen.size(), (5, 5));
    assert_eq!(s.panes[1].screen.cell(1, 1).expect("cell").contents(), "w");
    assert!(Snapshot::parse_checked(b"garbage").is_none());
}

#[test]
fn one_row_pane_keeps_the_last_line() {
    let s = Snapshot::parse(b"AREA 0 0 9 1\nPANE 0 0 9 1\nfirst\nsecond\nFLOAX_END_PANE\n").expect("parses");
    let screen = &s.panes[0].screen;
    assert_eq!(screen.size(), (1, 9));
    assert_eq!(screen.cell(0, 0).expect("cell").contents(), "s");
}
