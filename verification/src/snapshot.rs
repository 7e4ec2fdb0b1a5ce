//! Workspace snapshot: the panes behind the popup, captured just before the
//! floating pane opens, so the backdrop can show the workspace dimmed instead
//! of a plain fill.
//!
//! The format is a sequence of `\n`-separated lines:
//!
//! ```text
//! AREA <x> <y> <w> <h>          # the tab's pane area, client coordinates
//! PANE <x> <y> <w> <h>          # one per pane, client coordinates
//! <raw ANSI screen lines...>    # the pane's screen contents
//! FLOAX_END_PANE
//! ```
//!
//! The end marker may be glued onto the last content line (the capture has no
//! trailing newline): the text before it is still content. Lines that are
//! neither an `AREA` header at the top nor a `PANE` header are skipped.
use vstd::prelude::*;
use vstd::slice::slice_to_vec;
use vstd::utf8::{decode_utf8, valid_utf8};

use crate::geometry::{area_in_range, lemma_rect_new_in_range, spec_rect_new, Rect};
use crate::color::CellColor;
use crate::render::{grid_wf, GridView, ScreenCell, ScreenGrid};
use vt100::{Color, Parser};
use crate::text::{
    chars_of, lemma_split_last, lemma_split_step, next_token, parse_u16_range, spec_parse_u16,
    split_on, tokens,
};

verus! {

/// `AREA ` in ASCII.
pub open spec fn area_tag() -> Seq<u8> {
    seq![0x41u8, 0x52, 0x45, 0x41, 0x20]
}

/// `PANE ` in ASCII.
pub open spec fn pane_tag() -> Seq<u8> {
    seq![0x50u8, 0x41, 0x4e, 0x45, 0x20]
}

/// `FLOAX_END_PANE` in ASCII.
pub open spec fn end_marker() -> Seq<u8> {
    seq![
        0x46u8, 0x4c, 0x4f, 0x41, 0x58, 0x5f, 0x45, 0x4e, 0x44, 0x5f, 0x50, 0x41, 0x4e, 0x45,
    ]
}

fn area_tag_bytes() -> (v: Vec<u8>)
    ensures
        v@ == area_tag(),
{
    let v = vec![0x41u8, 0x52, 0x45, 0x41, 0x20];
    assert(v@ =~= area_tag());
    v
}

fn pane_tag_bytes() -> (v: Vec<u8>)
    ensures
        v@ == pane_tag(),
{
    let v = vec![0x50u8, 0x41, 0x4e, 0x45, 0x20];
    assert(v@ =~= pane_tag());
    v
}

fn end_marker_bytes() -> (v: Vec<u8>)
    ensures
        v@ == end_marker(),
{
    let v = vec![0x46u8, 0x4c, 0x4f, 0x41, 0x58, 0x5f, 0x45, 0x4e, 0x44, 0x5f, 0x50, 0x41, 0x4e, 0x45];
    assert(v@ =~= end_marker());
    v
}

/// The rectangle that exactly four whitespace-separated fields give, each a
/// `u16` as `str::parse` reads it; `None` when there are not exactly four or
/// one of them does not parse.
pub open spec fn rect_from_fields(t: Seq<Seq<char>>) -> Option<Rect> {
    if t.len() == 4 {
        match (
            spec_parse_u16(t[0]),
            spec_parse_u16(t[1]),
            spec_parse_u16(t[2]),
            spec_parse_u16(t[3]),
        ) {
            (Some(x), Some(y), Some(w), Some(h)) => Some(spec_rect_new(x, y, w, h)),
            _ => None,
        }
    } else {
        None
    }
}

/// `<prefix><x> <y> <w> <h>` as a rectangle: `None` unless the line starts
/// with `prefix`, the rest is valid UTF-8 and it holds exactly four numbers.
pub open spec fn spec_rect_line(line: Seq<u8>, prefix: Seq<u8>) -> Option<Rect> {
    if prefix.len() <= line.len() && line.take(prefix.len() as int) == prefix {
        let rest = line.skip(prefix.len() as int);
        if valid_utf8(rest) {
            rect_from_fields(tokens(decode_utf8(rest)))
        } else {
            None
        }
    } else {
        None
    }
}

/// A line without one trailing carriage return.
pub open spec fn strip_cr(l: Seq<u8>) -> Seq<u8> {
    if l.len() > 0 && l.last() == 0x0du8 {
        l.drop_last()
    } else {
        l
    }
}

/// The line (carriage return removed) ends with the end marker.
pub open spec fn is_end_line(raw: Seq<u8>) -> bool {
    let c = strip_cr(raw);
    c.len() >= 14 && c.skip(c.len() - 14) == end_marker()
}

/// The content of a pane line: carriage return and end marker removed.
pub open spec fn line_body(raw: Seq<u8>) -> Seq<u8> {
    let c = strip_cr(raw);
    if is_end_line(raw) {
        c.take(c.len() - 14)
    } else {
        c
    }
}

/// Index of the first end line in `ls`, or `ls.len()`.
pub open spec fn first_end(ls: Seq<Seq<u8>>) -> int
    decreases ls.len(),
{
    if ls.len() == 0 {
        0
    } else if is_end_line(ls[0]) {
        0
    } else {
        1 + first_end(ls.drop_first())
    }
}

/// How many lines after its header a pane takes: up to and including its end
/// line, or all that are left when none comes.
pub open spec fn pane_extent(body: Seq<Seq<u8>>) -> int {
    let e = first_end(body);
    if 0 <= e < body.len() {
        e + 1
    } else {
        body.len() as int
    }
}

/// The contents of a pane's lines that reach its screen: every line's body,
/// except an end line that holds nothing but the marker.
pub open spec fn kept_lines(ls: Seq<Seq<u8>>) -> Seq<Seq<u8>>
    decreases ls.len(),
{
    if ls.len() == 0 {
        seq![]
    } else {
        let rest = kept_lines(ls.drop_first());
        if is_end_line(ls[0]) && line_body(ls[0]).len() == 0 {
            rest
        } else {
            seq![line_body(ls[0])] + rest
        }
    }
}

/// One pane as the format gives it: its rectangle and its content lines.
pub struct PaneLayoutView {
    pub rect: Rect,
    pub lines: Seq<Seq<u8>>,
}

/// A snapshot as the format gives it.
pub struct LayoutView {
    pub area: Rect,
    pub panes: Seq<PaneLayoutView>,
}

/// The panes that the lines after the `AREA` line describe, in order.
pub open spec fn scan_panes(rest: Seq<Seq<u8>>) -> Seq<PaneLayoutView>
    decreases rest.len(),
{
    if rest.len() == 0 {
        seq![]
    } else {
        match spec_rect_line(rest[0], pane_tag()) {
            None => scan_panes(rest.drop_first()),
            Some(rect) => {
                let body = rest.drop_first();
                let n = pane_extent(body);
                if 0 <= n <= body.len() {
                    seq![PaneLayoutView { rect, lines: kept_lines(body.take(n)) }] + scan_panes(
                        body.skip(n),
                    )
                } else {
                    seq![]
                }
            },
        }
    }
}

/// What a snapshot text describes: `None` unless the first line is an `AREA`
/// line and at least one pane follows.
pub open spec fn spec_parse_layout(bytes: Seq<u8>) -> Option<LayoutView> {
    let lines = split_on(bytes, 0x0au8);
    match spec_rect_line(lines[0], area_tag()) {
        None => None,
        Some(area) => {
            let panes = scan_panes(lines.drop_first());
            if panes.len() == 0 {
                None
            } else {
                Some(LayoutView { area, panes })
            }
        },
    }
}

/// One pane of a snapshot before its screen is emulated.
pub struct PaneLayout {
    /// Pane content rect in client coordinates.
    pub rect: Rect,
    /// The content lines, each to be shown on its own screen row.
    pub lines: Vec<Vec<u8>>,
}

/// A snapshot before the panes' screens are emulated.
pub struct SnapshotLayout {
    /// The tab's pane area in client coordinates (AREA line).
    pub area: Rect,
    pub panes: Vec<PaneLayout>,
}

/// The view of a pane's lines.
pub open spec fn lines_view(lines: Seq<Vec<u8>>) -> Seq<Seq<u8>> {
    lines.map_values(|l: Vec<u8>| l@)
}

/// The view of a pane.
pub open spec fn pane_layout_view(p: PaneLayout) -> PaneLayoutView {
    PaneLayoutView { rect: p.rect, lines: lines_view(p.lines@) }
}

/// The view of a list of panes.
pub open spec fn panes_view(panes: Seq<PaneLayout>) -> Seq<PaneLayoutView> {
    panes.map_values(|p: PaneLayout| pane_layout_view(p))
}

/// The view of an optional layout.
pub open spec fn layout_view(r: Option<SnapshotLayout>) -> Option<LayoutView> {
    match r {
        Some(l) => Some(LayoutView { area: l.area, panes: panes_view(l.panes@) }),
        None => None,
    }
}

/// `std::str::from_utf8`: the text that valid UTF-8 bytes encode.
#[verifier::external_body]
fn utf8_str(bytes: &[u8]) -> (r: Option<&str>)
    ensures
        r is Some <==> valid_utf8(bytes@),
        r matches Some(s) ==> s@ == decode_utf8(bytes@),
{
    std::str::from_utf8(bytes).ok()
}

/// Whether `line` starts with `prefix`.
fn has_prefix(line: &[u8], prefix: &[u8]) -> (r: bool)
    ensures
        r == (prefix@.len() <= line@.len() && line@.take(prefix@.len() as int) == prefix@),
{
    if prefix.len() > line.len() {
        return false;
    }
    let mut i: usize = 0;
    while i < prefix.len()
        invariant
            prefix@.len() <= line@.len(),
            i <= prefix@.len(),
            forall|j: int| 0 <= j < i ==> line@[j] == prefix@[j],
        decreases prefix@.len() - i,
    {
        if line[i] != prefix[i] {
            assert(line@.take(prefix@.len() as int)[i as int] != prefix@[i as int]);
            return false;
        }
        i = i + 1;
    }
    assert(line@.take(prefix@.len() as int) =~= prefix@);
    true
}

/// Parse `<prefix><x> <y> <w> <h>` into a Rect; None on any mismatch.
pub fn parse_rect_line(line: &[u8], prefix: &[u8]) -> (r: Option<Rect>)
    ensures
        r == spec_rect_line(line@, prefix@),
{
    if !has_prefix(line, prefix) {
        return None;
    }
    let rest = &line[prefix.len()..line.len()];
    assert(rest@ =~= line@.skip(prefix@.len() as int));
    let text = match utf8_str(rest) {
        Some(t) => t,
        None => {
            return None;
        },
    };
    let cs = chars_of(text);
    assert(cs@.skip(0) =~= cs@);
    let (a0, b0) = match next_token(&cs, 0) {
        Some(t) => t,
        None => {
            return None;
        },
    };
    let (a1, b1) = match next_token(&cs, b0) {
        Some(t) => t,
        None => {
            return None;
        },
    };
    let (a2, b2) = match next_token(&cs, b1) {
        Some(t) => t,
        None => {
            return None;
        },
    };
    let (a3, b3) = match next_token(&cs, b2) {
        Some(t) => t,
        None => {
            return None;
        },
    };
    if next_token(&cs, b3).is_some() {
        return None;
    }
    proof {
        let t = tokens(cs@);
        assert(t.len() == 4);
        assert(t[0] == cs@.subrange(a0 as int, b0 as int));
        assert(t[1] == cs@.subrange(a1 as int, b1 as int));
        assert(t[2] == cs@.subrange(a2 as int, b2 as int));
        assert(t[3] == cs@.subrange(a3 as int, b3 as int));
    }
    let x = match parse_u16_range(&cs, a0, b0) {
        Some(n) => n,
        None => {
            return None;
        },
    };
    let y = match parse_u16_range(&cs, a1, b1) {
        Some(n) => n,
        None => {
            return None;
        },
    };
    let w = match parse_u16_range(&cs, a2, b2) {
        Some(n) => n,
        None => {
            return None;
        },
    };
    let h = match parse_u16_range(&cs, a3, b3) {
        Some(n) => n,
        None => {
            return None;
        },
    };
    Some(Rect::new(x, y, w, h))
}

/// Index of the first `x` in `b[lo..hi]`, or `hi`.
fn find_byte(b: &[u8], lo: usize, hi: usize, x: u8) -> (k: usize)
    requires
        lo <= hi <= b@.len(),
    ensures
        lo <= k <= hi,
        forall|i: int| lo <= i < k ==> b@[i] != x,
        k < hi ==> b@[k as int] == x,
{
    let mut k = lo;
    while k < hi && b[k] != x
        invariant
            lo <= k <= hi <= b@.len(),
            forall|i: int| lo <= i < k ==> b@[i] != x,
        decreases hi - k,
    {
        k = k + 1;
    }
    k
}

/// The bounds of the `\n`-separated lines of `bytes`, as `split` gives them.
fn line_bounds(bytes: &[u8]) -> (v: Vec<(usize, usize)>)
    ensures
        v@.len() == split_on(bytes@, 0x0au8).len(),
        v@.len() >= 1,
        forall|i: int| 0 <= i < v@.len() ==> (#[trigger] v@[i]).0 <= v@[i].1 <= bytes@.len(),
        forall|i: int|
            0 <= i < v@.len() ==> bytes@.subrange(v@[i].0 as int, v@[i].1 as int)
                == #[trigger] split_on(bytes@, 0x0au8)[i],
{
    let n = bytes.len();
    let mut v: Vec<(usize, usize)> = Vec::new();
    let ghost mut found: Seq<Seq<u8>> = Seq::empty();
    let mut start: usize = 0;
    assert(bytes@.skip(0) =~= bytes@);
    loop
        invariant
            start <= n == bytes@.len(),
            found.len() == v@.len(),
            forall|i: int| 0 <= i < v@.len() ==> (#[trigger] v@[i]).0 <= v@[i].1 <= n,
            forall|i: int|
                0 <= i < v@.len() ==> bytes@.subrange(v@[i].0 as int, v@[i].1 as int)
                    == #[trigger] found[i],
            split_on(bytes@, 0x0au8) == found + split_on(bytes@.skip(start as int), 0x0au8),
        decreases n - start,
    {
        let j = find_byte(bytes, start, n, 0x0a);
        let ghost rest = bytes@.skip(start as int);
        proof {
            assert forall|i: int| 0 <= i < j - start implies rest[i] != 0x0au8 by {
                assert(rest[i] == bytes@[start + i]);
            }
        }
        let ghost old_v = v@;
        v.push((start, j));
        if j == n {
            proof {
                assert(rest =~= bytes@.subrange(start as int, j as int));
                lemma_split_last(rest, 0x0au8);
                let f2 = found.push(rest);
                assert(split_on(bytes@, 0x0au8) =~= f2);
                assert forall|i: int| 0 <= i < v@.len() implies bytes@.subrange(
                    v@[i].0 as int,
                    v@[i].1 as int,
                ) == #[trigger] split_on(bytes@, 0x0au8)[i] by {
                    if i < old_v.len() {
                        assert(v@[i] == old_v[i]);
                        assert(f2[i] == found[i]);
                    }
                }
            }
            return v;
        }
        proof {
            let k = j - start;
            assert(rest[k] == bytes@[j as int]);
            lemma_split_step(rest, 0x0au8, k);
            assert(rest.take(k) =~= bytes@.subrange(start as int, j as int));
            assert(rest.skip(k + 1) =~= bytes@.skip(j + 1));
            let f2 = found.push(rest.take(k));
            assert(found + (seq![rest.take(k)] + split_on(rest.skip(k + 1), 0x0au8)) =~= f2
                + split_on(rest.skip(k + 1), 0x0au8));
            assert forall|i: int| 0 <= i < v@.len() implies bytes@.subrange(
                v@[i].0 as int,
                v@[i].1 as int,
            ) == #[trigger] f2[i] by {
                if i < old_v.len() {
                    assert(v@[i] == old_v[i]);
                    assert(f2[i] == found[i]);
                }
            }
            found = f2;
        }
        start = j + 1;
    }
}

/// Whether `bytes[s..c]` ends with the end marker.
fn ends_with_marker(bytes: &[u8], s: usize, c: usize) -> (r: bool)
    requires
        s <= c <= bytes@.len(),
    ensures
        r == ({
            let cs = bytes@.subrange(s as int, c as int);
            cs.len() >= 14 && cs.skip(cs.len() - 14) == end_marker()
        }),
{
    let ghost cs = bytes@.subrange(s as int, c as int);
    if c - s < 14 {
        return false;
    }
    let marker = end_marker_bytes();
    let mut i: usize = 0;
    while i < 14
        invariant
            s + 14 <= c <= bytes@.len(),
            cs == bytes@.subrange(s as int, c as int),
            marker@ == end_marker(),
            i <= 14,
            forall|j: int| 0 <= j < i ==> bytes@[c - 14 + j] == marker@[j],
        decreases 14 - i,
    {
        if bytes[c - 14 + i] != marker[i] {
            assert(cs.skip(cs.len() - 14)[i as int] == bytes@[c - 14 + i]);
            return false;
        }
        i = i + 1;
    }
    assert forall|j: int| 0 <= j < 14 implies cs.skip(cs.len() - 14)[j] == end_marker()[j] by {
        assert(cs.skip(cs.len() - 14)[j] == bytes@[c - 14 + j]);
    }
    assert(cs.skip(cs.len() - 14) =~= end_marker());
    true
}

/// The content range of the line `bytes[s..e]` and whether it is an end line.
fn body_of(bytes: &[u8], s: usize, e: usize) -> (r: (usize, usize, bool))
    requires
        s <= e <= bytes@.len(),
    ensures
        s <= r.0 <= r.1 <= e,
        bytes@.subrange(r.0 as int, r.1 as int) == line_body(bytes@.subrange(s as int, e as int)),
        r.2 == is_end_line(bytes@.subrange(s as int, e as int)),
{
    let ghost raw = bytes@.subrange(s as int, e as int);
    let c = if e > s && bytes[e - 1] == 0x0d {
        e - 1
    } else {
        e
    };
    assert(strip_cr(raw) =~= bytes@.subrange(s as int, c as int));
    let is_end = ends_with_marker(bytes, s, c);
    if is_end {
        assert(bytes@.subrange(s as int, c as int).take(c - s - 14) =~= bytes@.subrange(
            s as int,
            c - 14,
        ));
        (s, c - 14, true)
    } else {
        (s, c, false)
    }
}

/// `first_end` is characterised by its position.
proof fn lemma_first_end(ls: Seq<Seq<u8>>, k: int)
    requires
        0 <= k <= ls.len(),
        forall|i: int| 0 <= i < k ==> !is_end_line(ls[i]),
        k == ls.len() || is_end_line(ls[k]),
    ensures
        first_end(ls) == k,
    decreases k,
{
    if k > 0 {
        let t = ls.drop_first();
        assert forall|i: int| 0 <= i < k - 1 implies !is_end_line(t[i]) by {
            assert(t[i] == ls[i + 1]);
        }
        if k < ls.len() {
            assert(t[k - 1] == ls[k]);
        }
        lemma_first_end(t, k - 1);
    }
}

/// With no end line among the first `m`, the first end line comes at `m` or later.
proof fn lemma_first_end_at_least(ls: Seq<Seq<u8>>, m: int)
    requires
        0 <= m <= ls.len(),
        forall|i: int| 0 <= i < m ==> !is_end_line(ls[i]),
    ensures
        m <= first_end(ls) <= ls.len(),
    decreases ls.len(),
{
    if ls.len() > 0 && !is_end_line(ls[0]) {
        let t = ls.drop_first();
        if m > 0 {
            assert forall|i: int| 0 <= i < m - 1 implies !is_end_line(t[i]) by {
                assert(t[i] == ls[i + 1]);
            }
            lemma_first_end_at_least(t, m - 1);
        } else {
            lemma_first_end_at_least(t, 0);
        }
    }
}

/// Parse the snapshot format into its area and the panes' rectangles and
/// content lines.
pub fn parse_layout(bytes: &[u8]) -> (r: Option<SnapshotLayout>)
    ensures
        layout_view(r) == spec_parse_layout(bytes@),
{
    let lb = line_bounds(bytes);
    let ghost ls = split_on(bytes@, 0x0au8);
    let atag = area_tag_bytes();
    let ptag = pane_tag_bytes();
    let (s0, e0) = lb[0];
    assert(bytes@.subrange(s0 as int, e0 as int) == ls[0]);
    let area = match parse_rect_line(&bytes[s0..e0], atag.as_slice()) {
        Some(a) => a,
        None => {
            return None;
        },
    };
    let mut panes: Vec<PaneLayout> = Vec::new();
    let mut i: usize = 1;
    assert(ls.skip(1) =~= ls.drop_first());
    while i < lb.len()
        invariant
            1 <= i <= lb@.len(),
            lb@.len() == ls.len(),
            ls == split_on(bytes@, 0x0au8),
            ptag@ == pane_tag(),
            forall|k: int| 0 <= k < lb@.len() ==> (#[trigger] lb@[k]).0 <= lb@[k].1 <= bytes@.len(),
            forall|k: int|
                0 <= k < lb@.len() ==> bytes@.subrange(lb@[k].0 as int, lb@[k].1 as int)
                    == #[trigger] ls[k],
            scan_panes(ls.drop_first()) == panes_view(panes@) + scan_panes(ls.skip(i as int)),
        decreases lb@.len() - i,
    {
        let (s, e) = lb[i];
        let ghost rest = ls.skip(i as int);
        assert(rest[0] == ls[i as int]);
        assert(rest.drop_first() =~= ls.skip(i + 1));
        i = i + 1;
        match parse_rect_line(&bytes[s..e], ptag.as_slice()) {
            None => {},
            Some(rect) => {
                let i0 = i;
                let ghost body = ls.skip(i0 as int);
                let ghost n = pane_extent(body);
                let ghost x = body.take(n);
                let mut lines: Vec<Vec<u8>> = Vec::new();
                let mut done = false;
                proof {
                    lemma_first_end_at_least(body, 0);
                    assert(x.skip(0) =~= x);
                    assert(lines_view(lines@) =~= Seq::<Seq<u8>>::empty());
                }
                while i < lb.len() && !done
                    invariant
                        i0 <= i <= lb@.len(),
                        lb@.len() == ls.len(),
                        body == ls.skip(i0 as int),
                        n == pane_extent(body),
                        x == body.take(n),
                        0 <= i - i0 <= n <= body.len(),
                        forall|k: int|
                            0 <= k < lb@.len() ==> (#[trigger] lb@[k]).0 <= lb@[k].1
                                <= bytes@.len(),
                        forall|k: int|
                            0 <= k < lb@.len() ==> bytes@.subrange(
                                lb@[k].0 as int,
                                lb@[k].1 as int,
                            ) == #[trigger] ls[k],
                        !done ==> forall|k: int| i0 <= k < i ==> !is_end_line(#[trigger] ls[k]),
                        done ==> i - i0 == n,
                        kept_lines(x) == lines_view(lines@) + kept_lines(x.skip(i - i0)),
                    decreases lb@.len() - i,
                {
                    let (s2, e2) = lb[i];
                    let ghost j = i - i0;
                    proof {
                        assert forall|k: int| 0 <= k < j implies !is_end_line(body[k]) by {
                            assert(body[k] == ls[i0 + k]);
                        }
                        lemma_first_end_at_least(body, j);
                        assert(body[j] == ls[i as int]);
                    }
                    let (bs, be, is_end) = body_of(bytes, s2, e2);
                    proof {
                        if is_end {
                            lemma_first_end(body, j);
                        }
                        assert(j < n);
                        let xs = x.skip(j);
                        assert(xs[0] == ls[i as int]);
                        assert(xs.drop_first() =~= x.skip(j + 1));
                    }
                    let ghost before = lines_view(lines@);
                    if !(is_end && bs == be) {
                        let piece = slice_to_vec(&bytes[bs..be]);
                        lines.push(piece);
                        proof {
                            assert(lines_view(lines@) =~= before.push(piece@));
                        }
                    }
                    i = i + 1;
                    if is_end {
                        done = true;
                        proof {
                            assert(x.skip(i - i0) =~= Seq::<Seq<u8>>::empty());
                        }
                    }
                }
                proof {
                    if !done {
                        assert forall|k: int| 0 <= k < body.len() implies !is_end_line(
                            body[k],
                        ) by {
                            assert(body[k] == ls[i0 + k]);
                        }
                        lemma_first_end(body, body.len() as int);
                        assert(x.skip(i - i0) =~= Seq::<Seq<u8>>::empty());
                    }
                    assert(body.skip(n) =~= ls.skip(i as int));
                }
                let ghost before = panes_view(panes@);
                let pane = PaneLayout { rect, lines };
                panes.push(pane);
                proof {
                    assert(panes_view(panes@) =~= before.push(pane_layout_view(pane)));
                    assert(pane_layout_view(pane) == PaneLayoutView {
                        rect,
                        lines: kept_lines(x),
                    });
                }
            },
        }
    }
    assert(ls.skip(i as int) =~= Seq::<Seq<u8>>::empty());
    if panes.len() == 0 {
        None
    } else {
        Some(SnapshotLayout { area, panes })
    }
}

/// Every rectangle that a header line gives is within range.
pub proof fn lemma_rect_line_in_range(line: Seq<u8>, prefix: Seq<u8>)
    ensures
        spec_rect_line(line, prefix) matches Some(r) ==> area_in_range(r),
{
    if let Some(r) = spec_rect_line(line, prefix) {
        let t = tokens(decode_utf8(line.skip(prefix.len() as int)));
        lemma_rect_new_in_range(
            spec_parse_u16(t[0]).unwrap(),
            spec_parse_u16(t[1]).unwrap(),
            spec_parse_u16(t[2]).unwrap(),
            spec_parse_u16(t[3]).unwrap(),
        );
    }
}

/// A content line loses one trailing carriage return and nothing else, unless
/// it ends with the end marker.
pub proof fn lemma_content_line_drops_cr(text: Seq<u8>)
    requires
        !(text.len() >= 14 && text.skip(text.len() - 14) == seq![
            0x46u8, 0x4c, 0x4f, 0x41, 0x58, 0x5f, 0x45, 0x4e, 0x44, 0x5f, 0x50, 0x41, 0x4e, 0x45,
        ]),
    ensures
        !is_end_line(text + seq![0x0du8]),
        line_body(text + seq![0x0du8]) == text,
        text.len() == 0 || text.last() != 0x0du8 ==> line_body(text) == text,
{
    let l = text + seq![0x0du8];
    assert(l.drop_last() =~= text);
    assert(end_marker() =~= seq![
        0x46u8, 0x4c, 0x4f, 0x41, 0x58, 0x5f, 0x45, 0x4e, 0x44, 0x5f, 0x50, 0x41, 0x4e, 0x45,
    ]);
}

/// A header line gives its rectangle from exactly four fields after the
/// prefix, read as `u16` numbers in the order x, y, width, height; the width
/// and height are cut so that the right and bottom edges stay within `u16`.
/// Where the prefix, valid UTF-8, four fields and four numbers are all there,
/// the line gives a rectangle.
pub proof fn lemma_rect_line_fields(line: Seq<u8>, prefix: Seq<u8>)
    ensures
        spec_rect_line(line, prefix) matches Some(r) ==> {
            let t = tokens(decode_utf8(line.skip(prefix.len() as int)));
            &&& prefix.len() <= line.len()
            &&& line.take(prefix.len() as int) == prefix
            &&& valid_utf8(line.skip(prefix.len() as int))
            &&& t.len() == 4
            &&& spec_parse_u16(t[0]) == Some(r.x)
            &&& spec_parse_u16(t[1]) == Some(r.y)
            &&& r.width == (if spec_parse_u16(t[2]).unwrap() + r.x > u16::MAX {
                u16::MAX - r.x
            } else {
                spec_parse_u16(t[2]).unwrap() as int
            })
            &&& r.height == (if spec_parse_u16(t[3]).unwrap() + r.y > u16::MAX {
                u16::MAX - r.y
            } else {
                spec_parse_u16(t[3]).unwrap() as int
            })
        },
        ({
            let t = tokens(decode_utf8(line.skip(prefix.len() as int)));
            prefix.len() <= line.len() && line.take(prefix.len() as int) == prefix && valid_utf8(
                line.skip(prefix.len() as int),
            ) && t.len() == 4 && spec_parse_u16(t[0]) is Some && spec_parse_u16(t[1]) is Some
                && spec_parse_u16(t[2]) is Some && spec_parse_u16(t[3]) is Some
        }) ==> spec_rect_line(line, prefix) is Some,
{
}

/// The panes that the lines describe all have rectangles within range.
proof fn lemma_scan_panes_in_range(rest: Seq<Seq<u8>>)
    ensures
        forall|i: int|
            0 <= i < scan_panes(rest).len() ==> area_in_range(#[trigger] scan_panes(rest)[i].rect),
    decreases rest.len(),
{
    if rest.len() > 0 {
        lemma_rect_line_in_range(rest[0], pane_tag());
        match spec_rect_line(rest[0], pane_tag()) {
            None => {
                lemma_scan_panes_in_range(rest.drop_first());
                assert(scan_panes(rest) == scan_panes(rest.drop_first()));
            },
            Some(rect) => {
                let body = rest.drop_first();
                let n = pane_extent(body);
                if 0 <= n <= body.len() {
                    lemma_scan_panes_in_range(body.skip(n));
                    let tail = scan_panes(body.skip(n));
                    let head = seq![PaneLayoutView { rect, lines: kept_lines(body.take(n)) }];
                    assert(scan_panes(rest) == head + tail);
                    assert forall|i: int| 0 <= i < (head + tail).len() implies area_in_range(
                        #[trigger] (head + tail)[i].rect,
                    ) by {
                        if i > 0 {
                            assert((head + tail)[i] == tail[i - 1]);
                        }
                    }
                }
            },
        }
    }
}

/// A snapshot that parses has an area and pane rectangles within the `u16`
/// range, and at least one pane.
pub proof fn lemma_parsed_snapshot_well_formed(bytes: Seq<u8>)
    ensures
        spec_parse_layout(bytes) matches Some(l) ==> {
            &&& area_in_range(l.area)
            &&& l.panes.len() > 0
            &&& forall|i: int| 0 <= i < l.panes.len() ==> area_in_range(#[trigger] l.panes[i].rect)
        },
{
    let lines = split_on(bytes, 0x0au8);
    lemma_rect_line_in_range(lines[0], area_tag());
    lemma_scan_panes_in_range(lines.drop_first());
}

/// `\r\n`.
pub open spec fn crlf() -> Seq<u8> {
    seq![0x0du8, 0x0a]
}

/// A pane's lines as fed to its terminal: `\r\n` between lines and none after
/// the last, so that the last line does not scroll the first out of view.
pub open spec fn spec_pane_chunks(lines: Seq<Seq<u8>>) -> Seq<Seq<u8>>
    decreases lines.len(),
{
    if lines.len() == 0 {
        seq![]
    } else if lines.len() == 1 {
        seq![lines[0]]
    } else {
        spec_pane_chunks(lines.drop_last()) + seq![crlf(), lines.last()]
    }
}

/// The pieces fed to a pane's terminal, in order: its lines with `\r\n`
/// between them.
pub fn pane_chunks(lines: &Vec<Vec<u8>>) -> (out: Vec<Vec<u8>>)
    ensures
        lines_view(out@) == spec_pane_chunks(lines_view(lines@)),
{
    let mut out: Vec<Vec<u8>> = Vec::new();
    let mut j: usize = 0;
    while j < lines.len()
        invariant
            j <= lines@.len(),
            lines_view(out@) == spec_pane_chunks(lines_view(lines@).take(j as int)),
        decreases lines@.len() - j,
    {
        let ghost before = lines_view(out@);
        let ghost ls = lines_view(lines@);
        assert(ls.take(j + 1).drop_last() =~= ls.take(j as int));
        assert(ls.take(j + 1).last() == lines@[j as int]@);
        if j > 0 {
            let sep = vec![0x0du8, 0x0a];
            assert(sep@ =~= crlf());
            out.push(sep);
        }
        out.push(lines[j].clone());
        proof {
            if j > 0 {
                assert(lines_view(out@) =~= before + seq![crlf(), lines@[j as int]@]);
            } else {
                assert(ls.take(1) =~= seq![ls[0]]);
                assert(lines_view(out@) =~= seq![lines@[0]@]);
            }
        }
        j = j + 1;
    }
    assert(lines_view(lines@).take(lines@.len() as int) =~= lines_view(lines@));
    out
}

/// The pieces fed to a pane's terminal alternate: line 0, `\r\n`, line 1, ...,
/// the last line; so `\r\n` stands between lines and never after the last.
pub proof fn lemma_chunks_between_lines(lines: Seq<Seq<u8>>)
    ensures
        lines.len() == 0 ==> spec_pane_chunks(lines).len() == 0,
        lines.len() > 0 ==> spec_pane_chunks(lines).len() == 2 * lines.len() - 1,
        forall|i: int| 0 <= i < lines.len() ==> #[trigger] spec_pane_chunks(lines)[2 * i] == lines[i],
        forall|i: int|
            0 <= i < lines.len() - 1 ==> #[trigger] spec_pane_chunks(lines)[2 * i + 1] == seq![
                0x0du8,
                0x0au8,
            ],
    decreases lines.len(),
{
    if lines.len() > 1 {
        let init = lines.drop_last();
        lemma_chunks_between_lines(init);
        let c = spec_pane_chunks(init);
        assert(spec_pane_chunks(lines) == c + seq![crlf(), lines.last()]);
        assert forall|i: int| 0 <= i < lines.len() implies #[trigger] spec_pane_chunks(lines)[2
            * i] == lines[i] by {
            if i < init.len() {
                assert(c[2 * i] == init[i]);
            }
        }
        assert forall|i: int| 0 <= i < lines.len() - 1 implies #[trigger] spec_pane_chunks(
            lines,
        )[2 * i + 1] == crlf() by {
            if i < init.len() - 1 {
                assert(c[2 * i + 1] == crlf());
            }
        }
    }
}

/// A content line with the end marker glued to its end (a carriage return
/// after it or not) ends the pane, and its content is the text before the
/// marker.
pub proof fn lemma_glued_marker_ends_pane(text: Seq<u8>)
    ensures
        is_end_line(text + end_marker()),
        line_body(text + end_marker()) == text,
        is_end_line(text + end_marker() + seq![0x0du8]),
        line_body(text + end_marker() + seq![0x0du8]) == text,
{
    let l = text + end_marker();
    assert(l.len() > 0 && l.last() != 0x0du8);
    assert(strip_cr(l) == l);
    assert(l.skip(l.len() - 14) =~= end_marker());
    assert(l.take(l.len() - 14) =~= text);
    let lc = l + seq![0x0du8];
    assert(lc.drop_last() =~= l);
    assert(strip_cr(lc) == l);
}

/// The bytes fed to a pane's terminal: the chunks of [`spec_pane_chunks`] one
/// after the other.
pub open spec fn concat(chunks: Seq<Seq<u8>>) -> Seq<u8>
    decreases chunks.len(),
{
    if chunks.len() == 0 {
        seq![]
    } else {
        concat(chunks.drop_last()) + chunks.last()
    }
}

/// The input of a pane's terminal: its lines with `\r\n` between them.
pub open spec fn spec_pane_input(lines: Seq<Seq<u8>>) -> Seq<u8> {
    concat(spec_pane_chunks(lines))
}

/// The input of a pane's terminal: its lines with `\r\n` between them.
pub fn pane_input(lines: &Vec<Vec<u8>>) -> (out: Vec<u8>)
    ensures
        out@ == spec_pane_input(lines_view(lines@)),
{
    let chunks = pane_chunks(lines);
    let ghost cs = lines_view(chunks@);
    let mut out: Vec<u8> = Vec::new();
    let mut j: usize = 0;
    while j < chunks.len()
        invariant
            j <= chunks@.len(),
            cs == lines_view(chunks@),
            out@ == concat(cs.take(j as int)),
        decreases chunks@.len() - j,
    {
        let chunk = &chunks[j];
        let ghost before = out@;
        let mut k: usize = 0;
        while k < chunk.len()
            invariant
                k <= chunk@.len(),
                out@ == before + chunk@.take(k as int),
            decreases chunk@.len() - k,
        {
            out.push(chunk[k]);
            assert(chunk@.take(k + 1) =~= chunk@.take(k as int).push(chunk@[k as int]));
            assert(out@ =~= before + chunk@.take(k + 1));
            k = k + 1;
        }
        proof {
            assert(chunk@.take(chunk@.len() as int) =~= chunk@);
            assert(cs.take(j + 1).drop_last() =~= cs.take(j as int));
            assert(cs.take(j + 1).last() == chunk@);
        }
        j = j + 1;
    }
    assert(cs.take(chunks@.len() as int) =~= cs);
    out
}

/// A decimal digit or `;`, the bytes of colour-sequence parameters.
pub open spec fn is_param_byte(b: u8) -> bool {
    (0x30 <= b <= 0x39) || b == 0x3b
}

/// Index just past the parameter bytes of `s` from `i` on.
pub open spec fn param_end(s: Seq<u8>, i: int) -> int
    decreases s.len() - i,
{
    if 0 <= i < s.len() && is_param_byte(s[i]) {
        param_end(s, i + 1)
    } else {
        i
    }
}

/// The length of the colour sequence `ESC [ <digits and ;> m` that `s` starts
/// with, or 0 when it starts with none.
pub open spec fn sgr_len(s: Seq<u8>) -> int {
    if s.len() >= 2 && s[0] == 0x1b && s[1] == 0x5b {
        let e = param_end(s, 2);
        if 2 <= e < s.len() && s[e] == 0x6d {
            e + 1
        } else {
            0
        }
    } else {
        0
    }
}

/// Written from column `col` of a terminal one row high and `cols` wide, `s`
/// never needs a line wrapped: a carriage return goes back to column 0, a tab
/// moves at most 8 columns on, a colour sequence and other control bytes do
/// not move right, and every other byte takes at most one column (a character
/// of several bytes is at most two columns wide); the columns taken never pass
/// `cols`. Escape sequences other than colour sequences are refused, since
/// they can move the cursor anywhere.
pub open spec fn row_budget(s: Seq<u8>, col: int, cols: int) -> bool
    decreases s.len(),
{
    if s.len() == 0 {
        true
    } else if s[0] == 0x0d {
        row_budget(s.drop_first(), 0, cols)
    } else if s[0] == 0x09 {
        col + 8 <= cols && row_budget(s.drop_first(), col + 8, cols)
    } else if s[0] == 0x1b {
        0 < sgr_len(s) <= s.len() && row_budget(s.skip(sgr_len(s)), col, cols)
    } else if s[0] < 0x20 {
        row_budget(s.drop_first(), col, cols)
    } else {
        col < cols && row_budget(s.drop_first(), col + 1, cols)
    }
}

/// The length of the colour sequence at `s[i..]`, or 0.
fn sgr_at(s: &[u8], i: usize) -> (k: usize)
    requires
        i < s@.len(),
    ensures
        k == sgr_len(s@.skip(i as int)),
        k <= s@.len() - i,
{
    let ghost t = s@.skip(i as int);
    if !(s.len() - i > 1 && s[i] == 0x1b && s[i + 1] == 0x5b) {
        return 0;
    }
    let mut j = i + 2;
    while j < s.len() && ((0x30 <= s[j] && s[j] <= 0x39) || s[j] == 0x3b)
        invariant
            i + 2 <= j <= s@.len(),
            t == s@.skip(i as int),
            param_end(t, 2) == param_end(t, j - i),
        decreases s@.len() - j,
    {
        assert(t[j - i] == s@[j as int]);
        j = j + 1;
    }
    assert(j < s@.len() ==> t[j - i] == s@[j as int]);
    if j < s.len() && s[j] == 0x6d {
        j - i + 1
    } else {
        0
    }
}

/// Whether `s`, written from column 0 of a terminal one row high and `cols`
/// wide, stays within [`row_budget`].
pub fn fits_one_row(s: &[u8], cols: u16) -> (b: bool)
    ensures
        b == row_budget(s@, 0, cols as int),
{
    let mut i: usize = 0;
    let mut col: u32 = 0;
    assert(s@.skip(0) =~= s@);
    while i < s.len()
        invariant
            i <= s@.len(),
            col <= cols,
            row_budget(s@, 0, cols as int) == row_budget(s@.skip(i as int), col as int, cols as int),
        decreases s@.len() - i,
    {
        let ghost t = s@.skip(i as int);
        assert(t[0] == s@[i as int]);
        assert(t.drop_first() =~= s@.skip(i + 1));
        let b = s[i];
        if b == 0x0d {
            col = 0;
            i = i + 1;
        } else if b == 0x09 {
            if col + 8 > cols as u32 {
                return false;
            }
            col = col + 8;
            i = i + 1;
        } else if b == 0x1b {
            let k = sgr_at(s, i);
            if k == 0 {
                return false;
            }
            assert(t.skip(k as int) =~= s@.skip(i + k));
            i = i + k;
        } else if b < 0x20 {
            i = i + 1;
        } else {
            if col >= cols as u32 {
                return false;
            }
            col = col + 1;
            i = i + 1;
        }
    }
    assert(s@.skip(i as int) =~= Seq::<u8>::empty());
    true
}

/// Every byte of `s` is below `0xE1`, so no character of `s` lies at U+1000
/// or above, where the double-width characters begin (the first is U+1100); a
/// byte that breaks a UTF-8 sequence is shown as U+FFFD, one column wide.
pub open spec fn narrow_chars(s: Seq<u8>) -> bool {
    forall|i: int| 0 <= i < s.len() ==> s[i] < 0xe1
}

/// `s` holds no tab.
pub open spec fn no_tab(s: Seq<u8>) -> bool {
    forall|i: int| 0 <= i < s.len() ==> s[i] != 0x09
}

/// vt100 0.15.2 shows `input` on a terminal of `rows` by `cols` cells without
/// failing: on a terminal one row high, the input is valid UTF-8 and stays
/// within [`row_budget`], so nothing wraps (a wrap there subtracts the
/// scrolled row from row 0 in `Grid::col_wrap`); on one a column wide, it has
/// only [`narrow_chars`] (a double-width character makes `Screen::text`
/// compute `1 - 2`); and a tab is fed to a terminal 65528 columns wide or
/// more only where none occurs (`Grid::col_tab` adds 8 to the column in
/// `u16`). Valid UTF-8 keeps every byte in its own character: vte drops the
/// byte that breaks a sequence, which could be a carriage return.
pub open spec fn terminal_safe(rows: u16, cols: u16, input: Seq<u8>) -> bool {
    &&& rows >= 1
    &&& cols >= 1
    &&& (rows == 1 ==> valid_utf8(input) && row_budget(input, 0, cols as int))
    &&& (cols == 1 ==> narrow_chars(input))
    &&& (cols >= 65528 ==> rows == 1 || no_tab(input))
}

/// Whether [`terminal_safe`] holds.
pub fn terminal_can_show(rows: u16, cols: u16, input: &[u8]) -> (b: bool)
    ensures
        b == terminal_safe(rows, cols, input@),
{
    if rows == 0 || cols == 0 {
        return false;
    }
    if rows == 1 {
        if utf8_str(input).is_none() || !fits_one_row(input, cols) {
            return false;
        }
    }
    let mut i: usize = 0;
    while i < input.len()
        invariant
            i <= input@.len(),
            cols == 1 ==> forall|j: int| 0 <= j < i ==> input@[j] < 0xe1,
            cols >= 65528 && rows != 1 ==> forall|j: int| 0 <= j < i ==> input@[j] != 0x09,
        decreases input@.len() - i,
    {
        if cols == 1 && input[i] >= 0xe1 {
            return false;
        }
        if cols >= 65528 && rows != 1 && input[i] == 0x09 {
            return false;
        }
        i = i + 1;
    }
    true
}

/// Rows of a pane's terminal: its height, at least one.
pub open spec fn pane_rows(r: Rect) -> u16 {
    if r.height >= 1 {
        r.height
    } else {
        1
    }
}

/// Columns of a pane's terminal: its width, at least one.
pub open spec fn pane_cols(r: Rect) -> u16 {
    if r.width >= 1 {
        r.width
    } else {
        1
    }
}

/// A pane that its terminal can show without failing: [`terminal_safe`] for
/// the pane's size and input.
pub open spec fn pane_emulable(p: PaneLayoutView) -> bool {
    terminal_safe(pane_rows(p.rect), pane_cols(p.rect), spec_pane_input(p.lines))
}

/// Every pane that the text describes is [`pane_emulable`].
pub open spec fn snapshot_emulable(bytes: Seq<u8>) -> bool {
    match spec_parse_layout(bytes) {
        Some(l) => forall|i: int| 0 <= i < l.panes.len() ==> #[trigger] pane_emulable(l.panes[i]),
        None => true,
    }
}

/// The screen that a vt100 terminal of `rows` by `cols` cells, without
/// scrollback, shows after it has been fed `input`.
pub uninterp spec fn emulated_screen(rows: u16, cols: u16, input: Seq<u8>) -> GridView;

/// vt100: a `Parser` of `rows` by `cols` cells without scrollback is fed
/// `input` with `process`, and its `screen()` is read cell by cell into a
/// grid of `rows` by `cols` cells, which is what [`emulated_screen`] names.
/// `requires` keeps out the inputs on which vt100 0.15.2 is known to panic
/// (see [`terminal_safe`]).
#[verifier::external_body]
fn vt_emulate(rows: u16, cols: u16, input: &[u8]) -> (g: ScreenGrid)
    requires
        terminal_safe(rows, cols, input@),
    ensures
        g@ == emulated_screen(rows, cols, input@),
        g.rows == rows,
        g.cols == cols,
        grid_wf(g),
{
    let mut p = Parser::new(rows, cols, 0);
    p.process(input);
    let color = |c| match c {
        Color::Default => CellColor::Default,
        Color::Idx(i) => CellColor::Idx(i),
        Color::Rgb(r, g, b) => CellColor::Rgb(r, g, b),
    };
    let cells = (0..rows).map(|r| (0..cols).map(|c| p.screen().cell(r, c).map(|x| ScreenCell::new(
        x.contents(), color(x.fgcolor()), color(x.bgcolor()), x.bold(), x.italic(), x.underline(),
        x.inverse(), x.is_wide()))).collect()).collect();
    ScreenGrid { rows, cols, cells }
}

/// One captured pane.
pub struct PaneSnap {
    /// Pane content rect in client coordinates.
    pub rect: Rect,
    /// The pane's screen, its lines fed through vt100 at the pane's size.
    pub screen: ScreenGrid,
}

/// A captured workspace: the pane area and its panes.
pub struct Snapshot {
    /// The tab's pane area in client coordinates (AREA line).
    pub area: Rect,
    pub panes: Vec<PaneSnap>,
}

/// `s` is the snapshot that the layout `l` describes: the same area and
/// rectangles, and each pane's screen that of a terminal of the pane's size
/// (at least one row and column) fed the pane's lines with `\r\n` between.
pub open spec fn snapshot_of(s: Snapshot, l: LayoutView) -> bool {
    &&& s.area == l.area
    &&& s.panes@.len() == l.panes.len()
    &&& forall|i: int|
        0 <= i < l.panes.len() ==> {
            let p = #[trigger] s.panes@[i];
            &&& p.rect == l.panes[i].rect
            &&& p.screen@ == emulated_screen(
                pane_rows(p.rect),
                pane_cols(p.rect),
                spec_pane_input(l.panes[i].lines),
            )
            &&& p.screen.rows == pane_rows(p.rect)
            &&& p.screen.cols == pane_cols(p.rect)
            &&& grid_wf(p.screen)
        }
}

/// What parsing `bytes` gives: `None` where the text describes no snapshot,
/// else the snapshot it describes.
pub open spec fn parse_result(r: Option<Snapshot>, bytes: Seq<u8>) -> bool {
    match spec_parse_layout(bytes) {
        None => r is None,
        Some(l) => r matches Some(s) && snapshot_of(s, l),
    }
}

impl Snapshot {
    /// Parse a snapshot: `None` unless the text starts with an `AREA` line and
    /// describes at least one pane. Each pane's content lines are emulated on a
    /// terminal of the pane's size (at least one row and column), joined by
    /// `\r\n` so that no newline follows the last one (vt100's `process`
    /// takes its bytes one at a time, so feeding them in one call is feeding
    /// them line by line). Every pane must be
    /// [`pane_emulable`]; [`Snapshot::parse_checked`] tests that first.
    pub fn parse(bytes: &[u8]) -> (r: Option<Snapshot>)
        requires
            snapshot_emulable(bytes@),
        ensures
            parse_result(r, bytes@),
    {
        match parse_layout(bytes) {
            Some(layout) => {
                proof {
                    let lv = layout_view(Some(layout)).unwrap();
                    assert forall|i: int| 0 <= i < layout.panes@.len() implies #[trigger] pane_emulable(
                        pane_layout_view(layout.panes@[i]),
                    ) by {
                        assert(lv.panes[i] == pane_layout_view(layout.panes@[i]));
                    }
                }
                Some(Self::from_layout(layout))
            },
            None => None,
        }
    }

    /// [`Snapshot::parse`] where every pane is [`pane_emulable`], else `None`.
    pub fn parse_checked(bytes: &[u8]) -> (r: Option<Snapshot>)
        ensures
            snapshot_emulable(bytes@) ==> parse_result(r, bytes@),
            !snapshot_emulable(bytes@) ==> r is None,
    {
        let layout = match parse_layout(bytes) {
            Some(l) => l,
            None => {
                return None;
            },
        };
        let ghost lv = layout_view(Some(layout)).unwrap();
        let mut k: usize = 0;
        while k < layout.panes.len()
            invariant
                k <= layout.panes@.len(),
                lv == layout_view(Some(layout)).unwrap(),
                spec_parse_layout(bytes@) == Some(lv),
                forall|i: int| 0 <= i < k ==> #[trigger] pane_emulable(lv.panes[i]),
            decreases layout.panes@.len() - k,
        {
            let pane = &layout.panes[k];
            assert(lv.panes[k as int] == pane_layout_view(*pane));
            if !Self::pane_ok(pane) {
                assert(!pane_emulable(lv.panes[k as int]));
                return None;
            }
            k = k + 1;
        }
        proof {
            assert forall|i: int| 0 <= i < layout.panes@.len() implies #[trigger] pane_emulable(
                pane_layout_view(layout.panes@[i]),
            ) by {
                assert(lv.panes[i] == pane_layout_view(layout.panes@[i]));
            }
        }
        Some(Self::from_layout(layout))
    }

    /// Whether one pane is [`pane_emulable`].
    fn pane_ok(pane: &PaneLayout) -> (b: bool)
        ensures
            b == pane_emulable(pane_layout_view(*pane)),
    {
        let rows = if pane.rect.height >= 1 {
            pane.rect.height
        } else {
            1
        };
        let cols = if pane.rect.width >= 1 {
            pane.rect.width
        } else {
            1
        };
        let input = pane_input(&pane.lines);
        terminal_can_show(rows, cols, input.as_slice())
    }

    /// The snapshot that a layout of emulable panes describes.
    fn from_layout(layout: SnapshotLayout) -> (s: Snapshot)
        requires
            forall|i: int|
                0 <= i < layout.panes@.len() ==> #[trigger] pane_emulable(
                    pane_layout_view(layout.panes@[i]),
                ),
        ensures
            snapshot_of(s, layout_view(Some(layout)).unwrap()),
    {
        let ghost lv = layout_view(Some(layout)).unwrap();
        let mut panes: Vec<PaneSnap> = Vec::new();
        let mut k: usize = 0;
        while k < layout.panes.len()
            invariant
                k <= layout.panes@.len(),
                lv == layout_view(Some(layout)).unwrap(),
                forall|i: int|
                    0 <= i < layout.panes@.len() ==> #[trigger] pane_emulable(
                        pane_layout_view(layout.panes@[i]),
                    ),
                panes@.len() == k,
                forall|i: int|
                    0 <= i < k ==> {
                        let p = #[trigger] panes@[i];
                        &&& p.rect == lv.panes[i].rect
                        &&& p.screen@ == emulated_screen(
                            pane_rows(p.rect),
                            pane_cols(p.rect),
                            spec_pane_input(lv.panes[i].lines),
                        )
                        &&& p.screen.rows == pane_rows(p.rect)
                        &&& p.screen.cols == pane_cols(p.rect)
                        &&& grid_wf(p.screen)
                    },
            decreases layout.panes@.len() - k,
        {
            let pane = &layout.panes[k];
            assert(lv.panes[k as int] == pane_layout_view(*pane));
            assert(pane_emulable(pane_layout_view(layout.panes@[k as int])));
            let rows = if pane.rect.height >= 1 {
                pane.rect.height
            } else {
                1
            };
            let cols = if pane.rect.width >= 1 {
                pane.rect.width
            } else {
                1
            };
            let input = pane_input(&pane.lines);
            let screen = vt_emulate(rows, cols, input.as_slice());
            panes.push(PaneSnap { rect: pane.rect, screen });
            k = k + 1;
        }
        Snapshot { area: layout.area, panes }
    }
}

} // verus!
