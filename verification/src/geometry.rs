//! Floating-box geometry: a centered box sized by the configured percentages,
//! and its interior inside the one-cell border.
use vstd::prelude::*;

use crate::config::Config;

verus! {

/// A rectangle of terminal cells: left column `x`, top row `y`, and its size.
#[derive(Debug, Clone, Copy, PartialEq, Eq, Structural)]
pub struct Rect {
    pub x: u16,
    pub y: u16,
    pub width: u16,
    pub height: u16,
}

/// The rectangle that `Rect::new` builds: the width is cut so that `x + width`
/// does not pass `u16::MAX`, and the height likewise.
pub open spec fn spec_rect_new(x: u16, y: u16, width: u16, height: u16) -> Rect {
    Rect {
        x,
        y,
        width: if width > u16::MAX - x {
            (u16::MAX - x) as u16
        } else {
            width
        },
        height: if height > u16::MAX - y {
            (u16::MAX - y) as u16
        } else {
            height
        },
    }
}

/// `ratatui::layout::Rect::new` on plain coordinates.
#[verifier::external_body]
fn ratatui_rect_new(x: u16, y: u16, width: u16, height: u16) -> (r: Rect)
    ensures
        r == spec_rect_new(x, y, width, height),
{
    let r = ratatui::layout::Rect::new(x, y, width, height);
    Rect { x: r.x, y: r.y, width: r.width, height: r.height }
}

/// `a + b`, or `u16::MAX` where that overflows.
pub open spec fn sat_add(a: u16, b: u16) -> u16 {
    if a + b > u16::MAX {
        u16::MAX
    } else {
        (a + b) as u16
    }
}

impl Rect {
    /// A rectangle at `(x, y)`; the size is cut to stay within the `u16` range.
    pub fn new(x: u16, y: u16, width: u16, height: u16) -> (r: Rect)
        ensures
            r == spec_rect_new(x, y, width, height),
            r.x == x && r.y == y,
            x + width <= u16::MAX ==> r.width == width,
            x + width > u16::MAX ==> r.width == u16::MAX - x,
            y + height <= u16::MAX ==> r.height == height,
            y + height > u16::MAX ==> r.height == u16::MAX - y,
    {
        ratatui_rect_new(x, y, width, height)
    }

    /// The column just past the right edge (saturating).
    pub fn right(self) -> (r: u16)
        ensures
            r == sat_add(self.x, self.width),
    {
        self.x.saturating_add(self.width)
    }

    /// The row just past the bottom edge (saturating).
    pub fn bottom(self) -> (r: u16)
        ensures
            r == sat_add(self.y, self.height),
    {
        self.y.saturating_add(self.height)
    }
}

/// `len * pct / 100`, truncated to 16 bits as an `as u16` cast does.
pub open spec fn scaled(len: u16, pct: u16) -> u16 {
    ((len as int * pct as int / 100) % 65536) as u16
}

/// `v` clamped to `lo..=hi` (`lo <= hi`).
pub open spec fn clamp_u16(v: u16, lo: u16, hi: u16) -> u16 {
    if v < lo {
        lo
    } else if v > hi {
        hi
    } else {
        v
    }
}

/// The smaller of two sizes.
pub open spec fn min_u16(a: u16, b: u16) -> u16 {
    if a <= b {
        a
    } else {
        b
    }
}

/// Width of the box: the percentage of the area's width, at least 20 columns
/// (or the whole width when the area is narrower) and at most the whole width.
pub open spec fn box_width(area: Rect, width_pct: u16) -> u16 {
    clamp_u16(scaled(area.width, width_pct), min_u16(20, area.width), area.width)
}

/// Height of the box: the percentage of the area's height, at least 5 rows
/// (or the whole height when the area is lower) and at most the whole height.
pub open spec fn box_height(area: Rect, height_pct: u16) -> u16 {
    clamp_u16(scaled(area.height, height_pct), min_u16(5, area.height), area.height)
}

/// Left column of the centered box (may pass `u16::MAX` on a malformed area).
pub open spec fn box_left(area: Rect, width_pct: u16) -> int {
    area.x + (area.width - box_width(area, width_pct)) / 2
}

/// Top row of the centered box (may pass `u16::MAX` on a malformed area).
pub open spec fn box_top(area: Rect, height_pct: u16) -> int {
    area.y + (area.height - box_height(area, height_pct)) / 2
}

/// The box's position fits in `u16`; it always does when the area itself does.
pub open spec fn box_fits(area: Rect, width_pct: u16, height_pct: u16) -> bool {
    box_left(area, width_pct) <= u16::MAX && box_top(area, height_pct) <= u16::MAX
}

/// The floating box for `area` and the two percentages.
pub open spec fn spec_box_rect(area: Rect, width_pct: u16, height_pct: u16) -> Rect {
    spec_rect_new(
        box_left(area, width_pct) as u16,
        box_top(area, height_pct) as u16,
        box_width(area, width_pct),
        box_height(area, height_pct),
    )
}

/// `a - b`, or 0 where that is negative.
pub open spec fn sat_sub(a: u16, b: u16) -> u16 {
    if a >= b {
        (a - b) as u16
    } else {
        0
    }
}

/// The interior of `r` inside a one-cell border, never narrower or lower
/// than one cell.
pub open spec fn spec_inner(r: Rect) -> Rect {
    let w = sat_sub(r.width, 2);
    let h = sat_sub(r.height, 2);
    spec_rect_new(
        (r.x + 1) as u16,
        (r.y + 1) as u16,
        if w >= 1 {
            w
        } else {
            1
        },
        if h >= 1 {
            h
        } else {
            1
        },
    )
}

/// `len * pct / 100` as a truncating cast gives it.
fn scale(len: u16, pct: u16) -> (r: u16)
    ensures
        r == scaled(len, pct),
{
    assert(len as int * pct as int <= 65535 * 65535) by (nonlinear_arith)
        requires
            len <= 65535,
            pct <= 65535,
    ;
    let p = (len as u32) * (pct as u32);
    ((p / 100) % 65536) as u16
}

/// `v` clamped to `min(floor, max)..=max`.
fn clamp_size(v: u16, floor: u16, max: u16) -> (r: u16)
    ensures
        r == clamp_u16(v, min_u16(floor, max), max),
{
    let lo = if floor <= max {
        floor
    } else {
        max
    };
    if v < lo {
        lo
    } else if v > max {
        max
    } else {
        v
    }
}

/// The floating box (border included), centered in `area` per the configured
/// percentages. Width/height are clamped so tiny panes still get a usable box.
pub fn box_rect(area: Rect, cfg: &Config) -> (r: Rect)
    requires
        box_fits(area, cfg.width_pct, cfg.height_pct),
    ensures
        r == spec_box_rect(area, cfg.width_pct, cfg.height_pct),
{
    let w = clamp_size(scale(area.width, cfg.width_pct), 20, area.width);
    let h = clamp_size(scale(area.height, cfg.height_pct), 5, area.height);
    Rect::new(area.x + (area.width - w) / 2, area.y + (area.height - h) / 2, w, h)
}

/// The PTY-facing interior of the floating box (inside the 1-cell border).
/// This is what the embedded shell believes its terminal size is.
pub fn box_inner(area: Rect, cfg: &Config) -> (r: Rect)
    requires
        box_fits(area, cfg.width_pct, cfg.height_pct),
        spec_box_rect(area, cfg.width_pct, cfg.height_pct).x < u16::MAX,
        spec_box_rect(area, cfg.width_pct, cfg.height_pct).y < u16::MAX,
    ensures
        r == spec_inner(spec_box_rect(area, cfg.width_pct, cfg.height_pct)),
{
    let b = box_rect(area, cfg);
    Rect::new(
        b.x + 1,
        b.y + 1,
        b.width.saturating_sub(2).max(1),
        b.height.saturating_sub(2).max(1),
    )
}

/// An area whose right and bottom edges stay within the `u16` range, as every
/// rectangle that `Rect::new` builds does.
pub open spec fn area_in_range(area: Rect) -> bool {
    area.x + area.width <= u16::MAX && area.y + area.height <= u16::MAX
}

/// Every rectangle that `Rect::new` builds is within range.
pub proof fn lemma_rect_new_in_range(x: u16, y: u16, width: u16, height: u16)
    ensures
        area_in_range(spec_rect_new(x, y, width, height)),
{
}

/// On an area within range the box always fits, lies inside the area, is no
/// larger than the area, and is at least 20 columns by 5 rows (or the whole
/// area's width or height where that is smaller).
pub proof fn lemma_box_within_area(area: Rect, width_pct: u16, height_pct: u16)
    requires
        area_in_range(area),
    ensures
        box_fits(area, width_pct, height_pct),
        area.x <= spec_box_rect(area, width_pct, height_pct).x,
        area.y <= spec_box_rect(area, width_pct, height_pct).y,
        spec_box_rect(area, width_pct, height_pct).x + spec_box_rect(
            area,
            width_pct,
            height_pct,
        ).width <= area.x + area.width,
        spec_box_rect(area, width_pct, height_pct).y + spec_box_rect(
            area,
            width_pct,
            height_pct,
        ).height <= area.y + area.height,
        min_u16(20, area.width) <= spec_box_rect(area, width_pct, height_pct).width
            <= area.width,
        min_u16(5, area.height) <= spec_box_rect(area, width_pct, height_pct).height
            <= area.height,
{
}

/// On an area within range the box is centered: the margin on the left is
/// half the horizontal slack, rounded down, so the right margin is the same or
/// one column more; likewise vertically.
pub proof fn lemma_box_centered(area: Rect, width_pct: u16, height_pct: u16)
    requires
        area_in_range(area),
    ensures
        ({
            let r = spec_box_rect(area, width_pct, height_pct);
            let left = r.x - area.x;
            let right = (area.x + area.width) - (r.x + r.width);
            let top = r.y - area.y;
            let bottom = (area.y + area.height) - (r.y + r.height);
            &&& left == (area.width - r.width) / 2
            &&& right == left || right == left + 1
            &&& top == (area.height - r.height) / 2
            &&& bottom == top || bottom == top + 1
        }),
{
}

/// The box is sized by the percentages: for percentages up to 100 its width is
/// `width_pct` percent of the area's width, rounded down, raised to 20 columns
/// (or the whole width, where that is narrower), and its height is
/// `height_pct` percent of the area's height, rounded down, raised to 5 rows
/// (or the whole height).
pub proof fn lemma_box_size(area: Rect, width_pct: u16, height_pct: u16)
    requires
        area_in_range(area),
        width_pct <= 100,
        height_pct <= 100,
    ensures
        ({
            let r = spec_box_rect(area, width_pct, height_pct);
            let w = area.width * width_pct / 100;
            let h = area.height * height_pct / 100;
            let wmin = if area.width < 20 { area.width as int } else { 20 };
            let hmin = if area.height < 5 { area.height as int } else { 5 };
            &&& r.width == (if w < wmin { wmin } else { w })
            &&& r.height == (if h < hmin { hmin } else { h })
        }),
{
    assert(area.width * width_pct / 100 <= area.width) by (nonlinear_arith)
        requires
            width_pct <= 100,
    ;
    assert(area.height * height_pct / 100 <= area.height) by (nonlinear_arith)
        requires
            height_pct <= 100,
    ;
    assert(0 <= area.width * width_pct / 100) by (nonlinear_arith);
    assert(0 <= area.height * height_pct / 100) by (nonlinear_arith);
    lemma_box_within_area(area, width_pct, height_pct);
}

/// At 100% in both directions the box is the whole area.
pub proof fn lemma_box_full_at_100pct(area: Rect)
    requires
        area_in_range(area),
    ensures
        spec_box_rect(area, 100, 100) == area,
{
    assert((area.width as int * 100) / 100 == area.width as int) by (nonlinear_arith);
    assert((area.height as int * 100) / 100 == area.height as int) by (nonlinear_arith);
}

/// The interior is never empty: at least one column and one row, even for a
/// box narrower or lower than its two border cells.
pub proof fn lemma_inner_never_empty(r: Rect)
    requires
        r.x + 1 < u16::MAX,
        r.y + 1 < u16::MAX,
    ensures
        spec_inner(r).width >= 1,
        spec_inner(r).height >= 1,
{
}

/// For a box of at least 3 by 3 cells within range, the interior is the box
/// inset by exactly one cell on every side.
pub proof fn lemma_inner_is_border_inset(r: Rect)
    requires
        r.width >= 3,
        r.height >= 3,
        r.x + r.width <= u16::MAX,
        r.y + r.height <= u16::MAX,
    ensures
        spec_inner(r) == (Rect {
            x: (r.x + 1) as u16,
            y: (r.y + 1) as u16,
            width: (r.width - 2) as u16,
            height: (r.height - 2) as u16,
        }),
{
}

} // verus!
