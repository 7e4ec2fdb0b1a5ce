//! What one frame paints: the box chrome (border colour, background, title and
//! hint), the cursor, the embedded screen inside the box and the dimmed
//! workspace behind it. The frame buffer itself is written elsewhere; these
//! functions decide what goes where.
use vstd::prelude::*;
use vstd::string::StringExecFns;

use crate::color::{
    conv_color, dim_fg, lemma_dimmed_text, spec_conv_color, spec_dim_fg, spec_idx_to_rgb, CellColor,
    Paint,
};
use crate::config::Config;
use crate::geometry::{sat_add, sat_sub, spec_inner, Rect};

verus! {

/// The border colour: the configured one, else the palette's magenta.
pub open spec fn spec_border_paint(border: Option<(u8, u8, u8)>) -> Paint {
    match border {
        Some((r, g, b)) => Paint::Rgb(r, g, b),
        None => Paint::Magenta,
    }
}

/// The border colour: the configured one, else the palette's magenta.
pub fn border_paint(cfg: &Config) -> (p: Paint)
    ensures
        p == spec_border_paint(cfg.border),
        cfg.border matches Some((r, g, b)) ==> p == Paint::Rgb(r, g, b),
        cfg.border is None ==> p == Paint::Magenta,
{
    match cfg.border {
        Some((r, g, b)) => Paint::Rgb(r, g, b),
        None => Paint::Magenta,
    }
}

/// The box background: the configured one, else the terminal's default.
pub open spec fn spec_box_bg_paint(box_bg: Option<(u8, u8, u8)>) -> Paint {
    match box_bg {
        Some((r, g, b)) => Paint::Rgb(r, g, b),
        None => Paint::Reset,
    }
}

/// The box background: the configured one, else the terminal's default.
pub fn box_bg_paint(cfg: &Config) -> (p: Paint)
    ensures
        p == spec_box_bg_paint(cfg.box_bg),
        cfg.box_bg matches Some((r, g, b)) ==> p == Paint::Rgb(r, g, b),
        cfg.box_bg is None ==> p == Paint::Reset,
{
    match cfg.box_bg {
        Some((r, g, b)) => Paint::Rgb(r, g, b),
        None => Paint::Reset,
    }
}

/// The backdrop fill colour.
pub fn backdrop_paint(cfg: &Config) -> (p: Paint)
    ensures
        p == Paint::Rgb(cfg.backdrop.0, cfg.backdrop.1, cfg.backdrop.2),
{
    let (r, g, b) = cfg.backdrop;
    Paint::Rgb(r, g, b)
}

/// The top-border title: ` ⌂ <title> `, with `floax` for an empty title.
pub open spec fn spec_title_text(title: Seq<char>) -> Seq<char> {
    " \u{2302} "@ + (if title.len() == 0 {
        "floax"@
    } else {
        title
    }) + " "@
}

/// The top-border title: ` ⌂ <title> `, with `floax` for an empty title.
pub fn title_text(cfg: &Config) -> (s: String)
    ensures
        s@ == spec_title_text(cfg.title@),
        cfg.title@.len() == 0 ==> s@ == " \u{2302} floax "@,
        cfg.title@.len() > 0 ==> s@ == " \u{2302} "@ + cfg.title@ + " "@,
{
    let mut s = String::from_str(" \u{2302} ");
    if cfg.title.as_str().is_empty() {
        s.append("floax");
    } else {
        s.append(cfg.title.as_str());
    }
    s.append(" ");
    proof {
        reveal_strlit(" \u{2302} ");
        reveal_strlit("floax");
        reveal_strlit(" ");
        reveal_strlit(" \u{2302} floax ");
        if cfg.title@.len() == 0 {
            assert(s@ =~= " \u{2302} floax "@);
        }
    }
    s
}

/// The bottom-border hint: ` <key> hides · shell persists `.
pub open spec fn spec_hint_text(key_hint: Seq<char>) -> Seq<char> {
    " "@ + key_hint + " hides \u{b7} shell persists "@
}

/// The bottom-border hint: ` <key> hides · shell persists `.
pub fn hint_text(cfg: &Config) -> (s: String)
    ensures
        s@ == spec_hint_text(cfg.key_hint@),
        s@ == " "@ + cfg.key_hint@ + " hides \u{b7} shell persists "@,
{
    let mut s = String::from_str(" ");
    s.append(cfg.key_hint.as_str());
    s.append(" hides \u{b7} shell persists ");
    s
}

/// Where the cursor goes: at the emulated cursor's row and column inside the
/// box interior, unless it is hidden or falls outside the interior.
pub open spec fn spec_cursor_target(inner: Rect, hidden: bool, row: u16, col: u16) -> Option<
    (u16, u16),
> {
    if !hidden && row < inner.height && col < inner.width {
        Some(((inner.x + col) as u16, (inner.y + row) as u16))
    } else {
        None
    }
}

/// Where the cursor goes: at the emulated cursor's row and column inside the
/// box interior, unless it is hidden or falls outside the interior.
pub fn cursor_target(inner: Rect, hidden: bool, row: u16, col: u16) -> (r: Option<(u16, u16)>)
    requires
        !hidden && row < inner.height && col < inner.width ==> inner.x + col <= u16::MAX
            && inner.y + row <= u16::MAX,
    ensures
        r == spec_cursor_target(inner, hidden, row, col),
        r is Some <==> (!hidden && row < inner.height && col < inner.width),
        r matches Some((x, y)) ==> x == inner.x + col && y == inner.y + row,
{
    if !hidden && row < inner.height && col < inner.width {
        Some((inner.x + col, inner.y + row))
    } else {
        None
    }
}

/// The interior of the bordered box chrome, as ratatui's `Block::inner` gives
/// it for a block bordered on all four sides without padding: one cell in
/// from each side, empty when the box is narrower or lower than its border.
pub open spec fn spec_chrome_inner(r: Rect) -> Rect {
    let right = sat_add(r.x, r.width);
    let bottom = sat_add(r.y, r.height);
    Rect {
        x: if sat_add(r.x, 1) <= right {
            sat_add(r.x, 1)
        } else {
            right
        },
        y: if sat_add(r.y, 1) <= bottom {
            sat_add(r.y, 1)
        } else {
            bottom
        },
        width: sat_sub(r.width, 2),
        height: sat_sub(r.height, 2),
    }
}

/// The interior of the bordered box chrome: where the embedded screen is
/// painted.
pub fn chrome_inner(r: Rect) -> (i: Rect)
    ensures
        i == spec_chrome_inner(r),
{
    let right = r.right();
    let bottom = r.bottom();
    let x1 = r.x.saturating_add(1);
    let y1 = r.y.saturating_add(1);
    Rect {
        x: if x1 <= right {
            x1
        } else {
            right
        },
        y: if y1 <= bottom {
            y1
        } else {
            bottom
        },
        width: r.width.saturating_sub(2),
        height: r.height.saturating_sub(2),
    }
}

/// For a box of at least 3 by 3 cells within range, the chrome's interior,
/// where the screen is painted, is the interior the PTY is sized to.
pub proof fn lemma_chrome_inner_is_pty_interior(r: Rect)
    requires
        r.width >= 3,
        r.height >= 3,
        r.x + r.width <= u16::MAX,
        r.y + r.height <= u16::MAX,
    ensures
        spec_chrome_inner(r) == spec_inner(r),
{
}

/// One cell of an emulated screen, as the renderer reads it.
pub struct ScreenCell {
    /// The cell's text (empty for a blank cell).
    pub contents: String,
    pub fg: CellColor,
    pub bg: CellColor,
    pub bold: bool,
    pub italic: bool,
    pub underline: bool,
    pub inverse: bool,
    /// The cell holds a double-width character, whose second half is the
    /// next cell.
    pub wide: bool,
}

/// An emulated screen: `rows` rows of `cols` cells each, `None` where the
/// emulator has no cell.
pub struct ScreenGrid {
    pub rows: u16,
    pub cols: u16,
    pub cells: Vec<Vec<Option<ScreenCell>>>,
}

/// The value of a [`ScreenCell`], its text taken as characters.
pub struct CellView {
    pub contents: Seq<char>,
    pub fg: CellColor,
    pub bg: CellColor,
    pub bold: bool,
    pub italic: bool,
    pub underline: bool,
    pub inverse: bool,
    pub wide: bool,
}

/// The value of an optional cell.
pub open spec fn cell_view(c: Option<ScreenCell>) -> Option<CellView> {
    match c {
        Some(x) => Some(
            CellView {
                contents: x.contents@,
                fg: x.fg,
                bg: x.bg,
                bold: x.bold,
                italic: x.italic,
                underline: x.underline,
                inverse: x.inverse,
                wide: x.wide,
            },
        ),
        None => None,
    }
}

/// The value of a [`ScreenGrid`]: its size and its rows of cells.
pub struct GridView {
    pub rows: u16,
    pub cols: u16,
    pub cells: Seq<Seq<Option<CellView>>>,
}

impl View for ScreenGrid {
    type V = GridView;

    open spec fn view(&self) -> GridView {
        GridView {
            rows: self.rows,
            cols: self.cols,
            cells: self.cells@.map_values(
                |row: Vec<Option<ScreenCell>>| row@.map_values(|c: Option<ScreenCell>| cell_view(c)),
            ),
        }
    }
}

impl ScreenGrid {
    /// The size, as (rows, columns).
    pub fn size(&self) -> (r: (u16, u16))
        ensures
            r == (self.rows, self.cols),
    {
        (self.rows, self.cols)
    }

    /// The cell at row `row`, column `col`, if the grid has one there.
    pub fn cell(&self, row: u16, col: u16) -> (r: Option<&ScreenCell>)
        ensures
            r is Some <==> (row < self.cells@.len() && col < self.cells@[row as int]@.len()
                && self.cells@[row as int]@[col as int] is Some),
            r matches Some(x) ==> *x == self.cells@[row as int]@[col as int].unwrap(),
    {
        if (row as usize) < self.cells.len() {
            let line = &self.cells[row as usize];
            if (col as usize) < line.len() {
                match &line[col as usize] {
                    Some(x) => Some(x),
                    None => None,
                }
            } else {
                None
            }
        } else {
            None
        }
    }
}

impl ScreenCell {
    /// A cell with the given text, colours and attributes.
    pub fn new(
        contents: String,
        fg: CellColor,
        bg: CellColor,
        bold: bool,
        italic: bool,
        underline: bool,
        inverse: bool,
        wide: bool,
    ) -> (c: ScreenCell)
        ensures
            c == (ScreenCell { contents, fg, bg, bold, italic, underline, inverse, wide }),
    {
        ScreenCell { contents, fg, bg, bold, italic, underline, inverse, wide }
    }

    /// The cell's text.
    pub fn contents(&self) -> (r: &str)
        ensures
            r@ == self.contents@,
    {
        self.contents.as_str()
    }

    /// The foreground colour.
    pub fn fgcolor(&self) -> (r: CellColor)
        ensures
            r == self.fg,
    {
        self.fg
    }

    /// The background colour.
    pub fn bgcolor(&self) -> (r: CellColor)
        ensures
            r == self.bg,
    {
        self.bg
    }
}

/// What to paint into one cell of the frame buffer: the symbol, the colours,
/// and the modifiers to add.
pub struct CellPaint {
    pub x: u16,
    pub y: u16,
    pub symbol: String,
    pub fg: Paint,
    pub bg: Paint,
    pub bold: bool,
    pub italic: bool,
    pub underlined: bool,
    pub reversed: bool,
}

/// The grid holds `rows` rows of `cols` cells.
pub open spec fn grid_wf(g: ScreenGrid) -> bool {
    &&& g.cells@.len() == g.rows
    &&& forall|r: int| 0 <= r < g.rows ==> (#[trigger] g.cells@[r])@.len() == g.cols
}

/// The cell at row `r`, column `c`.
pub open spec fn cell_at(g: ScreenGrid, r: int, c: int) -> Option<ScreenCell> {
    g.cells@[r]@[c]
}

/// The smaller of two sizes.
pub open spec fn min_int(a: int, b: int) -> int {
    if a <= b {
        a
    } else {
        b
    }
}

/// The position lies in the frame buffer's area.
pub open spec fn in_buffer(buf: Rect, x: int, y: int) -> bool {
    buf.x <= x < sat_add(buf.x, buf.width) && buf.y <= y < sat_add(buf.y, buf.height)
}

/// The symbol painted for a cell's text: a space for an empty cell.
pub open spec fn symbol_of(contents: Seq<char>) -> Seq<char> {
    if contents.len() == 0 {
        " "@
    } else {
        contents
    }
}

/// `p` stands at or after the position `(x, y)` in row-major order.
pub open spec fn before(x1: int, y1: int, x2: int, y2: int) -> bool {
    y1 < y2 || (y1 == y2 && x1 < x2)
}

/// Some paint of `out` stands at `(x, y)`.
pub open spec fn has_paint_at(out: Seq<CellPaint>, x: int, y: int) -> bool {
    exists|i: int| 0 <= i < out.len() && (#[trigger] out[i]).x == x && out[i].y == y
}

/// The paints of `out` come in strictly increasing row-major order.
pub open spec fn row_major(out: Seq<CellPaint>) -> bool {
    forall|i: int, j: int|
        0 <= i < j < out.len() ==> before(
            (#[trigger] out[i]).x as int,
            out[i].y as int,
            (#[trigger] out[j]).x as int,
            out[j].y as int,
        )
}

/// Whether the embedded screen's cell at row `r`, column `c` is painted into
/// the box interior `area`: it lies within both the screen and the interior,
/// the emulator has it, its target lies in the buffer, and it is not the
/// second half of a double-width character painted just before it.
pub open spec fn screen_drawn(g: ScreenGrid, area: Rect, buf: Rect, r: int, c: int) -> bool
    decreases c,
{
    if r < 0 || r >= min_int(g.rows as int, area.height as int) || c < 0 || c >= min_int(
        g.cols as int,
        area.width as int,
    ) {
        false
    } else {
        let skipped = c > 0 && screen_drawn(g, area, buf, r, c - 1) && cell_at(
            g,
            r,
            c - 1,
        ).unwrap().wide;
        !skipped && cell_at(g, r, c) is Some && in_buffer(buf, area.x + c, area.y + r)
    }
}

/// The paint for an embedded screen cell: its text, its colours (a default
/// background replaced by `default_bg`) and its modifiers.
pub open spec fn screen_paint_ok(p: CellPaint, cell: ScreenCell, default_bg: Paint) -> bool {
    &&& p.symbol@ == symbol_of(cell.contents@)
    &&& p.fg == spec_conv_color(cell.fg)
    &&& p.bg == (if cell.bg == CellColor::Default {
        default_bg
    } else {
        spec_conv_color(cell.bg)
    })
    &&& p.bold == cell.bold
    &&& p.italic == cell.italic
    &&& p.underlined == cell.underline
    &&& p.reversed == cell.inverse
}

/// `out` paints exactly the drawn cells of the embedded screen, each once, in
/// row-major order, each as [`screen_paint_ok`] says.
pub open spec fn screen_plan(
    out: Seq<CellPaint>,
    g: ScreenGrid,
    area: Rect,
    buf: Rect,
    default_bg: Paint,
) -> bool {
    &&& forall|i: int|
        0 <= i < out.len() ==> {
            let p = #[trigger] out[i];
            let r = p.y - area.y;
            let c = p.x - area.x;
            &&& screen_drawn(g, area, buf, r, c)
            &&& screen_paint_ok(p, cell_at(g, r, c).unwrap(), default_bg)
        }
    &&& row_major(out)
    &&& forall|r: int, c: int|
        #[trigger] screen_drawn(g, area, buf, r, c) ==> has_paint_at(out, area.x + c, area.y + r)
}

/// The symbol for a cell's text.
fn symbol_for(contents: &String) -> (s: String)
    ensures
        s@ == symbol_of(contents@),
{
    if contents.as_str().is_empty() {
        String::from_str(" ")
    } else {
        contents.clone()
    }
}

/// Whether `(x, y)` lies in the buffer's area.
fn buffer_has(buf: Rect, x: u16, y: u16) -> (b: bool)
    ensures
        b == in_buffer(buf, x as int, y as int),
{
    buf.x <= x && x < buf.right() && buf.y <= y && y < buf.bottom()
}

/// Paint the emulated screen's cells into the box interior `area`, the frame
/// buffer covering `buf`. A default background becomes `default_bg` so the box
/// interior stays one consistent colour.
pub fn render_screen(grid: &ScreenGrid, area: Rect, buf: Rect, default_bg: Paint) -> (out: Vec<
    CellPaint,
>)
    requires
        grid_wf(*grid),
        area.x + min_int(grid.cols as int, area.width as int) <= u16::MAX + 1,
        area.y + min_int(grid.rows as int, area.height as int) <= u16::MAX + 1,
    ensures
        screen_plan(out@, *grid, area, buf, default_bg),
{
    let rows = if grid.rows <= area.height {
        grid.rows
    } else {
        area.height
    };
    let cols = if grid.cols <= area.width {
        grid.cols
    } else {
        area.width
    };
    let mut out: Vec<CellPaint> = Vec::new();
    let mut r: u16 = 0;
    while r < rows
        invariant
            grid_wf(*grid),
            rows == min_int(grid.rows as int, area.height as int),
            cols == min_int(grid.cols as int, area.width as int),
            area.x + cols <= u16::MAX + 1,
            area.y + rows <= u16::MAX + 1,
            r <= rows,
            forall|i: int|
                0 <= i < out@.len() ==> {
                    let p = #[trigger] out@[i];
                    let pr = p.y - area.y;
                    let pc = p.x - area.x;
                    &&& pr < r
                    &&& screen_drawn(*grid, area, buf, pr, pc)
                    &&& screen_paint_ok(p, cell_at(*grid, pr, pc).unwrap(), default_bg)
                },
            row_major(out@),
            forall|rr: int, cc: int|
                rr < r && #[trigger] screen_drawn(*grid, area, buf, rr, cc) ==> has_paint_at(
                    out@,
                    area.x + cc,
                    area.y + rr,
                ),
        decreases rows - r,
    {
        let row = &grid.cells[r as usize];
        let mut skip_next = false;
        let mut c: u16 = 0;
        while c < cols
            invariant
                grid_wf(*grid),
                rows == min_int(grid.rows as int, area.height as int),
                cols == min_int(grid.cols as int, area.width as int),
                area.x + cols <= u16::MAX + 1,
                area.y + rows <= u16::MAX + 1,
                r < rows,
                *row == grid.cells@[r as int],
                c <= cols,
                skip_next == (c > 0 && screen_drawn(*grid, area, buf, r as int, c - 1) && cell_at(
                    *grid,
                    r as int,
                    c - 1,
                ).unwrap().wide),
                forall|i: int|
                    0 <= i < out@.len() ==> {
                        let p = #[trigger] out@[i];
                        let pr = p.y - area.y;
                        let pc = p.x - area.x;
                        &&& pr < r || (pr == r && pc < c)
                        &&& screen_drawn(*grid, area, buf, pr, pc)
                        &&& screen_paint_ok(p, cell_at(*grid, pr, pc).unwrap(), default_bg)
                    },
                row_major(out@),
                forall|rr: int, cc: int|
                    (rr < r || (rr == r && cc < c)) && #[trigger] screen_drawn(
                        *grid,
                        area,
                        buf,
                        rr,
                        cc,
                    ) ==> has_paint_at(out@, area.x + cc, area.y + rr),
            decreases cols - c,
        {
            assert(row@.len() == grid.cols);
            let ghost drawn_here = screen_drawn(*grid, area, buf, r as int, c as int);
            if skip_next {
                skip_next = false;
                assert(!drawn_here);
            } else {
                match &row[c as usize] {
                    None => {
                        assert(!drawn_here);
                    },
                    Some(cell) => {
                        let x = area.x + c;
                        let y = area.y + r;
                        if buffer_has(buf, x, y) {
                            assert(drawn_here);
                            let p = CellPaint {
                                x,
                                y,
                                symbol: symbol_for(&cell.contents),
                                fg: conv_color(cell.fg),
                                bg: if cell.bg == CellColor::Default {
                                    default_bg
                                } else {
                                    conv_color(cell.bg)
                                },
                                bold: cell.bold,
                                italic: cell.italic,
                                underlined: cell.underline,
                                reversed: cell.inverse,
                            };
                            let ghost old_out = out@;
                            out.push(p);
                            proof {
                                assert forall|i: int, j: int|
                                    0 <= i < j < out@.len() implies before(
                                    (#[trigger] out@[i]).x as int,
                                    out@[i].y as int,
                                    (#[trigger] out@[j]).x as int,
                                    out@[j].y as int,
                                ) by {
                                    if j == old_out.len() {
                                        assert(out@[i] == old_out[i]);
                                    } else {
                                        assert(out@[i] == old_out[i]);
                                        assert(out@[j] == old_out[j]);
                                    }
                                }
                                assert forall|rr: int, cc: int|
                                    (rr < r || (rr == r && cc < c + 1)) && #[trigger] screen_drawn(
                                        *grid,
                                        area,
                                        buf,
                                        rr,
                                        cc,
                                    ) implies has_paint_at(out@, area.x + cc, area.y + rr) by {
                                    if rr == r && cc == c {
                                        assert(out@[old_out.len() as int] == p);
                                    } else {
                                        let k = choose|k: int|
                                            0 <= k < old_out.len() && (#[trigger] old_out[k]).x
                                                == area.x + cc && old_out[k].y == area.y + rr;
                                        assert(out@[k] == old_out[k]);
                                    }
                                }
                            }
                            skip_next = cell.wide;
                        } else {
                            assert(!drawn_here);
                        }
                    },
                }
            }
            c = c + 1;
        }
        r = r + 1;
    }
    out
}

/// A captured pane: where it stood (client coordinates) and its screen.
pub struct PaneGrid {
    pub rect: Rect,
    pub grid: ScreenGrid,
}

/// Where a pane's column 0 lands in the frame: its offset from the captured
/// area's origin, moved to the frame area's origin.
pub open spec fn pane_origin_x(pane: Rect, snap_area: Rect, area: Rect) -> int {
    pane.x - snap_area.x + area.x
}

/// Where a pane's row 0 lands in the frame.
pub open spec fn pane_origin_y(pane: Rect, snap_area: Rect, area: Rect) -> int {
    pane.y - snap_area.y + area.y
}

/// Whether the pane's cell at row `r`, column `c` is read: it lies within both
/// the pane and its screen, the emulator has it, and it is not the second half
/// of a double-width character read just before it.
pub open spec fn pane_visited(g: ScreenGrid, pane: Rect, r: int, c: int) -> bool
    decreases c,
{
    if r < 0 || r >= min_int(g.rows as int, pane.height as int) || c < 0 || c >= min_int(
        g.cols as int,
        pane.width as int,
    ) {
        false
    } else {
        let skipped = c > 0 && pane_visited(g, pane, r, c - 1) && cell_at(
            g,
            r,
            c - 1,
        ).unwrap().wide;
        !skipped && cell_at(g, r, c) is Some
    }
}

/// Whether the pane's cell at row `r`, column `c` is painted: it is read, and
/// its place in the frame lies in the frame area and in the buffer.
pub open spec fn pane_drawn(
    g: ScreenGrid,
    pane: Rect,
    snap_area: Rect,
    area: Rect,
    buf: Rect,
    r: int,
    c: int,
) -> bool {
    let x = pane_origin_x(pane, snap_area, area) + c;
    let y = pane_origin_y(pane, snap_area, area) + r;
    &&& pane_visited(g, pane, r, c)
    &&& area.x <= x < sat_add(area.x, area.width)
    &&& area.y <= y < sat_add(area.y, area.height)
    &&& in_buffer(buf, x, y)
}

/// The paint for a backdrop cell: its text, its foreground dimmed, its
/// background as it is, no modifiers added.
pub open spec fn dimmed_paint_ok(p: CellPaint, cell: ScreenCell) -> bool {
    &&& p.symbol@ == symbol_of(cell.contents@)
    &&& p.fg == spec_dim_fg(cell.fg)
    &&& p.bg == spec_conv_color(cell.bg)
    &&& !p.bold && !p.italic && !p.underlined && !p.reversed
}

/// `out` paints exactly the drawn cells of one pane, each once, in row-major
/// order, each as [`dimmed_paint_ok`] says.
pub open spec fn pane_plan(
    out: Seq<CellPaint>,
    pane: PaneGrid,
    snap_area: Rect,
    area: Rect,
    buf: Rect,
) -> bool {
    let ox = pane_origin_x(pane.rect, snap_area, area);
    let oy = pane_origin_y(pane.rect, snap_area, area);
    &&& forall|i: int|
        0 <= i < out.len() ==> {
            let p = #[trigger] out[i];
            let r = p.y - oy;
            let c = p.x - ox;
            &&& pane_drawn(pane.grid, pane.rect, snap_area, area, buf, r, c)
            &&& dimmed_paint_ok(p, cell_at(pane.grid, r, c).unwrap())
        }
    &&& row_major(out)
    &&& forall|r: int, c: int|
        #[trigger] pane_drawn(pane.grid, pane.rect, snap_area, area, buf, r, c) ==> has_paint_at(
            out,
            ox + c,
            oy + r,
        )
}

/// Each cell the embedded screen paints shows its emulated cell as it is: the
/// cell's text (a space for an empty cell); the foreground colour unchanged
/// (default, palette index or RGB); the background unchanged, except that the
/// terminal's default background becomes `default_bg`; and exactly the cell's
/// bold, italic, underline and inverse attributes.
pub proof fn lemma_screen_paint_shows_cell(
    out: Seq<CellPaint>,
    g: ScreenGrid,
    area: Rect,
    buf: Rect,
    default_bg: Paint,
)
    requires
        screen_plan(out, g, area, buf, default_bg),
    ensures
        forall|i: int|
            0 <= i < out.len() ==> {
                let p = #[trigger] out[i];
                let cell = g.cells@[p.y - area.y]@[p.x - area.x].unwrap();
                &&& p.symbol@ == (if cell.contents@.len() == 0 {
                    " "@
                } else {
                    cell.contents@
                })
                &&& (cell.fg == CellColor::Default ==> p.fg == Paint::Reset)
                &&& (cell.fg matches CellColor::Idx(k) ==> p.fg == Paint::Indexed(k))
                &&& (cell.fg matches CellColor::Rgb(r, gr, b) ==> p.fg == Paint::Rgb(r, gr, b))
                &&& (cell.bg == CellColor::Default ==> p.bg == default_bg)
                &&& (cell.bg matches CellColor::Idx(k) ==> p.bg == Paint::Indexed(k))
                &&& (cell.bg matches CellColor::Rgb(r, gr, b) ==> p.bg == Paint::Rgb(r, gr, b))
                &&& cell.bold == p.bold
                &&& cell.italic == p.italic
                &&& cell.underline == p.underlined
                &&& cell.inverse == p.reversed
            },
{
}

/// Where the embedded screen is painted: each paint lies inside the screen,
/// the interior and the buffer, at a cell the emulator has, the paints come in
/// row-major order with no position twice, the cell just right of a painted
/// double-width character is not painted, and every other cell the emulator
/// has inside the screen, the interior and the buffer is painted.
pub proof fn lemma_screen_paint_placement(
    out: Seq<CellPaint>,
    g: ScreenGrid,
    area: Rect,
    buf: Rect,
    default_bg: Paint,
)
    requires
        screen_plan(out, g, area, buf, default_bg),
        grid_wf(g),
        buf.x + buf.width <= u16::MAX,
        buf.y + buf.height <= u16::MAX,
    ensures
        forall|i: int|
            0 <= i < out.len() ==> {
                let p = #[trigger] out[i];
                let r = p.y - area.y;
                let c = p.x - area.x;
                &&& 0 <= r < g.rows && r < area.height
                &&& 0 <= c < g.cols && c < area.width
                &&& buf.x <= p.x < buf.x + buf.width
                &&& buf.y <= p.y < buf.y + buf.height
                &&& g.cells@[r]@[c] is Some
            },
        forall|i: int, j: int|
            0 <= i < j < out.len() ==> (#[trigger] out[i]).y < (#[trigger] out[j]).y || (out[i].y
                == out[j].y && out[i].x < out[j].x),
        forall|i: int, j: int|
            0 <= i < out.len() && 0 <= j < out.len() && (#[trigger] out[i]).y == (
            #[trigger] out[j]).y && out[j].x == out[i].x + 1 ==> !g.cells@[out[i].y
                - area.y]@[out[i].x - area.x].unwrap().wide,
        forall|r: int, c: int|
            #![trigger g.cells@[r]@[c]]
            0 <= r < g.rows && r < area.height && 0 <= c < g.cols && c < area.width
                && g.cells@[r]@[c] is Some && buf.x <= area.x + c < buf.x + buf.width && buf.y
                <= area.y + r < buf.y + buf.height && (c == 0 || !g.cells@[r]@[c - 1].unwrap().wide
                || !(exists|k: int|
                0 <= k < out.len() && (#[trigger] out[k]).x == area.x + c - 1 && out[k].y == area.y
                    + r)) ==> exists|k: int|
                0 <= k < out.len() && (#[trigger] out[k]).x == area.x + c && out[k].y == area.y + r,
{
    assert forall|i: int, j: int|
        0 <= i < out.len() && 0 <= j < out.len() && (#[trigger] out[i]).y == (
        #[trigger] out[j]).y && out[j].x == out[i].x + 1 implies !g.cells@[out[i].y
            - area.y]@[out[i].x - area.x].unwrap().wide by {
        let r = out[i].y - area.y;
        let c = out[i].x - area.x;
        assert(screen_drawn(g, area, buf, r, c));
        assert(screen_drawn(g, area, buf, r, c + 1));
    }
    assert forall|r: int, c: int|
        #![trigger g.cells@[r]@[c]]
        0 <= r < g.rows && r < area.height && 0 <= c < g.cols && c < area.width
            && g.cells@[r]@[c] is Some && buf.x <= area.x + c < buf.x + buf.width && buf.y
            <= area.y + r < buf.y + buf.height && (c == 0 || !g.cells@[r]@[c - 1].unwrap().wide
            || !(exists|k: int|
            0 <= k < out.len() && (#[trigger] out[k]).x == area.x + c - 1 && out[k].y == area.y
                + r)) implies exists|k: int|
            0 <= k < out.len() && (#[trigger] out[k]).x == area.x + c && out[k].y == area.y + r by {
        if c > 0 && screen_drawn(g, area, buf, r, c - 1) {
            assert(has_paint_at(out, area.x + (c - 1), area.y + r));
        }
        assert(screen_drawn(g, area, buf, r, c));
        assert(has_paint_at(out, area.x + c, area.y + r));
    }
}

/// Each cell the backdrop paints shows its captured cell with the text dimmed
/// and nothing else changed: the cell's text (a space for an empty cell); the
/// foreground at two fifths of the text colour, rounded down (the default text
/// colour giving `(82, 85, 97)`), so no channel passes 102; the background
/// exactly as captured (default stays default, a palette index stays that
/// index, RGB stays that RGB); and no attribute added.
pub proof fn lemma_backdrop_paint_dims_text_only(
    out: Seq<CellPaint>,
    pane: PaneGrid,
    snap_area: Rect,
    area: Rect,
    buf: Rect,
)
    requires
        pane_plan(out, pane, snap_area, area, buf),
    ensures
        forall|i: int|
            0 <= i < out.len() ==> {
                let p = #[trigger] out[i];
                let row = p.y - (pane.rect.y - snap_area.y + area.y);
                let col = p.x - (pane.rect.x - snap_area.x + area.x);
                let cell = pane.grid.cells@[row]@[col].unwrap();
                &&& p.symbol@ == (if cell.contents@.len() == 0 {
                    " "@
                } else {
                    cell.contents@
                })
                &&& (cell.fg == CellColor::Default ==> p.fg == Paint::Rgb(82, 85, 97))
                &&& (cell.fg matches CellColor::Rgb(r, gr, b) ==> p.fg == Paint::Rgb(
                    (r * 2 / 5) as u8,
                    (gr * 2 / 5) as u8,
                    (b * 2 / 5) as u8,
                ))
                &&& (cell.fg matches CellColor::Idx(k) ==> p.fg == Paint::Rgb(
                    (spec_idx_to_rgb(k).0 * 2 / 5) as u8,
                    (spec_idx_to_rgb(k).1 * 2 / 5) as u8,
                    (spec_idx_to_rgb(k).2 * 2 / 5) as u8,
                ))
                &&& (p.fg matches Paint::Rgb(r, gr, b) && r <= 102 && gr <= 102 && b <= 102)
                &&& (cell.bg == CellColor::Default ==> p.bg == Paint::Reset)
                &&& (cell.bg matches CellColor::Idx(k) ==> p.bg == Paint::Indexed(k))
                &&& (cell.bg matches CellColor::Rgb(r, gr, b) ==> p.bg == Paint::Rgb(r, gr, b))
                &&& !p.bold && !p.italic && !p.underlined && !p.reversed
            },
{
    assert forall|i: int| 0 <= i < out.len() implies {
        let p = #[trigger] out[i];
        let row = p.y - (pane.rect.y - snap_area.y + area.y);
        let col = p.x - (pane.rect.x - snap_area.x + area.x);
        let cell = pane.grid.cells@[row]@[col].unwrap();
        &&& (cell.fg == CellColor::Default ==> p.fg == Paint::Rgb(82, 85, 97))
        &&& (cell.fg matches CellColor::Rgb(r, gr, b) ==> p.fg == Paint::Rgb(
            (r * 2 / 5) as u8,
            (gr * 2 / 5) as u8,
            (b * 2 / 5) as u8,
        ))
        &&& (cell.fg matches CellColor::Idx(k) ==> p.fg == Paint::Rgb(
            (spec_idx_to_rgb(k).0 * 2 / 5) as u8,
            (spec_idx_to_rgb(k).1 * 2 / 5) as u8,
            (spec_idx_to_rgb(k).2 * 2 / 5) as u8,
        ))
        &&& (p.fg matches Paint::Rgb(r, gr, b) && r <= 102 && gr <= 102 && b <= 102)
    } by {
        let p = out[i];
        let row = p.y - (pane.rect.y - snap_area.y + area.y);
        let col = p.x - (pane.rect.x - snap_area.x + area.x);
        lemma_dimmed_text(pane.grid.cells@[row]@[col].unwrap().fg);
    }
}

/// Where a captured pane is painted: each paint stands at its cell's place
/// moved by the pane's offset from the captured area's origin to the frame
/// area's origin, inside the pane, its screen, the frame area and the buffer,
/// at a cell the emulator has; the paints come in row-major order with no
/// position twice; the cell just right of a painted double-width character is
/// not painted; and a cell the emulator has whose place lies in the frame area
/// and the buffer is painted when it is the row's first or its left neighbour
/// is missing or not double-width.
pub proof fn lemma_backdrop_paint_placement(
    out: Seq<CellPaint>,
    pane: PaneGrid,
    snap_area: Rect,
    area: Rect,
    buf: Rect,
)
    requires
        pane_plan(out, pane, snap_area, area, buf),
        grid_wf(pane.grid),
        area.x + area.width <= u16::MAX,
        area.y + area.height <= u16::MAX,
        buf.x + buf.width <= u16::MAX,
        buf.y + buf.height <= u16::MAX,
    ensures
        forall|i: int|
            0 <= i < out.len() ==> {
                let p = #[trigger] out[i];
                let r = p.y - (pane.rect.y - snap_area.y + area.y);
                let c = p.x - (pane.rect.x - snap_area.x + area.x);
                &&& 0 <= r < pane.grid.rows && r < pane.rect.height
                &&& 0 <= c < pane.grid.cols && c < pane.rect.width
                &&& area.x <= p.x < area.x + area.width
                &&& area.y <= p.y < area.y + area.height
                &&& buf.x <= p.x < buf.x + buf.width
                &&& buf.y <= p.y < buf.y + buf.height
                &&& pane.grid.cells@[r]@[c] is Some
            },
        forall|i: int, j: int|
            0 <= i < j < out.len() ==> (#[trigger] out[i]).y < (#[trigger] out[j]).y || (out[i].y
                == out[j].y && out[i].x < out[j].x),
        forall|i: int, j: int|
            0 <= i < out.len() && 0 <= j < out.len() && (#[trigger] out[i]).y == (
            #[trigger] out[j]).y && out[j].x == out[i].x + 1 ==> !pane.grid.cells@[out[i].y - (
            pane.rect.y - snap_area.y + area.y)]@[out[i].x - (pane.rect.x - snap_area.x
                + area.x)].unwrap().wide,
        forall|r: int, c: int|
            #![trigger pane.grid.cells@[r]@[c]]
            0 <= r < pane.grid.rows && r < pane.rect.height && 0 <= c < pane.grid.cols && c
                < pane.rect.width && pane.grid.cells@[r]@[c] is Some && area.x <= pane.rect.x
                - snap_area.x + area.x + c < area.x + area.width && area.y <= pane.rect.y
                - snap_area.y + area.y + r < area.y + area.height && buf.x <= pane.rect.x
                - snap_area.x + area.x + c < buf.x + buf.width && buf.y <= pane.rect.y
                - snap_area.y + area.y + r < buf.y + buf.height && (c == 0
                || pane.grid.cells@[r]@[c - 1] is None || !pane.grid.cells@[r]@[c
                - 1].unwrap().wide) ==> exists|k: int|
                0 <= k < out.len() && (#[trigger] out[k]).x == pane.rect.x - snap_area.x + area.x
                    + c && out[k].y == pane.rect.y - snap_area.y + area.y + r,
{
    let ox = pane_origin_x(pane.rect, snap_area, area);
    let oy = pane_origin_y(pane.rect, snap_area, area);
    assert forall|i: int, j: int|
        0 <= i < out.len() && 0 <= j < out.len() && (#[trigger] out[i]).y == (
        #[trigger] out[j]).y && out[j].x == out[i].x + 1 implies !pane.grid.cells@[out[i].y - (
        pane.rect.y - snap_area.y + area.y)]@[out[i].x - (pane.rect.x - snap_area.x
            + area.x)].unwrap().wide by {
        let r = out[i].y - oy;
        let c = out[i].x - ox;
        assert(pane_drawn(pane.grid, pane.rect, snap_area, area, buf, r, c));
        assert(pane_drawn(pane.grid, pane.rect, snap_area, area, buf, r, c + 1));
    }
    assert forall|r: int, c: int|
        #![trigger pane.grid.cells@[r]@[c]]
        0 <= r < pane.grid.rows && r < pane.rect.height && 0 <= c < pane.grid.cols && c
            < pane.rect.width && pane.grid.cells@[r]@[c] is Some && area.x <= pane.rect.x
            - snap_area.x + area.x + c < area.x + area.width && area.y <= pane.rect.y
            - snap_area.y + area.y + r < area.y + area.height && buf.x <= pane.rect.x
            - snap_area.x + area.x + c < buf.x + buf.width && buf.y <= pane.rect.y
            - snap_area.y + area.y + r < buf.y + buf.height && (c == 0
            || pane.grid.cells@[r]@[c - 1] is None || !pane.grid.cells@[r]@[c
            - 1].unwrap().wide) implies exists|k: int|
            0 <= k < out.len() && (#[trigger] out[k]).x == pane.rect.x - snap_area.x + area.x
                + c && out[k].y == pane.rect.y - snap_area.y + area.y + r by {
        if c > 0 && pane.grid.cells@[r]@[c - 1] is None {
            assert(!pane_visited(pane.grid, pane.rect, r, c - 1));
        }
        assert(pane_visited(pane.grid, pane.rect, r, c));
        assert(pane_drawn(pane.grid, pane.rect, snap_area, area, buf, r, c));
        assert(has_paint_at(out, ox + c, oy + r));
    }
}

/// Whether frame position `(x, y)` (as `i32`) lies in the frame area.
fn area_has(area: Rect, x: i32, y: i32) -> (b: bool)
    ensures
        b == (area.x <= x < sat_add(area.x, area.width) && area.y <= y < sat_add(
            area.y,
            area.height,
        )),
{
    !(x < area.x as i32 || y < area.y as i32 || x >= area.right() as i32 || y
        >= area.bottom() as i32)
}

/// Paint one captured pane into the backdrop with dimmed text.
fn render_pane_dimmed(pane: &PaneGrid, snap_area: Rect, area: Rect, buf: Rect) -> (out: Vec<
    CellPaint,
>)
    requires
        grid_wf(pane.grid),
    ensures
        pane_plan(out@, *pane, snap_area, area, buf),
{
    let grid = &pane.grid;
    let ox = pane.rect.x as i32 - snap_area.x as i32 + area.x as i32;
    let oy = pane.rect.y as i32 - snap_area.y as i32 + area.y as i32;
    let rows = if grid.rows <= pane.rect.height {
        grid.rows
    } else {
        pane.rect.height
    };
    let cols = if grid.cols <= pane.rect.width {
        grid.cols
    } else {
        pane.rect.width
    };
    let mut out: Vec<CellPaint> = Vec::new();
    let mut r: u16 = 0;
    while r < rows
        invariant
            grid_wf(*grid),
            *grid == pane.grid,
            ox == pane_origin_x(pane.rect, snap_area, area),
            oy == pane_origin_y(pane.rect, snap_area, area),
            rows == min_int(grid.rows as int, pane.rect.height as int),
            cols == min_int(grid.cols as int, pane.rect.width as int),
            r <= rows,
            forall|i: int|
                0 <= i < out@.len() ==> {
                    let p = #[trigger] out@[i];
                    let pr = p.y - oy;
                    let pc = p.x - ox;
                    &&& pr < r
                    &&& pane_drawn(*grid, pane.rect, snap_area, area, buf, pr, pc)
                    &&& dimmed_paint_ok(p, cell_at(*grid, pr, pc).unwrap())
                },
            row_major(out@),
            forall|rr: int, cc: int|
                rr < r && #[trigger] pane_drawn(*grid, pane.rect, snap_area, area, buf, rr, cc)
                    ==> has_paint_at(out@, ox + cc, oy + rr),
        decreases rows - r,
    {
        let row = &grid.cells[r as usize];
        let mut skip_next = false;
        let mut c: u16 = 0;
        while c < cols
            invariant
                grid_wf(*grid),
                *grid == pane.grid,
                ox == pane_origin_x(pane.rect, snap_area, area),
                oy == pane_origin_y(pane.rect, snap_area, area),
                rows == min_int(grid.rows as int, pane.rect.height as int),
                cols == min_int(grid.cols as int, pane.rect.width as int),
                r < rows,
                *row == grid.cells@[r as int],
                c <= cols,
                skip_next == (c > 0 && pane_visited(*grid, pane.rect, r as int, c - 1) && cell_at(
                    *grid,
                    r as int,
                    c - 1,
                ).unwrap().wide),
                forall|i: int|
                    0 <= i < out@.len() ==> {
                        let p = #[trigger] out@[i];
                        let pr = p.y - oy;
                        let pc = p.x - ox;
                        &&& pr < r || (pr == r && pc < c)
                        &&& pane_drawn(*grid, pane.rect, snap_area, area, buf, pr, pc)
                        &&& dimmed_paint_ok(p, cell_at(*grid, pr, pc).unwrap())
                    },
                row_major(out@),
                forall|rr: int, cc: int|
                    (rr < r || (rr == r && cc < c)) && #[trigger] pane_drawn(
                        *grid,
                        pane.rect,
                        snap_area,
                        area,
                        buf,
                        rr,
                        cc,
                    ) ==> has_paint_at(out@, ox + cc, oy + rr),
            decreases cols - c,
        {
            assert(row@.len() == grid.cols);
            let ghost visited_here = pane_visited(*grid, pane.rect, r as int, c as int);
            let ghost drawn_here = pane_drawn(
                *grid,
                pane.rect,
                snap_area,
                area,
                buf,
                r as int,
                c as int,
            );
            if skip_next {
                skip_next = false;
                assert(!visited_here);
            } else {
                match &row[c as usize] {
                    None => {
                        assert(!visited_here);
                    },
                    Some(cell) => {
                        assert(visited_here);
                        skip_next = cell.wide;
                        let x = ox + c as i32;
                        let y = oy + r as i32;
                        if area_has(area, x, y) && buffer_has(buf, x as u16, y as u16) {
                            assert(drawn_here);
                            let p = CellPaint {
                                x: x as u16,
                                y: y as u16,
                                symbol: symbol_for(&cell.contents),
                                fg: dim_fg(cell.fg),
                                bg: conv_color(cell.bg),
                                bold: false,
                                italic: false,
                                underlined: false,
                                reversed: false,
                            };
                            let ghost old_out = out@;
                            out.push(p);
                            proof {
                                assert forall|i: int, j: int|
                                    0 <= i < j < out@.len() implies before(
                                    (#[trigger] out@[i]).x as int,
                                    out@[i].y as int,
                                    (#[trigger] out@[j]).x as int,
                                    out@[j].y as int,
                                ) by {
                                    if j == old_out.len() {
                                        assert(out@[i] == old_out[i]);
                                    } else {
                                        assert(out@[i] == old_out[i]);
                                        assert(out@[j] == old_out[j]);
                                    }
                                }
                                assert forall|rr: int, cc: int|
                                    (rr < r || (rr == r && cc < c + 1)) && #[trigger] pane_drawn(
                                        *grid,
                                        pane.rect,
                                        snap_area,
                                        area,
                                        buf,
                                        rr,
                                        cc,
                                    ) implies has_paint_at(out@, ox + cc, oy + rr) by {
                                    if rr == r && cc == c {
                                        assert(out@[old_out.len() as int] == p);
                                    } else {
                                        let k = choose|k: int|
                                            0 <= k < old_out.len() && (#[trigger] old_out[k]).x
                                                == ox + cc && old_out[k].y == oy + rr;
                                        assert(out@[k] == old_out[k]);
                                    }
                                }
                            }
                        } else {
                            assert(!drawn_here);
                        }
                    },
                }
            }
            c = c + 1;
        }
        r = r + 1;
    }
    out
}

/// Paint the captured workspace panes into the backdrop with dimmed text, one
/// list of paints per pane, in the panes' order. Background colours pass
/// through unchanged, so the margin looks like the workspace, only quieter.
/// Pane coordinates are client cells; they map into the frame area `area` by
/// subtracting the captured area's origin.
pub fn render_snapshot_dimmed(panes: &Vec<PaneGrid>, snap_area: Rect, area: Rect, buf: Rect) -> (out:
    Vec<Vec<CellPaint>>)
    requires
        forall|k: int| 0 <= k < panes@.len() ==> grid_wf((#[trigger] panes@[k]).grid),
    ensures
        out@.len() == panes@.len(),
        forall|k: int|
            0 <= k < panes@.len() ==> pane_plan(
                (#[trigger] out@[k])@,
                panes@[k],
                snap_area,
                area,
                buf,
            ),
{
    let mut out: Vec<Vec<CellPaint>> = Vec::new();
    let mut k: usize = 0;
    while k < panes.len()
        invariant
            k <= panes@.len(),
            out@.len() == k,
            forall|j: int| 0 <= j < panes@.len() ==> grid_wf((#[trigger] panes@[j]).grid),
            forall|j: int|
                0 <= j < k ==> pane_plan((#[trigger] out@[j])@, panes@[j], snap_area, area, buf),
        decreases panes@.len() - k,
    {
        let plan = render_pane_dimmed(&panes[k], snap_area, area, buf);
        out.push(plan);
        k = k + 1;
    }
    out
}

} // verus!
