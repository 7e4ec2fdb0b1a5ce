//! Colours: those a terminal emulator reports for a cell, those the renderer
//! paints with, the xterm 256-colour palette and the dimming of backdrop text.
use vstd::prelude::*;

verus! {

/// A cell colour as the terminal emulator reports it.
#[derive(Debug, Clone, Copy, PartialEq, Eq, Structural)]
pub enum CellColor {
    /// The terminal's default colour.
    Default,
    /// An index into the 256-colour palette.
    Idx(u8),
    /// A 24-bit colour.
    Rgb(u8, u8, u8),
}

/// A colour to paint a frame cell with.
#[derive(Debug, Clone, Copy, PartialEq, Eq, Structural)]
pub enum Paint {
    /// The terminal's own default.
    Reset,
    /// An index into the 256-colour palette.
    Indexed(u8),
    /// A 24-bit colour.
    Rgb(u8, u8, u8),
    /// The palette's magenta.
    Magenta,
    /// The palette's dark gray.
    DarkGray,
}

/// A cell colour painted as it is: default as reset, index as index, RGB as RGB.
pub open spec fn spec_conv_color(c: CellColor) -> Paint {
    match c {
        CellColor::Default => Paint::Reset,
        CellColor::Idx(i) => Paint::Indexed(i),
        CellColor::Rgb(r, g, b) => Paint::Rgb(r, g, b),
    }
}

/// Paint a cell colour as it is.
pub fn conv_color(c: CellColor) -> (r: Paint)
    ensures
        r == spec_conv_color(c),
        c == CellColor::Default ==> r == Paint::Reset,
        c matches CellColor::Idx(i) ==> r == Paint::Indexed(i),
        c matches CellColor::Rgb(x, y, z) ==> r == Paint::Rgb(x, y, z),
{
    match c {
        CellColor::Default => Paint::Reset,
        CellColor::Idx(i) => Paint::Indexed(i),
        CellColor::Rgb(r, g, b) => Paint::Rgb(r, g, b),
    }
}

/// The sixteen base colours (common defaults for palette entries 0..=15).
pub open spec fn base16(i: u8) -> (u8, u8, u8) {
    if i == 0 {
        (0, 0, 0)
    } else if i == 1 {
        (205, 49, 49)
    } else if i == 2 {
        (13, 188, 121)
    } else if i == 3 {
        (229, 229, 16)
    } else if i == 4 {
        (36, 114, 200)
    } else if i == 5 {
        (188, 63, 188)
    } else if i == 6 {
        (17, 168, 205)
    } else if i == 7 {
        (229, 229, 229)
    } else if i == 8 {
        (102, 102, 102)
    } else if i == 9 {
        (241, 76, 76)
    } else if i == 10 {
        (35, 209, 139)
    } else if i == 11 {
        (245, 245, 67)
    } else if i == 12 {
        (59, 142, 234)
    } else if i == 13 {
        (214, 112, 214)
    } else if i == 14 {
        (41, 184, 219)
    } else {
        (255, 255, 255)
    }
}

/// One channel of the 6×6×6 colour cube: level 0 is 0, level `v` is `55 + 40v`.
pub open spec fn cube_level(v: int) -> u8 {
    if v == 0 {
        0
    } else {
        (55 + v * 40) as u8
    }
}

/// The xterm 256-colour palette: the base colours, then the colour cube
/// (entries 16..=231), then the gray ramp `8 + 10k` (entries 232..=255).
pub open spec fn spec_idx_to_rgb(i: u8) -> (u8, u8, u8) {
    if i <= 15 {
        base16(i)
    } else if i <= 231 {
        let n = i - 16;
        (cube_level(n / 36), cube_level((n / 6) % 6), cube_level(n % 6))
    } else {
        let v = (8 + (i - 232) * 10) as u8;
        (v, v, v)
    }
}

fn base16_rgb(i: u8) -> (r: (u8, u8, u8))
    requires
        i <= 15,
    ensures
        r == base16(i),
{
    match i {
        0 => (0, 0, 0),
        1 => (205, 49, 49),
        2 => (13, 188, 121),
        3 => (229, 229, 16),
        4 => (36, 114, 200),
        5 => (188, 63, 188),
        6 => (17, 168, 205),
        7 => (229, 229, 229),
        8 => (102, 102, 102),
        9 => (241, 76, 76),
        10 => (35, 209, 139),
        11 => (245, 245, 67),
        12 => (59, 142, 234),
        13 => (214, 112, 214),
        14 => (41, 184, 219),
        _ => (255, 255, 255),
    }
}

fn level(v: u8) -> (r: u8)
    requires
        v <= 5,
    ensures
        r == cube_level(v as int),
{
    if v == 0 {
        0
    } else {
        55 + v * 40
    }
}

/// xterm 256-color index → RGB (standard palette; 0–15 use common defaults).
pub fn idx_to_rgb(i: u8) -> (r: (u8, u8, u8))
    ensures
        r == spec_idx_to_rgb(i),
        i == 0 ==> r == (0u8, 0u8, 0u8),
        i == 1 ==> r == (205u8, 49u8, 49u8),
        i == 2 ==> r == (13u8, 188u8, 121u8),
        i == 3 ==> r == (229u8, 229u8, 16u8),
        i == 4 ==> r == (36u8, 114u8, 200u8),
        i == 5 ==> r == (188u8, 63u8, 188u8),
        i == 6 ==> r == (17u8, 168u8, 205u8),
        i == 7 ==> r == (229u8, 229u8, 229u8),
        i == 8 ==> r == (102u8, 102u8, 102u8),
        i == 9 ==> r == (241u8, 76u8, 76u8),
        i == 10 ==> r == (35u8, 209u8, 139u8),
        i == 11 ==> r == (245u8, 245u8, 67u8),
        i == 12 ==> r == (59u8, 142u8, 234u8),
        i == 13 ==> r == (214u8, 112u8, 214u8),
        i == 14 ==> r == (41u8, 184u8, 219u8),
        i == 15 ==> r == (255u8, 255u8, 255u8),
        16 <= i <= 231 ==> r == (
            (if (i - 16) / 36 == 0 { 0 } else { 55 + 40 * ((i - 16) / 36) }) as u8,
            (if (i - 16) / 6 % 6 == 0 { 0 } else { 55 + 40 * ((i - 16) / 6 % 6) }) as u8,
            (if (i - 16) % 6 == 0 { 0 } else { 55 + 40 * ((i - 16) % 6) }) as u8,
        ),
        i >= 232 ==> r == (
            (8 + 10 * (i - 232)) as u8,
            (8 + 10 * (i - 232)) as u8,
            (8 + 10 * (i - 232)) as u8,
        ),
{
    proof {
        lemma_palette_table(i);
    }
    if i <= 15 {
        base16_rgb(i)
    } else if i <= 231 {
        let n = i - 16;
        (level(n / 36), level((n / 6) % 6), level(n % 6))
    } else {
        let v = 8 + (i - 232) * 10;
        (v, v, v)
    }
}

/// One channel scaled by `num/den`, truncated to a byte as an `as u8` cast
/// does.
pub open spec fn scale_channel(v: u8, num: u16, den: u16) -> u8 {
    ((v as int * num as int / den as int) % 256) as u8
}

/// Each channel scaled by `num/den` (which must not overflow a `u16` product).
pub open spec fn spec_scale_rgb(r: u8, g: u8, b: u8, num: u16, den: u16) -> Paint {
    Paint::Rgb(scale_channel(r, num, den), scale_channel(g, num, den), scale_channel(b, num, den))
}

fn scale_one(v: u8, num: u16, den: u16) -> (r: u8)
    requires
        den > 0,
        v as int * num as int <= u16::MAX,
    ensures
        r == scale_channel(v, num, den),
{
    let p = (v as u16) * num;
    ((p / den) % 256) as u8
}

/// Scale the three channels of a colour by `num/den`.
pub fn scale_rgb(r: u8, g: u8, b: u8, num: u16, den: u16) -> (p: Paint)
    requires
        den > 0,
        r as int * num as int <= u16::MAX,
        g as int * num as int <= u16::MAX,
        b as int * num as int <= u16::MAX,
    ensures
        p == spec_scale_rgb(r, g, b, num, den),
        p == Paint::Rgb(
            ((r * num / (den as int)) % 256) as u8,
            ((g * num / (den as int)) % 256) as u8,
            ((b * num / (den as int)) % 256) as u8,
        ),
{
    Paint::Rgb(scale_one(r, num, den), scale_one(g, num, den), scale_one(b, num, den))
}

/// The RGB value text of a colour is taken to have: the soft white
/// `(205, 214, 244)` for the default, the palette entry for an index.
pub open spec fn text_rgb(c: CellColor) -> (u8, u8, u8) {
    match c {
        CellColor::Default => (205, 214, 244),
        CellColor::Idx(i) => spec_idx_to_rgb(i),
        CellColor::Rgb(r, g, b) => (r, g, b),
    }
}

/// A foreground colour dimmed to 2/5 of its brightness.
pub open spec fn spec_dim_fg(c: CellColor) -> Paint {
    let (r, g, b) = text_rgb(c);
    spec_scale_rgb(r, g, b, 2, 5)
}

/// Dim a foreground color to ~40% so the backdrop reads as inactive.
pub fn dim_fg(c: CellColor) -> (p: Paint)
    ensures
        p == spec_dim_fg(c),
        c == CellColor::Default ==> p == Paint::Rgb(82, 85, 97),
        c matches CellColor::Rgb(r, g, b) ==> p == Paint::Rgb(
            (r * 2 / 5) as u8,
            (g * 2 / 5) as u8,
            (b * 2 / 5) as u8,
        ),
        c matches CellColor::Idx(k) ==> p == Paint::Rgb(
            (spec_idx_to_rgb(k).0 * 2 / 5) as u8,
            (spec_idx_to_rgb(k).1 * 2 / 5) as u8,
            (spec_idx_to_rgb(k).2 * 2 / 5) as u8,
        ),
        p matches Paint::Rgb(r, g, b) && r <= 102 && g <= 102 && b <= 102,
{
    proof {
        lemma_dimmed_text(c);
    }
    let (r, g, b) = match c {
        CellColor::Default => (205, 214, 244),
        CellColor::Idx(i) => idx_to_rgb(i),
        CellColor::Rgb(r, g, b) => (r, g, b),
    };
    scale_rgb(r, g, b, 2, 5)
}

/// Dimmed text is an RGB colour whose every channel is two fifths of the
/// text's channel, rounded down, and so at most 102.
pub proof fn lemma_dim_is_two_fifths(c: CellColor)
    ensures
        spec_dim_fg(c) == Paint::Rgb(
            (text_rgb(c).0 as int * 2 / 5) as u8,
            (text_rgb(c).1 as int * 2 / 5) as u8,
            (text_rgb(c).2 as int * 2 / 5) as u8,
        ),
        text_rgb(c).0 as int * 2 / 5 <= 102,
        text_rgb(c).1 as int * 2 / 5 <= 102,
        text_rgb(c).2 as int * 2 / 5 <= 102,
{
}

/// The gray ramp rises by 10 from 8 at entry 232 to 238 at entry 255, and the
/// colour cube's channels take only the levels 0, 95, 135, 175, 215 and 255.
pub proof fn lemma_palette_ranges(i: u8)
    ensures
        i >= 232 ==> spec_idx_to_rgb(i) == (
            (8 + (i - 232) * 10) as u8,
            (8 + (i - 232) * 10) as u8,
            (8 + (i - 232) * 10) as u8,
        ) && 8 <= 8 + (i - 232) * 10 <= 238,
        16 <= i <= 231 ==> {
            let (r, g, b) = spec_idx_to_rgb(i);
            &&& (r == 0 || r == 95 || r == 135 || r == 175 || r == 215 || r == 255)
            &&& (g == 0 || g == 95 || g == 135 || g == 175 || g == 215 || g == 255)
            &&& (b == 0 || b == 95 || b == 135 || b == 175 || b == 215 || b == 255)
        },
{
}

/// The xterm 256-colour palette, entry by entry: the sixteen base colours of
/// its table, the 6x6x6 colour cube whose channel levels are 0 and then
/// `55 + 40k`, and the gray ramp `8 + 10k`.
pub proof fn lemma_palette_table(i: u8)
    ensures
        i == 0 ==> spec_idx_to_rgb(i) == (0u8, 0u8, 0u8),
        i == 1 ==> spec_idx_to_rgb(i) == (205u8, 49u8, 49u8),
        i == 2 ==> spec_idx_to_rgb(i) == (13u8, 188u8, 121u8),
        i == 3 ==> spec_idx_to_rgb(i) == (229u8, 229u8, 16u8),
        i == 4 ==> spec_idx_to_rgb(i) == (36u8, 114u8, 200u8),
        i == 5 ==> spec_idx_to_rgb(i) == (188u8, 63u8, 188u8),
        i == 6 ==> spec_idx_to_rgb(i) == (17u8, 168u8, 205u8),
        i == 7 ==> spec_idx_to_rgb(i) == (229u8, 229u8, 229u8),
        i == 8 ==> spec_idx_to_rgb(i) == (102u8, 102u8, 102u8),
        i == 9 ==> spec_idx_to_rgb(i) == (241u8, 76u8, 76u8),
        i == 10 ==> spec_idx_to_rgb(i) == (35u8, 209u8, 139u8),
        i == 11 ==> spec_idx_to_rgb(i) == (245u8, 245u8, 67u8),
        i == 12 ==> spec_idx_to_rgb(i) == (59u8, 142u8, 234u8),
        i == 13 ==> spec_idx_to_rgb(i) == (214u8, 112u8, 214u8),
        i == 14 ==> spec_idx_to_rgb(i) == (41u8, 184u8, 219u8),
        i == 15 ==> spec_idx_to_rgb(i) == (255u8, 255u8, 255u8),
        16 <= i <= 231 ==> spec_idx_to_rgb(i) == (
            (if (i - 16) / 36 == 0 { 0 } else { 55 + 40 * ((i - 16) / 36) }) as u8,
            (if (i - 16) / 6 % 6 == 0 { 0 } else { 55 + 40 * ((i - 16) / 6 % 6) }) as u8,
            (if (i - 16) % 6 == 0 { 0 } else { 55 + 40 * ((i - 16) % 6) }) as u8,
        ),
        i >= 232 ==> spec_idx_to_rgb(i) == (
            (8 + 10 * (i - 232)) as u8,
            (8 + 10 * (i - 232)) as u8,
            (8 + 10 * (i - 232)) as u8,
        ),
{
}

/// Dimmed text is RGB at two fifths of the text's colour, rounded down: the
/// default text colour `(205, 214, 244)` becomes `(82, 85, 97)`, an RGB colour
/// is scaled channel by channel, a palette entry is looked up and scaled; no
/// channel of the result passes 102.
pub proof fn lemma_dimmed_text(c: CellColor)
    ensures
        c == CellColor::Default ==> spec_dim_fg(c) == Paint::Rgb(82, 85, 97),
        c matches CellColor::Rgb(r, g, b) ==> spec_dim_fg(c) == Paint::Rgb(
            (r * 2 / 5) as u8,
            (g * 2 / 5) as u8,
            (b * 2 / 5) as u8,
        ),
        c matches CellColor::Idx(k) ==> spec_dim_fg(c) == Paint::Rgb(
            (spec_idx_to_rgb(k).0 * 2 / 5) as u8,
            (spec_idx_to_rgb(k).1 * 2 / 5) as u8,
            (spec_idx_to_rgb(k).2 * 2 / 5) as u8,
        ),
        spec_dim_fg(c) matches Paint::Rgb(r, g, b) && r <= 102 && g <= 102 && b <= 102,
{
}

} // verus!
