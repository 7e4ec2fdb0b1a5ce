//! Floating-box configuration: size percentages, colours, border style, title
//! and the key hint shown in the bottom border.
//!
//! Precedence: built-in defaults < `KEY=VALUE` lines of the configuration file
//! < environment overrides. Each layer goes through [`Config::set`], so a key
//! set by a later layer with a value that parses replaces what an earlier
//! layer gave it, and a value that does not parse changes nothing.
use vstd::prelude::*;
use vstd::string::StringExecFns;

use crate::text::{
    chars_of, find_char, first_index, lemma_first_index, lemma_first_index_at, lemma_first_index_before,
    lemma_first_index_bounds, lemma_split_last, lemma_split_last_when_absent, lemma_split_step,
    is_whitespace, is_ws, parse_u16_range, trim_end, trim_start,
    spec_parse_u16, split_on, str_eq, trim, trim_range,
};

verus! {

/// Corner style for the floating box border.
#[derive(Debug, Clone, Copy, PartialEq, Eq, Structural)]
pub enum BorderKind {
    Rounded,
    Plain,
}

#[derive(Debug, PartialEq, Eq)]
pub struct Config {
    /// Box width as a percentage of the pane, clamped to 20..=100.
    pub width_pct: u16,
    /// Box height as a percentage of the pane, clamped to 20..=100.
    pub height_pct: u16,
    /// The toggle key shown in the bottom-border hint (display only).
    pub key_hint: String,
    /// Backdrop fill color (RGB), drawn around the floating box.
    pub backdrop: (u8, u8, u8),
    /// Border color (RGB). `None` keeps the terminal-palette magenta default.
    pub border: Option<(u8, u8, u8)>,
    /// Border corner style.
    pub border_type: BorderKind,
    /// Title shown in the top border. Empty means auto: the last component of
    /// the directory the shell starts in, falling back to "floax".
    pub title: String,
    /// Box background (RGB) painted wherever the embedded screen has no
    /// explicit background, border rows included. `None` passes default
    /// backgrounds through.
    pub box_bg: Option<(u8, u8, u8)>,
}

/// The value of a [`Config`], its strings taken as sequences of characters.
pub struct ConfigView {
    pub width_pct: u16,
    pub height_pct: u16,
    pub key_hint: Seq<char>,
    pub backdrop: (u8, u8, u8),
    pub border: Option<(u8, u8, u8)>,
    pub border_type: BorderKind,
    pub title: Seq<char>,
    pub box_bg: Option<(u8, u8, u8)>,
}

impl View for Config {
    type V = ConfigView;

    open spec fn view(&self) -> ConfigView {
        ConfigView {
            width_pct: self.width_pct,
            height_pct: self.height_pct,
            key_hint: self.key_hint@,
            backdrop: self.backdrop,
            border: self.border,
            border_type: self.border_type,
            title: self.title@,
            box_bg: self.box_bg,
        }
    }
}

/// The built-in defaults: a generous 94%×92% box, the hint `prefix+f`, a deep
/// green backdrop `#0d2b1d`, magenta rounded border, automatic title and
/// pass-through box background.
pub open spec fn default_view() -> ConfigView {
    ConfigView {
        width_pct: 94,
        height_pct: 92,
        key_hint: "prefix+f"@,
        backdrop: (0x0d, 0x2b, 0x1d),
        border: None,
        border_type: BorderKind::Rounded,
        title: Seq::empty(),
        box_bg: None,
    }
}

impl Clone for Config {
    fn clone(&self) -> (c: Self)
        ensures
            c@ == self@,
    {
        Config {
            width_pct: self.width_pct,
            height_pct: self.height_pct,
            key_hint: self.key_hint.clone(),
            backdrop: self.backdrop,
            border: self.border,
            border_type: self.border_type,
            title: self.title.clone(),
            box_bg: self.box_bg,
        }
    }
}

impl Default for Config {
    fn default() -> (c: Self)
        ensures
            c@ == default_view(),
    {
        Config {
            width_pct: 94,
            height_pct: 92,
            key_hint: "prefix+f".to_owned(),
            backdrop: (0x0d, 0x2b, 0x1d),
            border: None,
            border_type: BorderKind::Rounded,
            title: String::new(),
            box_bg: None,
        }
    }
}

/// A percentage clamped to 20..=100.
pub open spec fn spec_clamp_pct(n: u16) -> u16 {
    if n < 20 {
        20
    } else if n > 100 {
        100
    } else {
        n
    }
}

/// `s` without its leading `#` characters (all of them, as
/// `trim_start_matches('#')` removes them).
pub open spec fn strip_hashes(s: Seq<char>) -> Seq<char>
    decreases s.len(),
{
    if s.len() > 0 && s[0] == '#' {
        strip_hashes(s.drop_first())
    } else {
        s
    }
}

/// The value of an ASCII hexadecimal digit, either case.
pub open spec fn hex_value(c: char) -> Option<int> {
    let u = c as u32;
    if 48 <= u <= 57 {
        Some(u - 48)
    } else if 97 <= u <= 102 {
        Some(u - 87)
    } else if 65 <= u <= 70 {
        Some(u - 55)
    } else {
        None
    }
}

/// The byte that two hexadecimal digits spell, most significant first.
pub open spec fn hex_byte(hi: char, lo: char) -> u8 {
    (hex_value(hi).unwrap() * 16 + hex_value(lo).unwrap()) as u8
}

/// `#rrggbb` (any number of leading `#`, surrounding whitespace allowed) as an
/// RGB triple; `None` unless exactly six hexadecimal digits remain.
pub open spec fn spec_parse_hex_color(s: Seq<char>) -> Option<(u8, u8, u8)> {
    let h = strip_hashes(trim(s));
    if h.len() == 6 && (forall|i: int| 0 <= i < 6 ==> (#[trigger] hex_value(h[i])) is Some) {
        Some((hex_byte(h[0], h[1]), hex_byte(h[2], h[3]), hex_byte(h[4], h[5])))
    } else {
        None
    }
}

/// The hexadecimal digit for `v` in `0..16`, in lower or upper case.
pub open spec fn hex_char(v: int, upper: bool) -> char {
    if v < 10 {
        (48 + v) as char
    } else if upper {
        (55 + v) as char
    } else {
        (87 + v) as char
    }
}

/// The six hexadecimal digits of a colour, two per channel, most significant
/// first.
pub open spec fn hex_text(r: u8, g: u8, b: u8, upper: bool) -> Seq<char> {
    seq![
        hex_char(r as int / 16, upper),
        hex_char(r as int % 16, upper),
        hex_char(g as int / 16, upper),
        hex_char(g as int % 16, upper),
        hex_char(b as int / 16, upper),
        hex_char(b as int % 16, upper),
    ]
}

proof fn lemma_hex_char(v: int, upper: bool)
    requires
        0 <= v < 16,
    ensures
        hex_value(hex_char(v, upper)) == Some(v),
        !is_ws(hex_char(v, upper)),
        hex_char(v, upper) != '#',
{
}

/// A colour written as six hexadecimal digits, in either case, with or
/// without a leading `#`, reads back as that colour.
pub proof fn lemma_hex_round_trip(r: u8, g: u8, b: u8, upper: bool)
    ensures
        spec_parse_hex_color(hex_text(r, g, b, upper)) == Some((r, g, b)),
        spec_parse_hex_color(seq!['#'] + hex_text(r, g, b, upper)) == Some((r, g, b)),
{
    let h = hex_text(r, g, b, upper);
    lemma_hex_char(r as int / 16, upper);
    lemma_hex_char(r as int % 16, upper);
    lemma_hex_char(g as int / 16, upper);
    lemma_hex_char(g as int % 16, upper);
    lemma_hex_char(b as int / 16, upper);
    lemma_hex_char(b as int % 16, upper);
    assert(trim_start(h) == h);
    assert(trim_end(h) == h);
    assert(strip_hashes(h) == h);
    assert(forall|i: int| 0 <= i < 6 ==> (#[trigger] hex_value(h[i])) is Some);
    assert(hex_byte(h[0], h[1]) == r);
    assert(hex_byte(h[2], h[3]) == g);
    assert(hex_byte(h[4], h[5]) == b);
    let hh = seq!['#'] + h;
    assert(hh[0] == '#' && !is_ws(hh[0]));
    assert(trim_start(hh) == hh);
    assert(hh.last() == h.last());
    assert(trim_end(hh) == hh);
    assert(hh.drop_first() =~= h);
    assert(strip_hashes(hh) == h);
}

/// What setting `key` to `val` makes of `c`. Unknown keys and values that do
/// not parse leave `c` as it is.
pub open spec fn spec_set(c: ConfigView, key: Seq<char>, val: Seq<char>) -> ConfigView {
    if key == "width_pct"@ {
        match spec_parse_u16(val) {
            Some(n) => ConfigView { width_pct: spec_clamp_pct(n), ..c },
            None => c,
        }
    } else if key == "height_pct"@ {
        match spec_parse_u16(val) {
            Some(n) => ConfigView { height_pct: spec_clamp_pct(n), ..c },
            None => c,
        }
    } else if key == "key_hint"@ {
        if val.len() > 0 {
            ConfigView { key_hint: val, ..c }
        } else {
            c
        }
    } else if key == "backdrop"@ {
        match spec_parse_hex_color(val) {
            Some(rgb) => ConfigView { backdrop: rgb, ..c },
            None => c,
        }
    } else if key == "border"@ {
        match spec_parse_hex_color(val) {
            Some(rgb) => ConfigView { border: Some(rgb), ..c },
            None => c,
        }
    } else if key == "border_type"@ {
        if val == "plain"@ {
            ConfigView { border_type: BorderKind::Plain, ..c }
        } else if val == "rounded"@ {
            ConfigView { border_type: BorderKind::Rounded, ..c }
        } else {
            c
        }
    } else if key == "title"@ {
        if val.len() > 0 {
            ConfigView { title: val, ..c }
        } else {
            c
        }
    } else if key == "box_bg"@ {
        match spec_parse_hex_color(val) {
            Some(rgb) => ConfigView { box_bg: Some(rgb), ..c },
            None => c,
        }
    } else {
        c
    }
}

/// Where a trailing comment starts in `v`, looking from index `i` on: the
/// first `#` that follows a whitespace character, or `v.len()` when none does.
pub open spec fn comment_from(v: Seq<char>, i: int) -> int
    decreases v.len() - i,
{
    if i < v.len() {
        if i >= 1 && v[i] == '#' && is_ws(v[i - 1]) {
            i
        } else {
            comment_from(v, i + 1)
        }
    } else {
        v.len() as int
    }
}

/// A value without its trailing comment: the text from a `#` that follows
/// whitespace on is dropped, and what is left trimmed. A `#` at the start of
/// the value (as in `#0d2b1d`) is part of it.
pub open spec fn strip_comment(v: Seq<char>) -> Seq<char> {
    trim(v.take(comment_from(v, 1)))
}

/// `comment_from` finds the first `#` after whitespace at or after `j`.
proof fn lemma_comment_from(s: Seq<char>, j: int, e: int)
    requires
        1 <= j <= e <= s.len(),
        forall|i: int| j <= i < e ==> !(#[trigger] s[i] == '#' && is_ws(s[i - 1])),
        e == s.len() || (s[e] == '#' && is_ws(s[e - 1])),
    ensures
        comment_from(s, j) == e,
    decreases e - j,
{
    if j < e {
        lemma_comment_from(s, j + 1, e);
    }
}

/// Trimming the end of `a + b`, where `a` ends in a non-whitespace character,
/// trims only `b`.
proof fn lemma_trim_end_concat(a: Seq<char>, b: Seq<char>)
    requires
        a.len() > 0,
        !is_ws(a.last()),
    ensures
        trim_end(a + b) == a + trim_end(b),
    decreases b.len(),
{
    if b.len() == 0 {
        assert(a + b =~= a);
        assert(a + trim_end(b) =~= a);
    } else {
        assert((a + b).last() == b.last());
        if is_ws(b.last()) {
            assert((a + b).drop_last() =~= a + b.drop_last());
            lemma_trim_end_concat(a, b.drop_last());
        }
    }
}

/// What `trim_end` leaves is empty or ends in a non-whitespace character.
proof fn lemma_trim_end_last(s: Seq<char>)
    ensures
        trim_end(s).len() == 0 || !is_ws(trim_end(s).last()),
    decreases s.len(),
{
    if s.len() > 0 && is_ws(s.last()) {
        lemma_trim_end_last(s.drop_last());
    }
}

/// A trailing comment changes nothing: the line `key=value #comment` has the
/// effect of `key=value`, for a key that holds no `=` and starts with neither
/// whitespace nor `#`, a value that is trimmed and has no `#` after
/// whitespace inside it, and any comment text.
pub proof fn lemma_trailing_comment_ignored(
    c: ConfigView,
    key: Seq<char>,
    val: Seq<char>,
    comment: Seq<char>,
)
    requires
        key.len() > 0,
        !is_ws(key[0]),
        key[0] != '#',
        forall|i: int| 0 <= i < key.len() ==> key[i] != '=',
        val.len() > 0,
        !is_ws(val[0]),
        !is_ws(val.last()),
        forall|i: int| 1 <= i < val.len() ==> !(#[trigger] val[i] == '#' && is_ws(val[i - 1])),
    ensures
        conf_line_effect(c, key + seq!['='] + val + seq![' ', '#'] + comment) == conf_line_effect(
            c,
            key + seq!['='] + val,
        ),
{
    let head = key + seq!['='] + val + seq![' ', '#'];
    let l1 = head + comment;
    let l2 = key + seq!['='] + val;
    let n = key.len() as int;
    // Both lines start with the key, so trimming the start leaves them alone.
    assert(l1[0] == key[0] && l2[0] == key[0]);
    assert(trim_start(l1) == l1);
    assert(trim_start(l2) == l2);
    // The end of the first line is trimmed within the comment only.
    assert(head.last() == '#');
    lemma_trim_end_concat(head, comment);
    let t1 = head + trim_end(comment);
    assert(trim(l1) == t1);
    assert(l2.last() == val.last());
    assert(trim(l2) == l2);
    // The first `=` follows the key in both.
    assert forall|i: int| 0 <= i < n implies t1[i] != '=' && l2[i] != '=' by {
        assert(t1[i] == key[i] && l2[i] == key[i]);
    }
    assert(t1[n] == '=' && l2[n] == '=');
    lemma_first_index(t1, '=', n);
    lemma_first_index(l2, '=', n);
    assert(t1.take(n) =~= key);
    assert(l2.take(n) =~= key);
    // The value of the first line: `val #` and the trimmed comment.
    let v1 = val + seq![' ', '#'] + trim_end(comment);
    assert(t1.skip(n + 1) =~= v1);
    assert(v1[0] == val[0]);
    assert(trim_start(v1) == v1);
    lemma_trim_end_last(comment);
    if trim_end(comment).len() > 0 {
        assert(v1.last() == trim_end(comment).last());
    } else {
        assert(v1.last() == '#');
    }
    assert(trim_end(v1) == v1);
    assert(trim(v1) == v1);
    let m = val.len() as int;
    assert forall|i: int| 1 <= i < m + 1 implies !(#[trigger] v1[i] == '#' && is_ws(v1[i - 1])) by {
        if i < m {
            assert(v1[i] == val[i] && v1[i - 1] == val[i - 1]);
        } else {
            assert(v1[i] == ' ');
        }
    }
    assert(v1[m + 1] == '#' && v1[m] == ' ');
    lemma_comment_from(v1, 1, m + 1);
    let cut = v1.take(m + 1);
    assert(cut =~= val.push(' '));
    assert(cut[0] == val[0]);
    assert(trim_start(cut) == cut);
    assert(cut.drop_last() =~= val);
    assert(trim_end(cut) == trim_end(val));
    assert(trim_end(val) == val);
    assert(strip_comment(v1) == val);
    // The value of the second line is the value itself.
    assert(l2.skip(n + 1) =~= val);
    assert(trim_start(val) == val);
    assert(trim(val) == val);
    if m > 1 {
        lemma_comment_from(val, 1, m);
    } else {
        assert(comment_from(val, 1) == m);
    }
    assert(val.take(m) =~= val);
    assert(strip_comment(val) == val);
}

/// What one line of a configuration file makes of `c`: blank lines, `#`
/// comments and lines without `=` change nothing; otherwise the trimmed text
/// before the first `=` is the key and the trimmed text after it, without a
/// trailing comment, the value.
pub open spec fn conf_line_effect(c: ConfigView, line: Seq<char>) -> ConfigView {
    let t = trim(line);
    if t.len() == 0 || t[0] == '#' {
        c
    } else {
        let i = first_index(t, '=');
        if 0 <= i < t.len() {
            spec_set(c, trim(t.take(i)), strip_comment(trim(t.skip(i + 1))))
        } else {
            c
        }
    }
}

/// The lines applied one after the other, first to last.
pub open spec fn apply_lines(c: ConfigView, lines: Seq<Seq<char>>) -> ConfigView
    decreases lines.len(),
{
    if lines.len() == 0 {
        c
    } else {
        apply_lines(conf_line_effect(c, lines[0]), lines.drop_first())
    }
}

/// What a configuration text makes of `c`: its lines, split at `\n`, applied in
/// order. (A `\r` before the `\n` is whitespace and trimmed with the line.)
pub open spec fn spec_apply_conf(c: ConfigView, text: Seq<char>) -> ConfigView {
    apply_lines(c, split_on(text, '\n'))
}

/// Setting `key` only when an override is present.
pub open spec fn set_opt(c: ConfigView, key: Seq<char>, val: Option<Seq<char>>) -> ConfigView {
    match val {
        Some(v) => spec_set(c, key, v),
        None => c,
    }
}

/// What the eight environment overrides make of `c`, given the answer of the
/// lookup for each, in this order: `HERDR_FLOAX_WIDTH_PCT`,
/// `HERDR_FLOAX_HEIGHT_PCT`, `HERDR_FLOAX_KEY_HINT`, `HERDR_FLOAX_BACKDROP`,
/// `HERDR_FLOAX_BORDER`, `HERDR_FLOAX_BORDER_TYPE`, `HERDR_FLOAX_TITLE`,
/// `HERDR_FLOAX_BOX_BG`. Values are used untrimmed.
pub open spec fn spec_apply_env(c: ConfigView, vals: Seq<Option<Seq<char>>>) -> ConfigView {
    let c1 = set_opt(c, "width_pct"@, vals[0]);
    let c2 = set_opt(c1, "height_pct"@, vals[1]);
    let c3 = set_opt(c2, "key_hint"@, vals[2]);
    let c4 = set_opt(c3, "backdrop"@, vals[3]);
    let c5 = set_opt(c4, "border"@, vals[4]);
    let c6 = set_opt(c5, "border_type"@, vals[5]);
    let c7 = set_opt(c6, "title"@, vals[6]);
    set_opt(c7, "box_bg"@, vals[7])
}

/// The view of an optional string.
pub open spec fn opt_view(r: Option<String>) -> Option<Seq<char>> {
    match r {
        Some(s) => Some(s@),
        None => None,
    }
}

/// `v` is a possible answer of the lookup `get` for `key`.
pub open spec fn answers<F: Fn(&str) -> Option<String>>(
    get: F,
    key: &str,
    v: Option<Seq<char>>,
) -> bool {
    exists|r: Option<String>| #[trigger] call_ensures(get, (key,), r) && opt_view(r) == v
}

/// `vals` holds, in the order of [`spec_apply_env`], possible answers of `get`
/// for the eight override variables.
pub open spec fn env_answers<F: Fn(&str) -> Option<String>>(
    get: F,
    vals: Seq<Option<Seq<char>>>,
) -> bool {
    &&& vals.len() == 8
    &&& answers(get, "HERDR_FLOAX_WIDTH_PCT", vals[0])
    &&& answers(get, "HERDR_FLOAX_HEIGHT_PCT", vals[1])
    &&& answers(get, "HERDR_FLOAX_KEY_HINT", vals[2])
    &&& answers(get, "HERDR_FLOAX_BACKDROP", vals[3])
    &&& answers(get, "HERDR_FLOAX_BORDER", vals[4])
    &&& answers(get, "HERDR_FLOAX_BORDER_TYPE", vals[5])
    &&& answers(get, "HERDR_FLOAX_TITLE", vals[6])
    &&& answers(get, "HERDR_FLOAX_BOX_BG", vals[7])
}

/// What `std::path::Path::file_name` gives for a path written as text: its
/// last component, unless that is `..`, the root or nothing.
pub uninterp spec fn path_file_name(path: Seq<char>) -> Option<Seq<char>>;

/// `std::path::Path::file_name` on a path given as text, the name taken back
/// as text. A name it gives is the path's last normal component, which is
/// never empty (`Path::components` drops empty ones), and `to_string_lossy`
/// keeps it non-empty.
#[verifier::external_body]
fn file_name_of(path: &str) -> (r: Option<String>)
    ensures
        opt_view(r) == path_file_name(path@),
        r matches Some(n) ==> n@.len() > 0,
{
    match std::path::Path::new(path).file_name() {
        Some(n) => Some(n.to_string_lossy().into_owned()),
        None => None,
    }
}

/// The automatic title: the name of the start directory, else `floax`.
pub open spec fn spec_fallback_title(name: Option<Seq<char>>) -> Seq<char> {
    match name {
        Some(n) => n,
        None => "floax"@,
    }
}

/// The automatic title: the name of the start directory, else `floax`.
pub fn fallback_title(name: Option<String>) -> (s: String)
    ensures
        s@ == spec_fallback_title(opt_view(name)),
{
    match name {
        Some(n) => n,
        None => String::from_str("floax"),
    }
}

/// What resolving the title makes of `c`: an empty title becomes the last
/// component of the start directory `cwd`, or `floax` without one.
pub open spec fn spec_resolve_title(c: ConfigView, cwd: Option<Seq<char>>) -> ConfigView {
    if c.title.len() == 0 {
        let name = match cwd {
            Some(d) => path_file_name(d),
            None => None,
        };
        ConfigView { title: spec_fallback_title(name), ..c }
    } else {
        c
    }
}

/// A percentage clamped to 20..=100.
pub fn clamp_pct(n: u16) -> (r: u16)
    ensures
        r == spec_clamp_pct(n),
        20 <= r <= 100,
        20 <= n <= 100 ==> r == n,
        n < 20 ==> r == 20,
        n > 100 ==> r == 100,
{
    if n < 20 {
        20
    } else if n > 100 {
        100
    } else {
        n
    }
}

/// The value of one hexadecimal digit.
fn hex_digit(c: char) -> (r: Option<u8>)
    ensures
        r is Some <==> hex_value(c) is Some,
        r matches Some(d) ==> d as int == hex_value(c).unwrap() && d < 16,
{
    let u = c as u32;
    if 48 <= u && u <= 57 {
        Some((u - 48) as u8)
    } else if 97 <= u && u <= 102 {
        Some((u - 87) as u8)
    } else if 65 <= u && u <= 70 {
        Some((u - 55) as u8)
    } else {
        None
    }
}

/// Parse `#rrggbb` (leading `#` optional) into an RGB triple.
pub fn parse_hex_color(s: &str) -> (r: Option<(u8, u8, u8)>)
    ensures
        r == spec_parse_hex_color(s@),
{
    let v = chars_of(s);
    let (a, b) = trim_range(&v, 0, v.len());
    assert(v@.subrange(0, v@.len() as int) =~= s@);
    let mut h = a;
    while h < b && v[h] == '#'
        invariant
            a <= h <= b <= v.len(),
            strip_hashes(v@.subrange(a as int, b as int)) == strip_hashes(
                v@.subrange(h as int, b as int),
            ),
        decreases b - h,
    {
        assert(v@.subrange(h as int, b as int).drop_first() =~= v@.subrange(h + 1, b as int));
        h = h + 1;
    }
    let ghost hs = v@.subrange(h as int, b as int);
    assert(strip_hashes(trim(s@)) == hs);
    if b - h != 6 {
        return None;
    }
    let mut digits: Vec<u8> = Vec::new();
    let mut i: usize = 0;
    while i < 6
        invariant
            0 <= i <= 6,
            b - h == 6,
            h + 6 <= v.len(),
            hs == v@.subrange(h as int, b as int),
            strip_hashes(trim(s@)) == hs,
            digits@.len() == i,
            forall|j: int| 0 <= j < i ==> (#[trigger] hex_value(hs[j])) is Some && digits@[j]
                as int == hex_value(hs[j]).unwrap() && digits@[j] < 16,
        decreases 6 - i,
    {
        assert(hs[i as int] == v@[h + i]);
        match hex_digit(v[h + i]) {
            Some(d) => {
                digits.push(d);
            },
            None => {
                assert(!(hex_value(hs[i as int]) is Some));
                return None;
            },
        }
        i = i + 1;
    }
    let r = digits[0] * 16 + digits[1];
    let g = digits[2] * 16 + digits[3];
    let bl = digits[4] * 16 + digits[5];
    Some((r, g, bl))
}

impl Config {
    /// Apply `KEY=VALUE` lines (`#` comments and blank lines ignored).
    pub fn apply_conf(&mut self, text: &str)
        ensures
            final(self)@ == spec_apply_conf(old(self)@, text@),
    {
        let chars = chars_of(text);
        let n = chars.len();
        let mut start: usize = 0;
        assert(text@.skip(0) =~= text@);
        loop
            invariant
                start <= n,
                n == chars@.len(),
                chars@ == text@,
                spec_apply_conf(old(self)@, text@) == apply_lines(
                    self@,
                    split_on(text@.skip(start as int), '\n'),
                ),
            decreases n - start,
        {
            let j = find_char(&chars, start, n, '\n');
            let ghost rest = text@.skip(start as int);
            let ghost before = self@;
            assert(chars@.subrange(start as int, n as int) =~= rest);
            self.apply_line(text, &chars, start, j);
            if j == n {
                proof {
                    assert(rest =~= chars@.subrange(start as int, j as int));
                    lemma_split_last(rest, '\n');
                    let ls = seq![rest];
                    assert(ls.drop_first() =~= Seq::<Seq<char>>::empty());
                    assert(ls[0] == rest);
                    assert(apply_lines(before, ls) == apply_lines(
                        conf_line_effect(before, ls[0]),
                        ls.drop_first(),
                    ));
                }
                return;
            }
            proof {
                let k = j - start;
                assert forall|i: int| 0 <= i < k implies rest[i] != '\n' by {
                    assert(rest[i] == chars@[start + i]);
                }
                assert(rest[k] == chars@[j as int]);
                lemma_split_step(rest, '\n', k);
                assert(rest.take(k) =~= chars@.subrange(start as int, j as int));
                assert(rest.skip(k + 1) =~= text@.skip(j + 1));
                let ls = seq![rest.take(k)] + split_on(rest.skip(k + 1), '\n');
                assert(ls[0] == rest.take(k));
                assert(ls.drop_first() =~= split_on(rest.skip(k + 1), '\n'));
                assert(apply_lines(before, ls) == apply_lines(
                    conf_line_effect(before, ls[0]),
                    ls.drop_first(),
                ));
            }
            start = j + 1;
        }
    }

    /// Apply one line, the characters `chars[lo..hi]` of `text`.
    fn apply_line(&mut self, text: &str, chars: &Vec<char>, lo: usize, hi: usize)
        requires
            lo <= hi <= chars.len(),
            chars@ == text@,
        ensures
            final(self)@ == conf_line_effect(old(self)@, chars@.subrange(lo as int, hi as int)),
    {
        let (a, b) = trim_range(chars, lo, hi);
        let ghost t = chars@.subrange(a as int, b as int);
        if a == b || chars[a] == '#' {
            assert(a < b ==> t[0] == chars@[a as int]);
            return;
        }
        let k = find_char(chars, a, b, '=');
        if k == b {
            return;
        }
        let (ka, kb) = trim_range(chars, a, k);
        let (va, vb) = trim_range(chars, k + 1, b);
        proof {
            let i = k - a;
            assert(t.take(i) =~= chars@.subrange(a as int, k as int));
            assert(t.skip(i + 1) =~= chars@.subrange(k + 1, b as int));
        }
        let ghost v = chars@.subrange(va as int, vb as int);
        let mut cut = vb;
        if va < vb {
            let mut j = va + 1;
            while j < vb && !(chars[j] == '#' && is_whitespace(chars[j - 1]))
                invariant
                    va + 1 <= j <= vb <= chars@.len(),
                    v == chars@.subrange(va as int, vb as int),
                    comment_from(v, 1) == comment_from(v, j - va),
                decreases vb - j,
            {
                assert(v[j - va] == chars@[j as int] && v[j - va - 1] == chars@[j - 1]);
                j = j + 1;
            }
            proof {
                if j < vb {
                    assert(v[j - va] == chars@[j as int] && v[j - va - 1] == chars@[j - 1]);
                }
            }
            cut = j;
        }
        assert(comment_from(v, 1) == cut - va);
        assert(v.take(cut - va) =~= chars@.subrange(va as int, cut as int));
        let (ca, cb) = trim_range(chars, va, cut);
        let key = text.substring_char(ka, kb);
        let val = text.substring_char(ca, cb);
        self.set(key, val);
    }

    /// Apply `HERDR_FLOAX_*` overrides from an env lookup (injected for tests).
    pub fn apply_env(&mut self, get: impl Fn(&str) -> Option<String>)
        requires
            forall|k: &str| call_requires(get, (k,)),
        ensures
            exists|vals: Seq<Option<Seq<char>>>|
                env_answers(get, vals) && final(self)@ == spec_apply_env(old(self)@, vals),
    {
        let ghost c0 = self@;
        let r0 = get("HERDR_FLOAX_WIDTH_PCT");
        if let Some(v) = &r0 {
            self.set("width_pct", v);
        }
        let r1 = get("HERDR_FLOAX_HEIGHT_PCT");
        if let Some(v) = &r1 {
            self.set("height_pct", v);
        }
        let r2 = get("HERDR_FLOAX_KEY_HINT");
        if let Some(v) = &r2 {
            self.set("key_hint", v);
        }
        let r3 = get("HERDR_FLOAX_BACKDROP");
        if let Some(v) = &r3 {
            self.set("backdrop", v);
        }
        let r4 = get("HERDR_FLOAX_BORDER");
        if let Some(v) = &r4 {
            self.set("border", v);
        }
        let r5 = get("HERDR_FLOAX_BORDER_TYPE");
        if let Some(v) = &r5 {
            self.set("border_type", v);
        }
        let r6 = get("HERDR_FLOAX_TITLE");
        if let Some(v) = &r6 {
            self.set("title", v);
        }
        let r7 = get("HERDR_FLOAX_BOX_BG");
        if let Some(v) = &r7 {
            self.set("box_bg", v);
        }
        proof {
            let vals = seq![
                opt_view(r0),
                opt_view(r1),
                opt_view(r2),
                opt_view(r3),
                opt_view(r4),
                opt_view(r5),
                opt_view(r6),
                opt_view(r7),
            ];
            assert(env_answers(get, vals));
            assert(self@ == spec_apply_env(c0, vals));
        }
    }

    /// Fill in an empty title: the last component of the directory the shell
    /// starts in (`cwd`), falling back to `floax`. The title is never empty
    /// afterwards.
    pub fn resolve_title(&mut self, cwd: Option<&str>)
        ensures
            final(self)@ == spec_resolve_title(
                old(self)@,
                match cwd {
                    Some(d) => Some(d@),
                    None => None,
                },
            ),
            final(self).title@.len() > 0,
    {
        if self.title.as_str().is_empty() {
            let name = match cwd {
                Some(d) => file_name_of(d),
                None => None,
            };
            proof {
                reveal_strlit("floax");
            }
            self.title = fallback_title(name);
        }
    }

    /// Set one key from its textual value. Unknown keys and values that do not
    /// parse are ignored.
    pub fn set(&mut self, key: &str, val: &str)
        ensures
            final(self)@ == spec_set(old(self)@, key@, val@),
    {
        if str_eq(key, "width_pct") {
            let v = chars_of(val);
            assert(v@.subrange(0, v@.len() as int) =~= val@);
            if let Some(n) = parse_u16_range(&v, 0, v.len()) {
                self.width_pct = clamp_pct(n);
            }
        } else if str_eq(key, "height_pct") {
            let v = chars_of(val);
            assert(v@.subrange(0, v@.len() as int) =~= val@);
            if let Some(n) = parse_u16_range(&v, 0, v.len()) {
                self.height_pct = clamp_pct(n);
            }
        } else if str_eq(key, "key_hint") {
            if !val.is_empty() {
                self.key_hint = val.to_owned();
            }
        } else if str_eq(key, "backdrop") {
            if let Some(rgb) = parse_hex_color(val) {
                self.backdrop = rgb;
            }
        } else if str_eq(key, "border") {
            if let Some(rgb) = parse_hex_color(val) {
                self.border = Some(rgb);
            }
        } else if str_eq(key, "border_type") {
            if str_eq(val, "plain") {
                self.border_type = BorderKind::Plain;
            } else if str_eq(val, "rounded") {
                self.border_type = BorderKind::Rounded;
            }
        } else if str_eq(key, "title") {
            if !val.is_empty() {
                self.title = val.to_owned();
            }
        } else if str_eq(key, "box_bg") {
            if let Some(rgb) = parse_hex_color(val) {
                self.box_bg = Some(rgb);
            }
        }
    }
}

/// Both percentages lie in 20..=100.
pub open spec fn pct_in_range(c: ConfigView) -> bool {
    20 <= c.width_pct <= 100 && 20 <= c.height_pct <= 100
}

/// The eight keys are distinct from one another.
proof fn lemma_keys_distinct()
    ensures
        "width_pct"@ != "height_pct"@,
        "width_pct"@ != "key_hint"@,
        "width_pct"@ != "backdrop"@,
        "width_pct"@ != "border"@,
        "width_pct"@ != "border_type"@,
        "width_pct"@ != "title"@,
        "width_pct"@ != "box_bg"@,
        "height_pct"@ != "key_hint"@,
        "height_pct"@ != "backdrop"@,
        "height_pct"@ != "border"@,
        "height_pct"@ != "border_type"@,
        "height_pct"@ != "title"@,
        "height_pct"@ != "box_bg"@,
        "key_hint"@ != "backdrop"@,
        "key_hint"@ != "border"@,
        "key_hint"@ != "border_type"@,
        "key_hint"@ != "title"@,
        "key_hint"@ != "box_bg"@,
        "backdrop"@ != "border"@,
        "backdrop"@ != "border_type"@,
        "backdrop"@ != "title"@,
        "backdrop"@ != "box_bg"@,
        "border"@ != "border_type"@,
        "border"@ != "title"@,
        "border"@ != "box_bg"@,
        "border_type"@ != "title"@,
        "border_type"@ != "box_bg"@,
        "title"@ != "box_bg"@,
{
    reveal_strlit("width_pct");
    reveal_strlit("height_pct");
    reveal_strlit("key_hint");
    reveal_strlit("backdrop");
    reveal_strlit("border");
    reveal_strlit("border_type");
    reveal_strlit("title");
    reveal_strlit("box_bg");
    assert("width_pct"@[0] != "height_pct"@[0]);
    assert("width_pct"@[0] != "border_type"@[0]);
    assert("key_hint"@[0] != "backdrop"@[0]);
    assert("backdrop"@[2] != "border_type"@[2]);
    assert("border"@.len() != "border_type"@.len());
    assert("border"@[2] != "box_bg"@[2]);
}

/// `val` is a value that `key` takes: a number for the percentages, a
/// non-empty text for the hint and the title, a colour for the colours, and
/// `plain` or `rounded` for the border type.
pub open spec fn accepts(key: Seq<char>, val: Seq<char>) -> bool {
    if key == "width_pct"@ || key == "height_pct"@ {
        spec_parse_u16(val) is Some
    } else if key == "key_hint"@ || key == "title"@ {
        val.len() > 0
    } else if key == "backdrop"@ || key == "border"@ || key == "box_bg"@ {
        spec_parse_hex_color(val) is Some
    } else if key == "border_type"@ {
        val == "plain"@ || val == "rounded"@
    } else {
        false
    }
}

/// A key with a value that it does not take, and a key that is not one of the
/// eight, leave the configuration as it was.
pub proof fn lemma_rejected_values_ignored(c: ConfigView, key: Seq<char>, val: Seq<char>)
    requires
        !accepts(key, val),
    ensures
        spec_set(c, key, val) == c,
{
    lemma_keys_distinct();
}

/// Of two values set for the same key, the later one wins where the key takes
/// it.
pub proof fn lemma_later_value_wins(c: ConfigView, key: Seq<char>, v1: Seq<char>, v2: Seq<char>)
    requires
        accepts(key, v2),
    ensures
        spec_set(spec_set(c, key, v1), key, v2) == spec_set(c, key, v2),
{
    lemma_keys_distinct();
}

/// Setting a key changes no field but its own.
pub proof fn lemma_set_frame(c: ConfigView, key: Seq<char>, val: Seq<char>)
    ensures
        key != "width_pct"@ ==> spec_set(c, key, val).width_pct == c.width_pct,
        key != "height_pct"@ ==> spec_set(c, key, val).height_pct == c.height_pct,
        key != "key_hint"@ ==> spec_set(c, key, val).key_hint == c.key_hint,
        key != "backdrop"@ ==> spec_set(c, key, val).backdrop == c.backdrop,
        key != "border"@ ==> spec_set(c, key, val).border == c.border,
        key != "border_type"@ ==> spec_set(c, key, val).border_type == c.border_type,
        key != "title"@ ==> spec_set(c, key, val).title == c.title,
        key != "box_bg"@ ==> spec_set(c, key, val).box_bg == c.box_bg,
{
    lemma_keys_distinct();
}

/// Setting a key keeps both percentages within 20..=100.
pub proof fn lemma_set_keeps_pct_range(c: ConfigView, key: Seq<char>, val: Seq<char>)
    requires
        pct_in_range(c),
    ensures
        pct_in_range(spec_set(c, key, val)),
{
}

/// Applying lines keeps both percentages within 20..=100.
proof fn lemma_lines_keep_pct_range(c: ConfigView, lines: Seq<Seq<char>>)
    requires
        pct_in_range(c),
    ensures
        pct_in_range(apply_lines(c, lines)),
    decreases lines.len(),
{
    if lines.len() > 0 {
        let t = trim(lines[0]);
        if !(t.len() == 0 || t[0] == '#') {
            let i = first_index(t, '=');
            if 0 <= i < t.len() {
                lemma_set_keeps_pct_range(c, trim(t.take(i)), trim(t.skip(i + 1)));
            }
        }
        lemma_lines_keep_pct_range(conf_line_effect(c, lines[0]), lines.drop_first());
    }
}

/// The defaults, a configuration text and the environment overrides on top
/// of one another always give percentages within 20..=100.
pub proof fn lemma_layers_keep_pct_range(c: ConfigView, text: Seq<char>, vals: Seq<Option<Seq<char>>>)
    requires
        pct_in_range(c),
    ensures
        pct_in_range(spec_apply_conf(c, text)),
        pct_in_range(spec_apply_env(c, vals)),
        pct_in_range(spec_apply_env(spec_apply_conf(c, text), vals)),
        pct_in_range(spec_apply_env(spec_apply_conf(default_view(), text), vals)),
{
    lemma_lines_keep_pct_range(c, split_on(text, '\n'));
    lemma_lines_keep_pct_range(default_view(), split_on(text, '\n'));
    lemma_env_keeps_pct_range(c, vals);
    lemma_env_keeps_pct_range(spec_apply_conf(c, text), vals);
    lemma_env_keeps_pct_range(spec_apply_conf(default_view(), text), vals);
}

/// Setting an optional override keeps both percentages within 20..=100.
proof fn lemma_set_opt_keeps_pct_range(c: ConfigView, key: Seq<char>, val: Option<Seq<char>>)
    requires
        pct_in_range(c),
    ensures
        pct_in_range(set_opt(c, key, val)),
{
    if let Some(v) = val {
        lemma_set_keeps_pct_range(c, key, v);
    }
}

/// The environment overrides keep both percentages within 20..=100.
proof fn lemma_env_keeps_pct_range(c: ConfigView, vals: Seq<Option<Seq<char>>>)
    requires
        pct_in_range(c),
    ensures
        pct_in_range(spec_apply_env(c, vals)),
{
    let c1 = set_opt(c, "width_pct"@, vals[0]);
    lemma_set_opt_keeps_pct_range(c, "width_pct"@, vals[0]);
    let c2 = set_opt(c1, "height_pct"@, vals[1]);
    lemma_set_opt_keeps_pct_range(c1, "height_pct"@, vals[1]);
    let c3 = set_opt(c2, "key_hint"@, vals[2]);
    lemma_set_opt_keeps_pct_range(c2, "key_hint"@, vals[2]);
    let c4 = set_opt(c3, "backdrop"@, vals[3]);
    lemma_set_opt_keeps_pct_range(c3, "backdrop"@, vals[3]);
    let c5 = set_opt(c4, "border"@, vals[4]);
    lemma_set_opt_keeps_pct_range(c4, "border"@, vals[4]);
    let c6 = set_opt(c5, "border_type"@, vals[5]);
    lemma_set_opt_keeps_pct_range(c5, "border_type"@, vals[5]);
    let c7 = set_opt(c6, "title"@, vals[6]);
    lemma_set_opt_keeps_pct_range(c6, "title"@, vals[6]);
    lemma_set_opt_keeps_pct_range(c7, "box_bg"@, vals[7]);
}

/// Environment overrides take precedence over the configuration file: a
/// present override that its key takes decides that field, whatever the file
/// (or anything before it) set.
pub proof fn lemma_env_overrides_conf(c: ConfigView, text: Seq<char>, vals: Seq<Option<Seq<char>>>)
    ensures
        ({
            let r = spec_apply_env(spec_apply_conf(c, text), vals);
            &&& (vals[0] matches Some(v) && accepts("width_pct"@, v)) ==> r.width_pct
                == spec_clamp_pct(spec_parse_u16(vals[0].unwrap()).unwrap())
            &&& (vals[1] matches Some(v) && accepts("height_pct"@, v)) ==> r.height_pct
                == spec_clamp_pct(spec_parse_u16(vals[1].unwrap()).unwrap())
            &&& (vals[2] matches Some(v) && accepts("key_hint"@, v)) ==> r.key_hint
                == vals[2].unwrap()
            &&& (vals[3] matches Some(v) && accepts("backdrop"@, v)) ==> r.backdrop
                == spec_parse_hex_color(vals[3].unwrap()).unwrap()
            &&& (vals[4] matches Some(v) && accepts("border"@, v)) ==> r.border == Some(
                spec_parse_hex_color(vals[4].unwrap()).unwrap(),
            )
            &&& (vals[5] matches Some(v) && v == "plain"@) ==> r.border_type == BorderKind::Plain
            &&& (vals[5] matches Some(v) && v == "rounded"@) ==> r.border_type
                == BorderKind::Rounded
            &&& (vals[6] matches Some(v) && accepts("title"@, v)) ==> r.title == vals[6].unwrap()
            &&& (vals[7] matches Some(v) && accepts("box_bg"@, v)) ==> r.box_bg == Some(
                spec_parse_hex_color(vals[7].unwrap()).unwrap(),
            )
        }),
{
    lemma_keys_distinct();
    reveal_strlit("plain");
    reveal_strlit("rounded");
    let c0 = spec_apply_conf(c, text);
    let c1 = set_opt(c0, "width_pct"@, vals[0]);
    let c2 = set_opt(c1, "height_pct"@, vals[1]);
    let c3 = set_opt(c2, "key_hint"@, vals[2]);
    let c4 = set_opt(c3, "backdrop"@, vals[3]);
    let c5 = set_opt(c4, "border"@, vals[4]);
    let c6 = set_opt(c5, "border_type"@, vals[5]);
    let c7 = set_opt(c6, "title"@, vals[6]);
    let c8 = set_opt(c7, "box_bg"@, vals[7]);
    if let Some(v) = vals[1] {
        lemma_set_frame(c1, "height_pct"@, v);
    }
    if let Some(v) = vals[2] {
        lemma_set_frame(c2, "key_hint"@, v);
    }
    if let Some(v) = vals[3] {
        lemma_set_frame(c3, "backdrop"@, v);
    }
    if let Some(v) = vals[4] {
        lemma_set_frame(c4, "border"@, v);
    }
    if let Some(v) = vals[5] {
        lemma_set_frame(c5, "border_type"@, v);
    }
    if let Some(v) = vals[6] {
        lemma_set_frame(c6, "title"@, v);
    }
    if let Some(v) = vals[7] {
        lemma_set_frame(c7, "box_bg"@, v);
    }
}

/// Blank lines, `#` comments and lines without `=` change nothing.
pub proof fn lemma_junk_lines_ignored(c: ConfigView, line: Seq<char>)
    requires
        trim(line).len() == 0 || trim(line)[0] == '#' || first_index(trim(line), '=') >= trim(
            line,
        ).len(),
    ensures
        conf_line_effect(c, line) == c,
{
}

/// Splitting a text made of two texts joined by a separator.
pub proof fn lemma_split_concat<A>(a: Seq<A>, sep: A, b: Seq<A>)
    ensures
        split_on(a + seq![sep] + b, sep) == split_on(a, sep) + split_on(b, sep),
    decreases a.len(),
{
    let s = a + seq![sep] + b;
    let i = first_index(a, sep);
    lemma_first_index_bounds(a, sep);
    if 0 <= i < a.len() {
        assert forall|j: int| 0 <= j < i implies s[j] != sep by {
            lemma_first_index_before(a, sep, j);
            assert(s[j] == a[j]);
        }
        lemma_first_index_at(a, sep);
        assert(s[i] == a[i]);
        assert forall|j: int| 0 <= j < i implies a[j] != sep by {
            lemma_first_index_before(a, sep, j);
        }
        lemma_split_step(s, sep, i);
        lemma_split_step(a, sep, i);
        assert(s.take(i) =~= a.take(i));
        assert(s.skip(i + 1) =~= a.skip(i + 1) + seq![sep] + b);
        lemma_split_concat(a.skip(i + 1), sep, b);
        assert(split_on(s, sep) =~= split_on(a, sep) + split_on(b, sep));
    } else {
        assert forall|j: int| 0 <= j < a.len() implies s[j] != sep by {
            lemma_first_index_before(a, sep, j);
            assert(s[j] == a[j]);
        }
        assert(s[a.len() as int] == sep);
        lemma_split_step(s, sep, a.len() as int);
        lemma_split_last_when_absent(a, sep);
        assert(s.take(a.len() as int) =~= a);
        assert(s.skip(a.len() as int + 1) =~= b);
        assert(split_on(s, sep) =~= split_on(a, sep) + split_on(b, sep));
    }
}

/// Applying two runs of lines one after the other.
pub proof fn lemma_apply_lines_concat(c: ConfigView, l1: Seq<Seq<char>>, l2: Seq<Seq<char>>)
    ensures
        apply_lines(c, l1 + l2) == apply_lines(apply_lines(c, l1), l2),
    decreases l1.len(),
{
    if l1.len() > 0 {
        assert((l1 + l2)[0] == l1[0]);
        assert((l1 + l2).drop_first() =~= l1.drop_first() + l2);
        lemma_apply_lines_concat(conf_line_effect(c, l1[0]), l1.drop_first(), l2);
    } else {
        assert(l1 + l2 =~= l2);
    }
}

/// Applying one text after another is applying the two joined by a newline:
/// a configuration can be read in parts.
pub proof fn lemma_apply_conf_concat(c: ConfigView, a: Seq<char>, b: Seq<char>)
    ensures
        spec_apply_conf(c, a + seq!['\n'] + b) == spec_apply_conf(spec_apply_conf(c, a), b),
{
    lemma_split_concat(a, '\n', b);
    lemma_apply_lines_concat(c, split_on(a, '\n'), split_on(b, '\n'));
}

} // verus!
