//! Adopts the user's tmux status-bar colors so the chrome matches their
//! terminal. Every field falls back to the historical default when the tmux
//! option is unset or unparseable.

use vstd::prelude::*;

use crate::text::{
    all_digits, byte_len, byte_len_is, char_boundary, chars_eq, chars_of, find_boundary, find_char,
    find_pair, first_index_of, first_index_of_pair, has_prefix, lemma_boundaries_ordered,
    lemma_boundary_from, lemma_first_index_of_bound, lemma_first_index_of_pair_bound, parse_u8,
    parse_u8_spec, split_chars, split_on, starts_with, sub_chars, trim, trimmed,
};

verus! {

/// A terminal color, as the renderer understands it.
#[derive(Clone, Copy, Debug, PartialEq, Eq, Structural)]
pub enum Color {
    Reset,
    Black,
    Red,
    Green,
    Yellow,
    Blue,
    Magenta,
    Cyan,
    Gray,
    DarkGray,
    LightRed,
    LightGreen,
    LightYellow,
    LightBlue,
    LightMagenta,
    LightCyan,
    White,
    Rgb(u8, u8, u8),
    Indexed(u8),
}

/// The colors of the chrome.
#[derive(Clone, Copy, Debug, PartialEq, Eq, Structural)]
pub struct Theme {
    /// Command-bar background (tmux `status-style` bg).
    pub bar_bg: Color,
    /// Command-bar foreground (tmux `status-style` fg).
    pub bar_fg: Color,
    /// Mode-label pill background (tmux `window-status-current-style` bg).
    pub pill_bg: Color,
    /// Mode-label pill foreground (tmux `window-status-current-style` fg).
    pub pill_fg: Color,
    /// Tree expand/collapse icons (tmux `status-left` fg).
    pub icon: Color,
    /// Active session/window/pane (tmux `status-right` fg).
    pub active: Color,
    /// Selected tree row background.
    pub selection_bg: Color,
}

/// The colors used when tmux has no custom status styling.
pub open spec fn default_theme() -> Theme {
    Theme {
        bar_bg: Color::Green,
        bar_fg: Color::Black,
        pill_bg: Color::Green,
        pill_fg: Color::Black,
        icon: Color::Yellow,
        active: Color::Cyan,
        selection_bg: Color::DarkGray,
    }
}

impl Default for Theme {
    fn default() -> (t: Self)
        ensures
            t == default_theme(),
    {
        Theme {
            bar_bg: Color::Green,
            bar_fg: Color::Black,
            pill_bg: Color::Green,
            pill_fg: Color::Black,
            icon: Color::Yellow,
            active: Color::Cyan,
            selection_bg: Color::DarkGray,
        }
    }
}


// ---------------------------------------------------------------------------
// Colors.

pub open spec fn is_hex_digit(c: char) -> bool {
    ('0' <= c <= '9') || ('a' <= c <= 'f') || ('A' <= c <= 'F')
}

pub open spec fn hex_digit_value(c: char) -> int {
    if '0' <= c <= '9' {
        c as int - '0' as int
    } else if 'a' <= c <= 'f' {
        c as int - 'a' as int + 10
    } else {
        c as int - 'A' as int + 10
    }
}

pub open spec fn all_hex(d: Seq<char>) -> bool {
    forall|i: int| 0 <= i < d.len() ==> is_hex_digit(#[trigger] d[i])
}

/// The value of a run of hexadecimal digits.
pub open spec fn hex_value(d: Seq<char>) -> int
    decreases d.len(),
{
    if d.len() == 0 {
        0
    } else {
        hex_value(d.drop_last()) * 16 + hex_digit_value(d.last())
    }
}

/// `u8::from_str_radix(s, 16)`: an optional `+`, then one or more
/// hexadecimal digits, in range.
pub open spec fn parse_hex_u8_spec(s: Seq<char>) -> Option<u8> {
    let d = if s.len() > 0 && s[0] == '+' { s.drop_first() } else { s };
    if d.len() > 0 && all_hex(d) && hex_value(d) <= u8::MAX {
        Some(hex_value(d) as u8)
    } else {
        None
    }
}

proof fn lemma_hex_value_grows(d: Seq<char>, i: int)
    requires
        0 <= i <= d.len(),
        all_hex(d),
    ensures
        hex_value(d) >= hex_value(d.take(i)) >= 0,
    decreases d.len(),
{
    if d.len() > 0 {
        if i == d.len() {
            assert(d.take(i) =~= d);
            lemma_hex_value_grows(d.drop_last(), i - 1);
            assert(d.drop_last().take(i - 1) =~= d.drop_last());
        } else {
            let t = d.drop_last();
            assert(all_hex(t)) by {
                assert forall|j: int| 0 <= j < t.len() implies is_hex_digit(#[trigger] t[j]) by {
                    assert(t[j] == d[j]);
                }
            }
            lemma_hex_value_grows(t, i);
            assert(t.take(i) =~= d.take(i));
            assert(is_hex_digit(d[d.len() - 1]));
        }
    } else {
        assert(d.take(i) =~= d);
    }
}

fn hex_digit(c: char) -> (r: Option<u64>)
    ensures
        r matches Some(v) ==> is_hex_digit(c) && v == hex_digit_value(c) && v < 16,
        r is None ==> !is_hex_digit(c),
{
    let v: u32 = c as u32;
    if 0x30 <= v && v <= 0x39 {
        Some((v - 0x30) as u64)
    } else if 0x61 <= v && v <= 0x66 {
        Some((v - 0x61 + 10) as u64)
    } else if 0x41 <= v && v <= 0x46 {
        Some((v - 0x41 + 10) as u64)
    } else {
        None
    }
}

pub fn parse_hex_u8(s: &[char]) -> (r: Option<u8>)
    ensures
        r == parse_hex_u8_spec(s@),
{
    let start: usize = if s.len() > 0 && s[0] == '+' { 1 } else { 0 };
    let ghost d = if s@.len() > 0 && s@[0] == '+' { s@.drop_first() } else { s@ };
    assert(s@.skip(start as int) =~= d);
    if start >= s.len() {
        return None;
    }
    let mut acc: u64 = 0;
    let mut i: usize = start;
    while i < s.len()
        invariant
            start <= i <= s.len(),
            start < s.len(),
            d == s@.skip(start as int),
            d == (if s@.len() > 0 && s@[0] == '+' { s@.drop_first() } else { s@ }),
            all_hex(d.take(i - start)),
            acc == hex_value(d.take(i - start)),
            acc <= 255,
        decreases s.len() - i,
    {
        let ghost k = (i - start) as int;
        assert(d[k] == s@[i as int]);
        let dv = match hex_digit(s[i]) {
            Some(v) => v,
            None => {
                assert(!all_hex(d));
                return None;
            },
        };
        assert(d.take(k + 1).drop_last() =~= d.take(k));
        assert(all_hex(d.take(k + 1))) by {
            assert forall|j: int| 0 <= j < k + 1 implies is_hex_digit(#[trigger] d.take(k + 1)[j]) by {
                if j < k {
                    assert(d.take(k + 1)[j] == d.take(k)[j]);
                }
            }
        }
        if acc > (255 - dv) / 16 {
            proof {
                assert(acc * 16 + dv > 255) by (nonlinear_arith)
                    requires
                        acc > (255 - dv) / 16,
                        dv < 16,
                ;
                if all_hex(d) {
                    lemma_hex_value_grows(d, k + 1);
                }
            }
            return None;
        }
        assert(acc * 16 + dv <= 255) by (nonlinear_arith)
            requires
                acc <= (255 - dv) / 16,
                dv < 16,
        ;
        acc = acc * 16 + dv;
        i = i + 1;
    }
    assert(d.take(i - start) =~= d);
    Some(acc as u8)
}

/// The sixteen named tmux colors (`white` is the dim one, `brightwhite` the
/// bright one).
pub open spec fn named_color(t: Seq<char>) -> Option<Color> {
    if t == "black"@ {
        Some(Color::Black)
    } else if t == "red"@ {
        Some(Color::Red)
    } else if t == "green"@ {
        Some(Color::Green)
    } else if t == "yellow"@ {
        Some(Color::Yellow)
    } else if t == "blue"@ {
        Some(Color::Blue)
    } else if t == "magenta"@ {
        Some(Color::Magenta)
    } else if t == "cyan"@ {
        Some(Color::Cyan)
    } else if t == "white"@ {
        Some(Color::Gray)
    } else if t == "brightblack"@ {
        Some(Color::DarkGray)
    } else if t == "brightred"@ {
        Some(Color::LightRed)
    } else if t == "brightgreen"@ {
        Some(Color::LightGreen)
    } else if t == "brightyellow"@ {
        Some(Color::LightYellow)
    } else if t == "brightblue"@ {
        Some(Color::LightBlue)
    } else if t == "brightmagenta"@ {
        Some(Color::LightMagenta)
    } else if t == "brightcyan"@ {
        Some(Color::LightCyan)
    } else if t == "brightwhite"@ {
        Some(Color::White)
    } else {
        None
    }
}

pub open spec fn indexed(n: Option<u8>) -> Option<Color> {
    match n {
        Some(v) => Some(Color::Indexed(v)),
        None => None,
    }
}

/// A `#rrggbb` color, given what follows the `#`: six bytes, read as three
/// two-byte hex pairs. A text whose byte offsets 2 or 4 fall inside a
/// character cannot be cut into pairs, and is unparseable like any other
/// malformed one.
pub open spec fn hex_color_parse(hex: Seq<char>) -> Option<Color> {
    if byte_len(hex) != 6 {
        None
    } else {
        match char_boundary(hex, 2) {
            None => None,
            Some(a) => match parse_hex_u8_spec(hex.take(a as int)) {
                None => None,
                Some(r) => match char_boundary(hex, 4) {
                    None => None,
                    Some(b) => match parse_hex_u8_spec(hex.subrange(a as int, b as int)) {
                        None => None,
                        Some(g) => match parse_hex_u8_spec(hex.skip(b as int)) {
                            None => None,
                            Some(bl) => Some(Color::Rgb(r, g, bl)),
                        },
                    },
                },
            },
        }
    }
}

/// A tmux color token: hex (`#rrggbb`), indexed (`colour123`, `color123`,
/// bare `123`), a named color, or `default` (the terminal's own); `None` for
/// an unparseable token.
pub open spec fn color_parse(s: Seq<char>) -> Option<Color> {
    let t = trimmed(s);
    if t.len() == 0 {
        None
    } else if t == "default"@ {
        Some(Color::Reset)
    } else if t[0] == '#' {
        hex_color_parse(t.drop_first())
    } else if has_prefix(t, "colour"@) {
        indexed(parse_u8_spec(t.skip("colour"@.len() as int)))
    } else if has_prefix(t, "color"@) {
        indexed(parse_u8_spec(t.skip("color"@.len() as int)))
    } else if parse_u8_spec(t) is Some {
        indexed(parse_u8_spec(t))
    } else {
        named_color(t)
    }
}

fn scan_hex_color(hex: &[char]) -> (r: Option<Color>)
    ensures
        r == hex_color_parse(hex@),
{
    if !byte_len_is(hex, 6) {
        return None;
    }
    let a = match find_boundary(hex, 2) {
        Some(a) => a,
        None => return None,
    };
    let r = match parse_hex_u8(sub_chars(hex, 0, a).as_slice()) {
        Some(v) => v,
        None => return None,
    };
    let b = match find_boundary(hex, 4) {
        Some(b) => b,
        None => return None,
    };
    proof {
        lemma_boundaries_ordered(hex@, 2, 4);
    }
    let g = match parse_hex_u8(sub_chars(hex, a, b).as_slice()) {
        Some(v) => v,
        None => return None,
    };
    let bl = match parse_hex_u8(sub_chars(hex, b, hex.len()).as_slice()) {
        Some(v) => v,
        None => return None,
    };
    assert(hex@.subrange(0, a as int) =~= hex@.take(a as int));
    assert(hex@.subrange(b as int, hex@.len() as int) =~= hex@.skip(b as int));
    Some(Color::Rgb(r, g, bl))
}

fn scan_named(t: &[char]) -> (r: Option<Color>)
    ensures
        r == named_color(t@),
{
    if chars_eq(t, chars_of("black").as_slice()) {
        Some(Color::Black)
    } else if chars_eq(t, chars_of("red").as_slice()) {
        Some(Color::Red)
    } else if chars_eq(t, chars_of("green").as_slice()) {
        Some(Color::Green)
    } else if chars_eq(t, chars_of("yellow").as_slice()) {
        Some(Color::Yellow)
    } else if chars_eq(t, chars_of("blue").as_slice()) {
        Some(Color::Blue)
    } else if chars_eq(t, chars_of("magenta").as_slice()) {
        Some(Color::Magenta)
    } else if chars_eq(t, chars_of("cyan").as_slice()) {
        Some(Color::Cyan)
    } else if chars_eq(t, chars_of("white").as_slice()) {
        Some(Color::Gray)
    } else if chars_eq(t, chars_of("brightblack").as_slice()) {
        Some(Color::DarkGray)
    } else if chars_eq(t, chars_of("brightred").as_slice()) {
        Some(Color::LightRed)
    } else if chars_eq(t, chars_of("brightgreen").as_slice()) {
        Some(Color::LightGreen)
    } else if chars_eq(t, chars_of("brightyellow").as_slice()) {
        Some(Color::LightYellow)
    } else if chars_eq(t, chars_of("brightblue").as_slice()) {
        Some(Color::LightBlue)
    } else if chars_eq(t, chars_of("brightmagenta").as_slice()) {
        Some(Color::LightMagenta)
    } else if chars_eq(t, chars_of("brightcyan").as_slice()) {
        Some(Color::LightCyan)
    } else if chars_eq(t, chars_of("brightwhite").as_slice()) {
        Some(Color::White)
    } else {
        None
    }
}

fn scan_color(s: &[char]) -> (r: Option<Color>)
    ensures
        r == color_parse(s@),
{
    let t = trim(s);
    if t.len() == 0 {
        return None;
    }
    if chars_eq(t.as_slice(), chars_of("default").as_slice()) {
        return Some(Color::Reset);
    }
    if t[0] == '#' {
        let hex = sub_chars(t.as_slice(), 1, t.len());
        assert(hex@ =~= t@.drop_first());
        return scan_hex_color(hex.as_slice());
    }
    let colour = chars_of("colour");
    if starts_with(t.as_slice(), colour.as_slice()) {
        let n = sub_chars(t.as_slice(), colour.len(), t.len());
        assert(n@ =~= t@.skip("colour"@.len() as int));
        return match parse_u8(n.as_slice()) {
            Some(v) => Some(Color::Indexed(v)),
            None => None,
        };
    }
    let color = chars_of("color");
    if starts_with(t.as_slice(), color.as_slice()) {
        let n = sub_chars(t.as_slice(), color.len(), t.len());
        assert(n@ =~= t@.skip("color"@.len() as int));
        return match parse_u8(n.as_slice()) {
            Some(v) => Some(Color::Indexed(v)),
            None => None,
        };
    }
    if let Some(v) = parse_u8(t.as_slice()) {
        return Some(Color::Indexed(v));
    }
    scan_named(t.as_slice())
}

/// Parses a single tmux color token.
pub fn parse_color(s: &str) -> (r: Option<Color>)
    ensures
        r == color_parse(s@),
{
    let v = chars_of(s);
    scan_color(v.as_slice())
}

// ---------------------------------------------------------------------------
// Styles and formats.

/// One token of a style value: `fg=` and `bg=` set their color (an
/// unparseable one clears it); anything else (`bold`, ...) is ignored.
pub open spec fn style_step(acc: (Option<Color>, Option<Color>), tok: Seq<char>) -> (Option<Color>, Option<Color>) {
    let (fg, bg) = acc;
    let t = trimmed(tok);
    if has_prefix(t, "fg="@) {
        (color_parse(t.skip("fg="@.len() as int)), bg)
    } else if has_prefix(t, "bg="@) {
        (fg, color_parse(t.skip("bg="@.len() as int)))
    } else {
        (fg, bg)
    }
}

pub open spec fn style_fold(toks: Seq<Seq<char>>) -> (Option<Color>, Option<Color>)
    decreases toks.len(),
{
    if toks.len() == 0 {
        (None, None)
    } else {
        style_step(style_fold(toks.drop_last()), toks.last())
    }
}

/// The `(fg, bg)` of a tmux style value like `bg=#191724,fg=#e0def4,bold`,
/// read token by token between commas.
pub open spec fn style_parse(s: Seq<char>) -> (Option<Color>, Option<Color>) {
    style_fold(split_on(s, ','))
}

fn scan_style(s: &[char]) -> (r: (Option<Color>, Option<Color>))
    ensures
        r == style_parse(s@),
{
    let toks = split_chars(s, ',');
    let ghost tv = toks.deep_view();
    let fg_eq = chars_of("fg=");
    let bg_eq = chars_of("bg=");
    let mut fg: Option<Color> = None;
    let mut bg: Option<Color> = None;
    let mut i: usize = 0;
    while i < toks.len()
        invariant
            i <= toks.len(),
            tv == toks.deep_view(),
            tv == split_on(s@, ','),
            fg_eq@ == "fg="@,
            bg_eq@ == "bg="@,
            style_fold(tv.take(i as int)) == (fg, bg),
        decreases toks.len() - i,
    {
        assert(tv.take(i + 1).drop_last() =~= tv.take(i as int));
        assert(tv[i as int] == toks[i as int]@);
        let t = trim(toks[i].as_slice());
        if starts_with(t.as_slice(), fg_eq.as_slice()) {
            let v = sub_chars(t.as_slice(), fg_eq.len(), t.len());
            assert(v@ =~= t@.skip("fg="@.len() as int));
            fg = scan_color(v.as_slice());
        } else if starts_with(t.as_slice(), bg_eq.as_slice()) {
            let v = sub_chars(t.as_slice(), bg_eq.len(), t.len());
            assert(v@ =~= t@.skip("bg="@.len() as int));
            bg = scan_color(v.as_slice());
        }
        i = i + 1;
    }
    assert(tv.take(i as int) =~= tv);
    (fg, bg)
}

/// Splits a tmux style value like `bg=#191724,fg=#e0def4,bold` into
/// `(fg, bg)`. A field is `None` when absent or unparseable.
pub fn parse_style(s: &str) -> (r: (Option<Color>, Option<Color>))
    ensures
        r == style_parse(s@),
{
    let v = chars_of(s);
    scan_style(v.as_slice())
}

/// The first foreground color of a tmux format string such as
/// `#[fg=#31748f,bold] #S `: each `#[...]` block in turn until one sets
/// `fg=`.
pub open spec fn format_parse(s: Seq<char>) -> Option<Color>
    decreases s.len(),
{
    match first_index_of_pair(s, '#', '[') {
        None => None,
        Some(o) => {
            proof {
                lemma_first_index_of_pair_bound(s, '#', '[');
            }
            let after = s.skip(o + 2int);
            match first_index_of(after, ']') {
                None => None,
                Some(c) => {
                    proof {
                        lemma_first_index_of_bound(after, ']');
                    }
                    match style_parse(after.take(c as int)).0 {
                        Some(col) => Some(col),
                        None => format_parse(after.skip(c + 1int)),
                    }
                },
            }
        },
    }
}

fn scan_format(s: &[char]) -> (r: Option<Color>)
    ensures
        r == format_parse(s@),
{
    let mut rest = sub_chars(s, 0, s.len());
    assert(rest@ =~= s@);
    loop
        invariant
            format_parse(s@) == format_parse(rest@),
        decreases rest.len(),
    {
        let o = match find_pair(rest.as_slice(), '#', '[') {
            Some(o) => o,
            None => return None,
        };
        let after = sub_chars(rest.as_slice(), o + 2, rest.len());
        assert(after@ =~= rest@.skip(o + 2));
        let c = match find_char(after.as_slice(), ']') {
            Some(c) => c,
            None => return None,
        };
        let style = sub_chars(after.as_slice(), 0, c);
        assert(style@ =~= after@.take(c as int));
        match scan_style(style.as_slice()).0 {
            Some(col) => return Some(col),
            None => {
                let next = sub_chars(after.as_slice(), c + 1, after.len());
                assert(next@ =~= after@.skip(c + 1));
                rest = next;
            },
        }
    }
}

/// Pulls the first foreground color out of a tmux format string.
pub fn first_fg_in_format(s: &str) -> (r: Option<Color>)
    ensures
        r == format_parse(s@),
{
    let v = chars_of(s);
    scan_format(v.as_slice())
}

// ---------------------------------------------------------------------------
// The theme.

pub open spec fn or_color(c: Option<Color>, d: Color) -> Color {
    match c {
        Some(v) => v,
        None => d,
    }
}

/// The theme that the tmux options `status-style`,
/// `window-status-current-style`, `status-left` and `status-right` give;
/// each absent option, and each color it does not set, keeps its default.
pub open spec fn theme_from(
    status_style: Option<Seq<char>>,
    current_style: Option<Seq<char>>,
    status_left: Option<Seq<char>>,
    status_right: Option<Seq<char>>,
) -> Theme {
    let d = default_theme();
    let (bar_fg, bar_bg) = match status_style {
        Some(s) => (or_color(style_parse(s).0, d.bar_fg), or_color(style_parse(s).1, d.bar_bg)),
        None => (d.bar_fg, d.bar_bg),
    };
    let (pill_fg, pill_bg) = match current_style {
        Some(s) => (or_color(style_parse(s).0, d.pill_fg), or_color(style_parse(s).1, d.pill_bg)),
        None => (d.pill_fg, d.pill_bg),
    };
    let icon = match status_left {
        Some(s) => or_color(format_parse(s), d.icon),
        None => d.icon,
    };
    let active = match status_right {
        Some(s) => or_color(format_parse(s), d.active),
        None => d.active,
    };
    Theme { bar_bg, bar_fg, pill_bg, pill_fg, icon, active, selection_bg: d.selection_bg }
}

pub open spec fn opt_chars(o: Option<String>) -> Option<Seq<char>> {
    match o {
        Some(s) => Some(s@),
        None => None,
    }
}

impl Theme {
    /// Builds a theme from the values of the four tmux options (`None` for an
    /// unset one). Never fails: a missing or unparseable color leaves its
    /// default in place.
    pub fn from_options(
        status_style: Option<String>,
        current_style: Option<String>,
        status_left: Option<String>,
        status_right: Option<String>,
    ) -> (t: Theme)
        ensures
            t == theme_from(opt_chars(status_style), opt_chars(current_style), opt_chars(status_left), opt_chars(status_right)),
    {
        let mut t = Theme::default();
        if let Some(s) = &status_style {
            let (fg, bg) = parse_style(s.as_str());
            if let Some(fg) = fg {
                t.bar_fg = fg;
            }
            if let Some(bg) = bg {
                t.bar_bg = bg;
            }
        }
        if let Some(s) = &current_style {
            let (fg, bg) = parse_style(s.as_str());
            if let Some(fg) = fg {
                t.pill_fg = fg;
            }
            if let Some(bg) = bg {
                t.pill_bg = bg;
            }
        }
        if let Some(s) = &status_left {
            if let Some(c) = first_fg_in_format(s.as_str()) {
                t.icon = c;
            }
        }
        if let Some(s) = &status_right {
            if let Some(c) = first_fg_in_format(s.as_str()) {
                t.active = c;
            }
        }
        t
    }
}

/// Each part of the chrome takes its colors from its own option: the bar
/// from `status-style` and the pill from `window-status-current-style`, the
/// style's `fg=` color as the foreground and its `bg=` color as the
/// background; a color the style does not set, or an option that is unset,
/// leaves the default. Neither option touches the other part's colors.
pub proof fn style_colors_go_to_their_parts(
    status_style: Option<Seq<char>>,
    current_style: Option<Seq<char>>,
    status_left: Option<Seq<char>>,
    status_right: Option<Seq<char>>,
)
    ensures
        ({
            let t = theme_from(status_style, current_style, status_left, status_right);
            let d = default_theme();
            &&& match current_style {
                Some(s) => (match style_parse(s).0 {
                    Some(c) => t.pill_fg == c,
                    None => t.pill_fg == d.pill_fg,
                }) && (match style_parse(s).1 {
                    Some(c) => t.pill_bg == c,
                    None => t.pill_bg == d.pill_bg,
                }),
                None => t.pill_fg == d.pill_fg && t.pill_bg == d.pill_bg,
            }
            &&& match status_style {
                Some(s) => (match style_parse(s).0 {
                    Some(c) => t.bar_fg == c,
                    None => t.bar_fg == d.bar_fg,
                }) && (match style_parse(s).1 {
                    Some(c) => t.bar_bg == c,
                    None => t.bar_bg == d.bar_bg,
                }),
                None => t.bar_fg == d.bar_fg && t.bar_bg == d.bar_bg,
            }
            &&& t.pill_fg == theme_from(None, current_style, None, None).pill_fg
            &&& t.pill_bg == theme_from(None, current_style, None, None).pill_bg
            &&& t.bar_fg == theme_from(status_style, None, None, None).bar_fg
            &&& t.bar_bg == theme_from(status_style, None, None, None).bar_bg
        }),
{
}

/// The bar and the pill read a style alike: given the same style, the pill
/// gets the colors the bar gets.
pub proof fn pill_and_bar_read_a_style_alike(s: Seq<char>, status_left: Option<Seq<char>>, status_right: Option<Seq<char>>)
    ensures
        theme_from(Some(s), Some(s), status_left, status_right).pill_fg == theme_from(Some(s), Some(s), status_left, status_right).bar_fg,
        theme_from(Some(s), Some(s), status_left, status_right).pill_bg == theme_from(Some(s), Some(s), status_left, status_right).bar_bg,
{
}

} // verus!
