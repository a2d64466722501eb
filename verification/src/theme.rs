//! Ghostty themes: reading a theme file's colours, the filters and search
//! of the theme picker, the order in which themes are listed, the keys of
//! the picker, and what its preview shows.
//!
//! Whether a theme is dark is decided from the background's luminance, a
//! floating-point computation that is made where floating point is
//! allowed; here it is a given of each theme.

use vstd::prelude::*;
use crate::number::{decimal, hex_chars, hex_digits, parse_bounded, parse_unsigned_bounded, u64_to_string};
use crate::order::{lex_lt, chars_lt};
use crate::text::{
    chars_eq, chars_of, find_char, first_index_of, lines, slice_chars, split_lines, string_from_chars,
    trim, trim_start_all, trim_start_matches, trim_ws, views, contains_seq, contains_seq_exec, occurs_at, push_all,
    push_str,
};
use crate::workspace::{path_file_stem, file_stem};

verus! {

/// A terminal colour as a theme gives it.
#[derive(Debug, Clone, Copy, PartialEq, Eq, Structural)]
pub enum Color {
    Rgb(u8, u8, u8),
    Black,
    Red,
    Green,
    Yellow,
    Blue,
    Magenta,
    Cyan,
    White,
    /// Any other named colour of the terminal.
    Other,
}

/// The value of a hexadecimal digit.
pub open spec fn hex_value(c: char) -> Option<nat> {
    if '0' <= c && c <= '9' {
        Some((c as nat - '0' as nat) as nat)
    } else if 'a' <= c && c <= 'f' {
        Some((c as nat - 'a' as nat + 10) as nat)
    } else if 'A' <= c && c <= 'F' {
        Some((c as nat - 'A' as nat + 10) as nat)
    } else {
        None
    }
}

/// `u8::from_str_radix` with radix 16 on two characters: two hexadecimal
/// digits, or `+` and one.
pub open spec fn hex_pair(a: char, b: char) -> Option<u8> {
    if a == '+' {
        match hex_value(b) {
            Some(v) => Some(v as u8),
            None => None,
        }
    } else {
        match (hex_value(a), hex_value(b)) {
            (Some(x), Some(y)) => Some((x * 16 + y) as u8),
            _ => None,
        }
    }
}

/// A colour written as six hexadecimal digits, after any number of `#`.
pub open spec fn spec_parse_color(s: Seq<char>) -> Option<Color> {
    let h = trim_start_all(s, "#"@);
    if h.len() != 6 {
        None
    } else {
        match (hex_pair(h[0], h[1]), hex_pair(h[2], h[3]), hex_pair(h[4], h[5])) {
            (Some(r), Some(g), Some(b)) => Some(Color::Rgb(r, g, b)),
            _ => None,
        }
    }
}

fn hex_value_exec(c: char) -> (r: Option<u8>)
    ensures
        match r {
            Some(v) => hex_value(c) == Some(v as nat) && v < 16,
            None => hex_value(c) is None,
        },
{
    if '0' <= c && c <= '9' {
        Some(((c as u32) - ('0' as u32)) as u8)
    } else if 'a' <= c && c <= 'f' {
        Some(((c as u32) - ('a' as u32) + 10) as u8)
    } else if 'A' <= c && c <= 'F' {
        Some(((c as u32) - ('A' as u32) + 10) as u8)
    } else {
        None
    }
}

fn hex_pair_exec(a: char, b: char) -> (r: Option<u8>)
    ensures
        r == hex_pair(a, b),
{
    if a == '+' {
        hex_value_exec(b)
    } else {
        match (hex_value_exec(a), hex_value_exec(b)) {
            (Some(x), Some(y)) => Some(x * 16 + y),
            _ => None,
        }
    }
}

/// Reads a colour such as `#1d1f21`.
pub fn parse_color(hex: &str) -> (r: Option<Color>)
    ensures
        r == spec_parse_color(hex@),
{
    proof {
        reveal_strlit("#");
    }
    let h = trim_start_matches(&chars_of(hex), &chars_of("#"));
    if h.len() != 6 {
        return None;
    }
    match (hex_pair_exec(h[0], h[1]), hex_pair_exec(h[2], h[3]), hex_pair_exec(h[4], h[5])) {
        (Some(r), Some(g), Some(b)) => Some(Color::Rgb(r, g, b)),
        _ => None,
    }
}

/// A colour as the preview writes it: `#rrggbb` in lower case for an RGB
/// colour or a basic named one, `unknown` otherwise.
pub open spec fn spec_format_hex(c: Color) -> Seq<char> {
    match c {
        Color::Rgb(r, g, b) => "#"@ + hex_digits(r as nat, 2) + hex_digits(g as nat, 2) + hex_digits(b as nat, 2),
        Color::Black => "#000000"@,
        Color::Red => "#ff0000"@,
        Color::Green => "#00ff00"@,
        Color::Yellow => "#ffff00"@,
        Color::Blue => "#0000ff"@,
        Color::Magenta => "#ff00ff"@,
        Color::Cyan => "#00ffff"@,
        Color::White => "#ffffff"@,
        Color::Other => "unknown"@,
    }
}

/// Writes a colour for the preview.
pub fn format_hex(c: Color) -> (r: String)
    ensures
        r@ == spec_format_hex(c),
{
    match c {
        Color::Rgb(r, g, b) => {
            let mut s = chars_of("#");
            push_all(&mut s, &hex_chars(r as u64, 2));
            push_all(&mut s, &hex_chars(g as u64, 2));
            push_all(&mut s, &hex_chars(b as u64, 2));
            string_from_chars(&s)
        },
        Color::Black => String::from_str("#000000"),
        Color::Red => String::from_str("#ff0000"),
        Color::Green => String::from_str("#00ff00"),
        Color::Yellow => String::from_str("#ffff00"),
        Color::Blue => String::from_str("#0000ff"),
        Color::Magenta => String::from_str("#ff00ff"),
        Color::Cyan => String::from_str("#00ffff"),
        Color::White => String::from_str("#ffffff"),
        Color::Other => String::from_str("unknown"),
    }
}

proof fn lemma_hex_char_value(d: nat)
    requires
        d < 16,
    ensures
        hex_value(crate::number::hex_char(d)) == Some(d),
        crate::number::hex_char(d) != '#',
        crate::number::hex_char(d) != '+',
{
}

proof fn lemma_hex_pair_of_digits(x: u8)
    ensures
        hex_digits(x as nat, 2).len() == 2,
        hex_digits(x as nat, 2)[0] != '#',
        hex_pair(hex_digits(x as nat, 2)[0], hex_digits(x as nat, 2)[1]) == Some(x),
{
    let hi = (x as nat / 16) % 16;
    let lo = x as nat % 16;
    assert(x as nat / 16 < 16);
    assert(hex_digits(x as nat / 16 / 16, 0) =~= Seq::<char>::empty());
    assert(hex_digits(x as nat / 16, 1) =~= seq![crate::number::hex_char(hi)]);
    assert(hex_digits(x as nat, 2) =~= seq![crate::number::hex_char(hi), crate::number::hex_char(lo)]);
    lemma_hex_char_value(hi);
    lemma_hex_char_value(lo);
    assert(hi * 16 + lo == x as nat);
}

/// A colour written for the preview reads back as the same colour.
pub proof fn law_color_round_trip(r: u8, g: u8, b: u8)
    ensures
        spec_parse_color(spec_format_hex(Color::Rgb(r, g, b))) == Some(Color::Rgb(r, g, b)),
{
    reveal_strlit("#");
    lemma_hex_pair_of_digits(r);
    lemma_hex_pair_of_digits(g);
    lemma_hex_pair_of_digits(b);
    let digits = hex_digits(r as nat, 2) + hex_digits(g as nat, 2) + hex_digits(b as nat, 2);
    let text = spec_format_hex(Color::Rgb(r, g, b));
    assert(text =~= "#"@ + digits);
    assert(text.take(1) =~= "#"@);
    assert(text.skip(1) =~= digits);
    assert(!crate::text::has_prefix(digits, "#"@)) by {
        assert(digits[0] == hex_digits(r as nat, 2)[0]);
        if crate::text::has_prefix(digits, "#"@) {
            assert(digits.take(1)[0] == "#"@[0]);
        }
    }
    assert(trim_start_all(digits, "#"@) == digits);
    assert(trim_start_all(text, "#"@) == digits);
}

/// The colours of a theme.
#[derive(Debug, Clone, PartialEq, Eq)]
pub struct ThemeColors {
    /// The sixteen palette colours.
    pub palette: Vec<Color>,
    pub background: Color,
    pub foreground: Color,
}

/// Reading a theme file: the palette, background and foreground so far,
/// or none once a colour failed to read.
pub open spec fn theme_line(st: Option<(Seq<Color>, Color, Color)>, line: Seq<char>) -> Option<(Seq<Color>, Color, Color)> {
    match st {
        None => None,
        Some((pal, bg, fg)) => {
            let t = trim(line);
            if t.len() == 0 || t[0] == '#' {
                st
            } else {
                match first_index_of(t, '=') {
                    None => st,
                    Some(i) => {
                        let key = trim(t.take(i));
                        let value = trim(t.skip(i + 1));
                        if key == "palette"@ {
                            match first_index_of(value, '=') {
                                None => st,
                                Some(j) => match parse_bounded(trim(value.take(j)), usize::MAX as nat) {
                                    Some(idx) => if idx < 16 {
                                        match spec_parse_color(value.skip(j + 1)) {
                                            Some(c) => Some((pal.update(idx as int, c), bg, fg)),
                                            None => None,
                                        }
                                    } else {
                                        st
                                    },
                                    None => st,
                                },
                            }
                        } else if key == "background"@ {
                            match spec_parse_color(value) {
                                Some(c) => Some((pal, c, fg)),
                                None => None,
                            }
                        } else if key == "foreground"@ {
                            match spec_parse_color(value) {
                                Some(c) => Some((pal, bg, c)),
                                None => None,
                            }
                        } else {
                            st
                        }
                    },
                }
            }
        },
    }
}

/// The colours after reading the lines: the palette black, the background
/// black and the foreground white until the file sets them.
pub open spec fn theme_lines(ls: Seq<Seq<char>>) -> Option<(Seq<Color>, Color, Color)>
    decreases ls.len(),
{
    if ls.len() == 0 {
        Some((Seq::new(16, |i: int| Color::Black), Color::Black, Color::White))
    } else {
        theme_line(theme_lines(ls.drop_last()), ls.last())
    }
}

/// Once a colour failed to read, the theme stays spoilt.
proof fn lemma_theme_lines_spoilt(ls: Seq<Seq<char>>, n: int)
    requires
        0 <= n <= ls.len(),
        theme_lines(ls.take(n)) is None,
    ensures
        theme_lines(ls) is None,
    decreases ls.len() - n,
{
    if n < ls.len() {
        assert(ls.take(n + 1).drop_last() =~= ls.take(n));
        lemma_theme_lines_spoilt(ls, n + 1);
    } else {
        assert(ls.take(n) =~= ls);
    }
}

/// Reads the colours of a theme file: `palette = N=#rrggbb`,
/// `background = #rrggbb`, `foreground = #rrggbb`; a colour that does not
/// read spoils the theme.
pub fn parse_theme_colors(content: &str) -> (r: Option<ThemeColors>)
    ensures
        match r {
            Some(t) => theme_lines(lines(content@)) == Some((t.palette@, t.background, t.foreground)),
            None => theme_lines(lines(content@)) is None,
        },
{
    let ls = split_lines(&chars_of(content));
    let ghost lv = views(ls@);
    let mut palette: Vec<Color> = Vec::new();
    let mut k: usize = 0;
    while k < 16
        invariant
            k <= 16,
            palette@ == Seq::new(k as nat, |i: int| Color::Black),
        decreases 16 - k,
    {
        palette.push(Color::Black);
        k += 1;
        assert(palette@ =~= Seq::new(k as nat, |i: int| Color::Black));
    }
    let mut bg = Color::Black;
    let mut fg = Color::White;
    let mut i: usize = 0;
    assert(lv.take(0) =~= Seq::<Seq<char>>::empty());
    while i < ls.len()
        invariant
            i <= ls.len(),
            lv == views(ls@),
            lv == lines(content@),
            palette@.len() == 16,
            theme_lines(lv.take(i as int)) == Some((palette@, bg, fg)),
        decreases ls.len() - i,
    {
        assert(lv.take(i + 1).drop_last() =~= lv.take(i as int));
        assert(lv.take(i + 1).last() == ls@[i as int]@);
        let t = trim_ws(&ls[i]);
        if t.len() == 0 || t[0] == '#' {
        } else {
            proof {
                crate::text::lemma_first_index_of(t@, '=');
            }
            match find_char(&t, '=') {
                None => {},
                Some(e) => {
                    let key = trim_ws(&slice_chars(&t, 0, e));
                    let value = trim_ws(&slice_chars(&t, e + 1, t.len()));
                    assert(t@.take(e as int) =~= t@.subrange(0, e as int));
                    assert(t@.skip(e + 1) =~= t@.subrange(e + 1, t@.len() as int));
                    let vs = string_from_chars(&value);
                    if chars_eq(&key, &chars_of("palette")) {
                        proof {
                            crate::text::lemma_first_index_of(value@, '=');
                        }
                        match find_char(&value, '=') {
                            None => {},
                            Some(q) => {
                                let idx_part = trim_ws(&slice_chars(&value, 0, q));
                                let color_part = string_from_chars(&slice_chars(&value, q + 1, value.len()));
                                assert(value@.take(q as int) =~= value@.subrange(0, q as int));
                                assert(value@.skip(q + 1) =~= value@.subrange(q + 1, value@.len() as int));
                                match parse_unsigned_bounded(&idx_part, usize::MAX as u64) {
                                    Some(idx) => {
                                        if idx < 16 {
                                            match parse_color(color_part.as_str()) {
                                                Some(c) => {
                                                    palette.set(idx as usize, c);
                                                },
                                                None => {
                                                    proof {
                                                        lemma_theme_lines_spoilt(lv, i + 1);
                                                    }
                                                    return None;
                                                },
                                            }
                                        }
                                    },
                                    None => {},
                                }
                            },
                        }
                    } else if chars_eq(&key, &chars_of("background")) {
                        match parse_color(vs.as_str()) {
                            Some(c) => {
                                bg = c;
                            },
                            None => {
                                proof {
                                    lemma_theme_lines_spoilt(lv, i + 1);
                                }
                                return None;
                            },
                        }
                    } else if chars_eq(&key, &chars_of("foreground")) {
                        match parse_color(vs.as_str()) {
                            Some(c) => {
                                fg = c;
                            },
                            None => {
                                proof {
                                    lemma_theme_lines_spoilt(lv, i + 1);
                                }
                                return None;
                            },
                        }
                    }
                },
            }
        }
        i += 1;
    }
    assert(lv.take(ls.len() as int) =~= lv);
    Some(ThemeColors { palette, background: bg, foreground: fg })
}

/// A theme.
#[derive(Debug, Clone)]
pub struct Theme {
    pub name: String,
    pub path: String,
    pub palette: Vec<Color>,
    pub background: Color,
    pub foreground: Color,
    pub is_dark: bool,
}

/// The name of the theme in a file: the file's stem.
pub fn theme_name(path: &str) -> (r: Option<String>)
    ensures
        match r {
            Some(n) => path_file_stem(path@) == Some(n@),
            None => path_file_stem(path@) is None,
        },
{
    file_stem(path)
}

/// Which themes the picker shows.
#[derive(Debug, Clone, Copy, PartialEq, Eq, Structural)]
pub enum ThemeFilter {
    All,
    Dark,
    Light,
}

/// The filter after `f` in the picker's cycle: all, dark, light, all.
pub open spec fn spec_next(f: ThemeFilter) -> ThemeFilter {
    match f {
        ThemeFilter::All => ThemeFilter::Dark,
        ThemeFilter::Dark => ThemeFilter::Light,
        ThemeFilter::Light => ThemeFilter::All,
    }
}

/// The word the picker shows for a filter.
pub open spec fn spec_label(f: ThemeFilter) -> Seq<char> {
    match f {
        ThemeFilter::All => "all"@,
        ThemeFilter::Dark => "dark"@,
        ThemeFilter::Light => "light"@,
    }
}

impl ThemeFilter {
    /// The next filter in the cycle.
    pub fn next(self) -> (r: ThemeFilter)
        ensures
            r == spec_next(self),
    {
        match self {
            ThemeFilter::All => ThemeFilter::Dark,
            ThemeFilter::Dark => ThemeFilter::Light,
            ThemeFilter::Light => ThemeFilter::All,
        }
    }

    /// The word for the filter.
    pub fn label(self) -> (r: &'static str)
        ensures
            r@ == spec_label(self),
    {
        match self {
            ThemeFilter::All => "all",
            ThemeFilter::Dark => "dark",
            ThemeFilter::Light => "light",
        }
    }
}

/// Cycling through the filters returns to the start after three steps,
/// passing through three different filters.
pub proof fn law_filter_cycle(f: ThemeFilter)
    ensures
        spec_next(spec_next(spec_next(f))) == f,
        spec_next(f) != f,
        spec_next(spec_next(f)) != f,
{
}

/// What `str::to_lowercase` gives: the whole string lowered by Unicode's
/// rules and tables, context included (a final sigma lowers differently).
pub uninterp spec fn unicode_lowercase(s: Seq<char>) -> Seq<char>;

/// Calls `str::to_lowercase`; the contract names its result
/// [`unicode_lowercase`] and says of it only that an empty string stays
/// empty.
#[verifier::external_body]
fn to_lowercase(s: &str) -> (r: String)
    ensures
        r@ == unicode_lowercase(s@),
        s@.len() == 0 ==> r@.len() == 0,
{
    s.to_lowercase()
}

/// A theme passes the filter.
pub open spec fn passes_filter(t: Theme, f: ThemeFilter) -> bool {
    match f {
        ThemeFilter::All => true,
        ThemeFilter::Dark => t.is_dark,
        ThemeFilter::Light => !t.is_dark,
    }
}

/// A theme matches the search: the search is empty, or the lower-case
/// name holds the lower-case search.
pub open spec fn matches_search(t: Theme, search: Seq<char>) -> bool {
    search.len() == 0 || contains_seq(unicode_lowercase(t.name@), unicode_lowercase(search))
}

/// The indices of the themes that pass the filter and match the search, in
/// increasing order.
pub open spec fn spec_filter_themes(themes: Seq<Theme>, f: ThemeFilter, search: Seq<char>) -> Seq<usize>
    decreases themes.len(),
{
    if themes.len() == 0 {
        Seq::empty()
    } else {
        let rest = spec_filter_themes(themes.drop_last(), f, search);
        if passes_filter(themes.last(), f) && matches_search(themes.last(), search) {
            rest.push((themes.len() - 1) as usize)
        } else {
            rest
        }
    }
}

/// The picker lists exactly the themes that pass the filter and match the
/// search, each once, in the order they were read.
pub proof fn law_filter_themes_exact(themes: Seq<Theme>, f: ThemeFilter, search: Seq<char>)
    requires
        themes.len() <= usize::MAX,
    ensures
        forall|k: int|
            0 <= k < spec_filter_themes(themes, f, search).len() ==> {
                let i = #[trigger] spec_filter_themes(themes, f, search)[k] as int;
                &&& i < themes.len()
                &&& passes_filter(themes[i], f)
                &&& matches_search(themes[i], search)
            },
        forall|k: int, l: int|
            0 <= k < l < spec_filter_themes(themes, f, search).len() ==> spec_filter_themes(themes, f, search)[k]
                < spec_filter_themes(themes, f, search)[l],
        forall|i: int|
            0 <= i < themes.len() && passes_filter(#[trigger] themes[i], f) && matches_search(themes[i], search)
                ==> spec_filter_themes(themes, f, search).contains(i as usize),
    decreases themes.len(),
{
    if themes.len() > 0 {
        let d = themes.drop_last();
        law_filter_themes_exact(d, f, search);
        let rest = spec_filter_themes(d, f, search);
        let r = spec_filter_themes(themes, f, search);
        assert forall|k: int| 0 <= k < rest.len() implies (#[trigger] rest[k]) < themes.len() - 1
            && themes[rest[k] as int] == d[rest[k] as int] by {}
        assert forall|i: int|
            0 <= i < themes.len() && passes_filter(#[trigger] themes[i], f) && matches_search(themes[i], search)
            implies r.contains(i as usize) by {
            if i < themes.len() - 1 {
                assert(themes[i] == d[i]);
                let k = choose|k: int| 0 <= k < rest.len() && rest[k] == i as usize;
                assert(r[k] == rest[k]);
            } else {
                assert(r[r.len() - 1] == i as usize);
            }
        }
    }
}

/// The themes the picker lists: in increasing order, each index of a theme
/// that passes the filter and whose lower-case name holds the lower-case
/// search.
pub fn filter_themes(themes: &Vec<Theme>, filter: ThemeFilter, search: &str) -> (r: Vec<usize>)
    ensures
        r@ == spec_filter_themes(themes@, filter, search@),
        forall|k: int, l: int| 0 <= k < l < r@.len() ==> r@[k] < r@[l],
        forall|k: int| 0 <= k < r@.len() ==> r@[k] < themes@.len(),
        forall|i: int|
            0 <= i < themes@.len() ==> (r@.contains(i as usize) <==> passes_filter(#[trigger] themes@[i], filter)
                && contains_seq(unicode_lowercase(themes@[i].name@), unicode_lowercase(search@))),
{
    let empty = chars_of(search).len() == 0;
    let needle = chars_of(to_lowercase(search).as_str());
    let mut out: Vec<usize> = Vec::new();
    let mut i: usize = 0;
    assert(themes@.take(0) =~= Seq::<Theme>::empty());
    while i < themes.len()
        invariant
            i <= themes.len(),
            empty == (search@.len() == 0),
            needle@ == unicode_lowercase(search@),
            search@.len() == 0 ==> needle@.len() == 0,
            out@ == spec_filter_themes(themes@.take(i as int), filter, search@),
        decreases themes.len() - i,
    {
        assert(themes@.take(i + 1).drop_last() =~= themes@.take(i as int));
        assert(themes@.take(i + 1).last() == themes@[i as int]);
        let t = &themes[i];
        let pass = match filter {
            ThemeFilter::All => true,
            ThemeFilter::Dark => t.is_dark,
            ThemeFilter::Light => !t.is_dark,
        };
        let hit = empty || contains_seq_exec(&chars_of(to_lowercase(t.name.as_str()).as_str()), &needle);
        if pass && hit {
            out.push(i);
        }
        i += 1;
    }
    assert(themes@.take(themes.len() as int) =~= themes@);
    proof {
        law_filter_themes_exact(themes@, filter, search@);
        let r = out@;
        if search@.len() == 0 {
            assert forall|x: Seq<char>| contains_seq(x, unicode_lowercase(search@)) by {
                assert(x.subrange(0, 0) =~= unicode_lowercase(search@));
                assert(occurs_at(x, unicode_lowercase(search@), 0));
            }
        }
        assert forall|i: int| 0 <= i < themes@.len() implies (r.contains(i as usize) <==> passes_filter(
            #[trigger] themes@[i],
            filter,
        ) && contains_seq(unicode_lowercase(themes@[i].name@), unicode_lowercase(search@))) by {
            if r.contains(i as usize) {
                let k = choose|k: int| 0 <= k < r.len() && r[k] == i as usize;
                assert(r[k] as int == i);
            }
        }
    }
    out
}

/// Themes are listed by lower-case name.
impl crate::order::Keyed for Theme {
    open spec fn key_view(&self) -> Seq<char> {
        unicode_lowercase(self.name@)
    }

    fn key_chars(&self) -> (r: Vec<char>) {
        chars_of(to_lowercase(self.name.as_str()).as_str())
    }
}

/// Sorts themes for listing: by lower-case name, themes with the same
/// lower-case name in the order found (a stable sort).
pub fn sort_themes_by_name(themes: Vec<Theme>) -> (r: Vec<Theme>)
    ensures
        r@ == crate::order::sort_keyed(themes@),
{
    crate::order::stable_sort_by_key(themes)
}

/// The command the picker carries out for a key.
#[derive(Debug, Clone, Copy, PartialEq, Eq)]
pub enum PickerMove {
    /// Nothing beyond updating the list.
    Stay,
    Next,
    Previous,
    First,
    Last,
    /// Apply the selected theme.
    Confirm,
    /// Leave without a theme.
    Cancel,
}

/// A key pressed in the picker.
#[derive(Debug, Clone, Copy, PartialEq, Eq)]
pub enum PickerKey {
    Char(char),
    Esc,
    Enter,
    Backspace,
    Down,
    Up,
    Home,
    End,
    Other,
}

/// The picker's own state: its filter, its search and whether the search
/// is being typed.
#[derive(Debug, Clone, PartialEq, Eq)]
pub struct PickerState {
    pub filter: ThemeFilter,
    pub search: Vec<char>,
    pub search_active: bool,
}

/// What a key does to the picker: while the search is typed, `Esc` and
/// `Enter` end it, `c` clears it, `Backspace` removes its last character
/// and any other character is added; otherwise `j`/`k`/`g`/`G` and the
/// arrows, `Home`, `End` move, `f` cycles the filter, `/` starts a search,
/// `Enter`/`y` confirm and `q`/`Esc` cancel.
pub open spec fn spec_picker_step(filter: ThemeFilter, search: Seq<char>, active: bool, key: PickerKey) -> (
    ThemeFilter,
    Seq<char>,
    bool,
    PickerMove,
) {
    if active {
        match key {
            PickerKey::Esc | PickerKey::Enter => (filter, search, false, PickerMove::Stay),
            PickerKey::Char(c) => if c == 'c' || c == 'C' {
                (filter, Seq::empty(), true, PickerMove::Stay)
            } else {
                (filter, search.push(c), true, PickerMove::Stay)
            },
            PickerKey::Backspace => (
                filter,
                if search.len() > 0 {
                    search.drop_last()
                } else {
                    search
                },
                true,
                PickerMove::Stay,
            ),
            _ => (filter, search, true, PickerMove::Stay),
        }
    } else {
        match key {
            PickerKey::Char(c) => if c == 'j' {
                (filter, search, false, PickerMove::Next)
            } else if c == 'k' {
                (filter, search, false, PickerMove::Previous)
            } else if c == 'g' {
                (filter, search, false, PickerMove::First)
            } else if c == 'G' {
                (filter, search, false, PickerMove::Last)
            } else if c == 'f' {
                (spec_next(filter), search, false, PickerMove::Stay)
            } else if c == '/' {
                (filter, search, true, PickerMove::Stay)
            } else if c == 'y' || c == 'Y' {
                (filter, search, false, PickerMove::Confirm)
            } else if c == 'q' {
                (filter, search, false, PickerMove::Cancel)
            } else {
                (filter, search, false, PickerMove::Stay)
            },
            PickerKey::Down => (filter, search, false, PickerMove::Next),
            PickerKey::Up => (filter, search, false, PickerMove::Previous),
            PickerKey::Home => (filter, search, false, PickerMove::First),
            PickerKey::End => (filter, search, false, PickerMove::Last),
            PickerKey::Enter => (filter, search, false, PickerMove::Confirm),
            PickerKey::Esc => (filter, search, false, PickerMove::Cancel),
            _ => (filter, search, false, PickerMove::Stay),
        }
    }
}

impl PickerState {
    /// The picker as it opens: all themes, no search.
    pub fn new() -> (r: PickerState)
        ensures
            r.filter == ThemeFilter::All,
            r.search@ == Seq::<char>::empty(),
            !r.search_active,
    {
        PickerState { filter: ThemeFilter::All, search: Vec::new(), search_active: false }
    }

    /// Handles a key; returns the command to carry out.
    pub fn step(&mut self, key: PickerKey) -> (r: PickerMove)
        ensures
            (final(self).filter, final(self).search@, final(self).search_active, r) == spec_picker_step(
                old(self).filter,
                old(self).search@,
                old(self).search_active,
                key,
            ),
    {
        if self.search_active {
            match key {
                PickerKey::Esc | PickerKey::Enter => {
                    self.search_active = false;
                },
                PickerKey::Char(c) => {
                    if c == 'c' || c == 'C' {
                        self.search = Vec::new();
                    } else {
                        self.search.push(c);
                    }
                },
                PickerKey::Backspace => {
                    if self.search.len() > 0 {
                        let _ = self.search.pop();
                    }
                },
                _ => {},
            }
            PickerMove::Stay
        } else {
            match key {
                PickerKey::Char(c) => {
                    if c == 'j' {
                        PickerMove::Next
                    } else if c == 'k' {
                        PickerMove::Previous
                    } else if c == 'g' {
                        PickerMove::First
                    } else if c == 'G' {
                        PickerMove::Last
                    } else if c == 'f' {
                        self.filter = self.filter.next();
                        PickerMove::Stay
                    } else if c == '/' {
                        self.search_active = true;
                        PickerMove::Stay
                    } else if c == 'y' || c == 'Y' {
                        PickerMove::Confirm
                    } else if c == 'q' {
                        PickerMove::Cancel
                    } else {
                        PickerMove::Stay
                    }
                },
                PickerKey::Down => PickerMove::Next,
                PickerKey::Up => PickerMove::Previous,
                PickerKey::Home => PickerMove::First,
                PickerKey::End => PickerMove::Last,
                PickerKey::Enter => PickerMove::Confirm,
                PickerKey::Esc => PickerMove::Cancel,
                _ => PickerMove::Stay,
            }
        }
    }
}

/// The line above the list: the filter, and the search when there is one.
pub open spec fn spec_filter_line(filter: ThemeFilter, search: Seq<char>) -> Seq<char> {
    if search.len() > 0 {
        "[Filter: "@ + spec_label(filter) + "] searching: \""@ + search + "\" (Press 'c' to clear)"@
    } else {
        "[Filter: "@ + spec_label(filter) + "] (Press '/' to search)"@
    }
}

/// The line above the picker's list.
pub fn filter_line(filter: ThemeFilter, search: &Vec<char>) -> (r: String)
    ensures
        r@ == spec_filter_line(filter, search@),
{
    let mut s = chars_of("[Filter: ");
    push_str(&mut s, filter.label());
    if search.len() > 0 {
        push_str(&mut s, "] searching: \"");
        push_all(&mut s, search);
        push_str(&mut s, "\" (Press 'c' to clear)");
    } else {
        push_str(&mut s, "] (Press '/' to search)");
    }
    string_from_chars(&s)
}

/// A list entry: a marker before the current theme, spaces before others.
pub open spec fn spec_list_entry(name: Seq<char>, current: bool) -> Seq<char> {
    if current {
        "❯ "@ + name
    } else {
        "  "@ + name
    }
}

/// The list entry of a theme.
pub fn list_entry(name: &str, current: bool) -> (r: String)
    ensures
        r@ == spec_list_entry(name@, current),
{
    let mut s = if current {
        String::from_str("❯ ")
    } else {
        String::from_str("  ")
    };
    s.append(name);
    s
}

/// The colour of the preview for a syntax element: the palette colour,
/// unless it is plain black, then its bright variant.
pub open spec fn fallback(base: Color, light: Color) -> Color {
    if base != Color::Black {
        base
    } else {
        light
    }
}

/// The colours of the preview's code: keywords, function names, types,
/// literals, macros, comments and line numbers, and text.
#[derive(Debug, Clone, Copy, PartialEq, Eq)]
pub struct PreviewColors {
    pub keyword: Color,
    pub function: Color,
    pub type_color: Color,
    pub literal: Color,
    pub macro_name: Color,
    pub comment: Color,
    pub line_number: Color,
    pub text: Color,
}

/// The preview's colours from a theme's palette and foreground.
pub open spec fn spec_preview_colors(palette: Seq<Color>, foreground: Color) -> PreviewColors {
    PreviewColors {
        keyword: fallback(palette[1], palette[9]),
        function: fallback(palette[4], palette[12]),
        type_color: fallback(palette[3], palette[11]),
        literal: fallback(palette[2], palette[10]),
        macro_name: fallback(palette[5], palette[13]),
        comment: palette[8],
        line_number: palette[8],
        text: foreground,
    }
}

fn fallback_exec(base: Color, light: Color) -> (r: Color)
    ensures
        r == fallback(base, light),
{
    if base != Color::Black {
        base
    } else {
        light
    }
}

/// The colours of a theme's preview.
pub fn preview_colors(palette: &Vec<Color>, foreground: Color) -> (r: PreviewColors)
    requires
        palette@.len() == 16,
    ensures
        r == spec_preview_colors(palette@, foreground),
{
    PreviewColors {
        keyword: fallback_exec(palette[1], palette[9]),
        function: fallback_exec(palette[4], palette[12]),
        type_color: fallback_exec(palette[3], palette[11]),
        literal: fallback_exec(palette[2], palette[10]),
        macro_name: fallback_exec(palette[5], palette[13]),
        comment: palette[8],
        line_number: palette[8],
        text: foreground,
    }
}

/// The words under a theme's name in the preview.
pub fn darkness_label(is_dark: bool) -> (r: &'static str)
    ensures
        r@ == if is_dark {
            "Dark Theme"@
        } else {
            "Light Theme"@
        },
{
    if is_dark {
        "Dark Theme"
    } else {
        "Light Theme"
    }
}

/// The label of palette cell `idx`: its number in two digits, padded by a
/// space on either side.
pub open spec fn spec_palette_label(idx: nat) -> Seq<char> {
    " "@ + (if idx < 10 {
        "0"@ + decimal(idx)
    } else {
        decimal(idx)
    }) + " "@
}

/// The label of a palette cell.
pub fn palette_label(idx: u8) -> (r: String)
    requires
        idx < 100,
    ensures
        r@ == spec_palette_label(idx as nat),
{
    let mut s = String::from_str(" ");
    if idx < 10 {
        s.append("0");
    }
    s.append(u64_to_string(idx as u64).as_str());
    s.append(" ");
    s
}

/// The line of a theme in the list printed when there is no terminal: its
/// name padded to 30 characters, `[dark]` or `[light]`, and its path.
pub open spec fn spec_listing_line(name: Seq<char>, is_dark: bool, path: Seq<char>) -> Seq<char> {
    "  "@ + crate::ui::pad(name, 30) + " ["@ + (if is_dark {
        "dark"@
    } else {
        "light"@
    }) + "] "@ + path
}

/// The line of a theme in the plain listing.
pub fn listing_line(name: &str, is_dark: bool, path: &str) -> (r: String)
    ensures
        r@ == spec_listing_line(name@, is_dark, path@),
{
    let mut s = chars_of("  ");
    let mut n = chars_of(name);
    let len = n.len();
    if len < 30 {
        let mut k: usize = 0;
        while k < 30 - len
            invariant
                len < 30,
                len == name@.len(),
                k <= 30 - len,
                n@ == name@ + Seq::new(k as nat, |i: int| ' '),
            decreases 30 - len - k,
        {
            n.push(' ');
            k += 1;
            assert(n@ =~= name@ + Seq::new(k as nat, |i: int| ' '));
        }
    }
    push_all(&mut s, &n);
    push_str(&mut s, " [");
    push_str(&mut s, if is_dark {
        "dark"
    } else {
        "light"
    });
    push_str(&mut s, "] ");
    push_str(&mut s, path);
    string_from_chars(&s)
}

/// The line that selects a theme in Ghostty's configuration.
pub fn theme_setting(name: &str) -> (r: String)
    ensures
        r@ == "theme = "@ + name@ + "\n"@,
{
    let mut s = String::from_str("theme = ");
    s.append(name);
    s.append("\n");
    s
}

} // verus!
