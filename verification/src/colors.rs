//! Color specifications and the color scheme of the output.
use vstd::prelude::*;
use crate::logo_colors::{logo_color_entries, logo_color_table, LogoColorEntry, LogoColorView};
use crate::config::{opt_view, Config};
use crate::theme::TerminalTheme;
use crate::text::{
    byte_len, byte_length, char_index_at_byte, chars_of, decimal, ends_with_str, eq_str,
    extend_chars, extend_str, has_prefix, has_suffix, index_at_byte, is_digit, lowercase,
    lowercase_chars, parse_uint, parse_unsigned, push_decimal, slice_chars, split, split_nonempty,
    split_pieces, split_words, starts_with_str, string_of, trim, trim_chars, views, Sep,
};

verus! {

/// The number of logo color slots that can be set.
pub const MAX_LOGO_COLORS: usize = 9;

/// `ESC [ code m`, or nothing for an empty code.
pub open spec fn wrap_spec(code: Seq<char>) -> Seq<char> {
    if code.len() == 0 {
        Seq::empty()
    } else {
        seq!['\u{1b}', '['] + code + seq!['m']
    }
}

/// The escape sequence that selects the SGR `code`.
pub fn wrap_code(code: &Vec<char>) -> (r: Vec<char>)
    ensures
        r@ == wrap_spec(code@),
{
    let mut r: Vec<char> = Vec::new();
    if code.len() == 0 {
        return r;
    }
    r.push('\u{1b}');
    r.push('[');
    extend_chars(&mut r, code);
    r.push('m');
    assert(r@ =~= wrap_spec(code@));
    r
}

/// A name as the table is searched for it: trimmed and in lower case.
pub open spec fn normalize_spec(text: Seq<char>) -> Seq<char> {
    lowercase(trim(text))
}

pub fn normalize(text: &Vec<char>) -> (r: Vec<char>)
    ensures
        r@ == normalize_spec(text@),
{
    let t = trim_chars(text);
    lowercase_chars(&t)
}

/// The first row of `t` that answers to the name `q`.
pub open spec fn first_row_named(t: Seq<LogoColorView>, q: Seq<char>) -> Option<LogoColorView> {
    if exists|i: int| 0 <= i < t.len() && t[i].names.contains(q) {
        let i = choose|i: int|
            0 <= i < t.len() && t[i].names.contains(q) && forall|j: int|
                0 <= j < i ==> !t[j].names.contains(q);
        Some(t[i])
    } else {
        None
    }
}

/// The table row for a distribution name, if there is one.
pub open spec fn find_logo_colors_spec(name: Seq<char>) -> Option<LogoColorView> {
    if name.len() == 0 {
        None
    } else {
        let q = normalize_spec(name);
        if q.len() == 0 {
            None
        } else {
            first_row_named(logo_color_table(), q)
        }
    }
}

fn row_has_name(e: &LogoColorEntry, q: &Vec<char>) -> (r: bool)
    ensures
        r == e@.names.contains(q@),
{
    let mut k: usize = 0;
    while k < e.names.len()
        invariant
            k <= e.names.len(),
            forall|j: int| 0 <= j < k ==> e@.names[j] != q@,
        decreases e.names.len() - k,
    {
        if eq_str(q, e.names[k]) {
            assert(e@.names[k as int] == q@);
            return true;
        }
        k = k + 1;
    }
    assert(!e@.names.contains(q@)) by {
        if e@.names.contains(q@) {
            let j = choose|j: int| 0 <= j < e@.names.len() && e@.names[j] == q@;
            assert(e@.names[j] != q@);
        }
    }
    false
}

fn lookup_row(q: &Vec<char>) -> (r: Option<LogoColorEntry>)
    ensures
        match r {
            Some(e) => first_row_named(logo_color_table(), q@) == Some(e@),
            None => first_row_named(logo_color_table(), q@) is None,
        },
{
    let table = logo_color_entries();
    let ghost t = logo_color_table();
    let mut i: usize = 0;
    while i < table.len()
        invariant
            i <= table.len(),
            table@.map_values(|e: LogoColorEntry| e@) == t,
            t == logo_color_table(),
            forall|j: int| 0 <= j < i ==> !t[j].names.contains(q@),
        decreases table.len() - i,
    {
        assert(t[i as int] == table@[i as int]@);
        if row_has_name(&table[i], q) {
            let ghost c = choose|c: int|
                0 <= c < t.len() && t[c].names.contains(q@) && forall|j: int|
                    0 <= j < c ==> !t[j].names.contains(q@);
            assert(0 <= c < t.len() && t[c].names.contains(q@) && forall|j: int|
                0 <= j < c ==> !t[j].names.contains(q@)) by {
                assert(t[i as int].names.contains(q@));
            }
            assert(c == i) by {
                if c > i {
                    assert(t[i as int].names.contains(q@));
                }
            }
            return Some(table[i].clone());
        }
        i = i + 1;
    }
    None
}

/// The logo colors for a distribution name: `None` for an empty or blank name or one
/// that no row answers to, else the first row that lists the trimmed, lower-case
/// name.
pub fn find_logo_colors(name: &str) -> (r: Option<LogoColorEntry>)
    ensures
        match r {
            Some(e) => find_logo_colors_spec(name@) == Some(e@),
            None => find_logo_colors_spec(name@) is None,
        },
{
    let v = chars_of(name);
    if v.len() == 0 {
        return None;
    }
    let q = normalize(&v);
    if q.len() == 0 {
        return None;
    }
    lookup_row(&q)
}

/// The SGR code of a color or attribute name.
pub open spec fn named_color_spec(name: Seq<char>) -> Option<Seq<char>> {
    if name == "black"@ {
        Some("30"@)
    } else if name == "red"@ {
        Some("31"@)
    } else if name == "green"@ {
        Some("32"@)
    } else if name == "yellow"@ {
        Some("33"@)
    } else if name == "blue"@ {
        Some("34"@)
    } else if name == "magenta"@ || name == "purple"@ {
        Some("35"@)
    } else if name == "cyan"@ {
        Some("36"@)
    } else if name == "white"@ {
        Some("37"@)
    } else if name == "default"@ {
        Some("39"@)
    } else if name == "bright_black"@ || name == "light_black"@ || name == "grey"@ || name
        == "gray"@ {
        Some("90"@)
    } else if name == "bright_red"@ || name == "light_red"@ {
        Some("91"@)
    } else if name == "bright_green"@ || name == "light_green"@ {
        Some("92"@)
    } else if name == "bright_yellow"@ || name == "light_yellow"@ {
        Some("93"@)
    } else if name == "bright_blue"@ || name == "light_blue"@ {
        Some("94"@)
    } else if name == "bright_magenta"@ || name == "light_magenta"@ || name == "bright_purple"@
        || name == "light_purple"@ {
        Some("95"@)
    } else if name == "bright_cyan"@ || name == "light_cyan"@ {
        Some("96"@)
    } else if name == "bright_white"@ || name == "light_white"@ {
        Some("97"@)
    } else if name == "bold"@ {
        Some("1"@)
    } else if name == "dim"@ {
        Some("2"@)
    } else if name == "italic"@ {
        Some("3"@)
    } else if name == "underline"@ {
        Some("4"@)
    } else if name == "blink"@ {
        Some("5"@)
    } else if name == "inverse"@ {
        Some("7"@)
    } else if name == "hidden"@ {
        Some("8"@)
    } else if name == "strike"@ {
        Some("9"@)
    } else {
        None
    }
}

/// The SGR code of a color or attribute name (`red`, `bright_blue`, `bold`, ...).
pub fn named_color(name: &Vec<char>) -> (r: Option<&'static str>)
    ensures
        match r {
            Some(c) => named_color_spec(name@) == Some(c@),
            None => named_color_spec(name@) is None,
        },
{
    if eq_str(name, "black") {
        Some("30")
    } else if eq_str(name, "red") {
        Some("31")
    } else if eq_str(name, "green") {
        Some("32")
    } else if eq_str(name, "yellow") {
        Some("33")
    } else if eq_str(name, "blue") {
        Some("34")
    } else if eq_str(name, "magenta") || eq_str(name, "purple") {
        Some("35")
    } else if eq_str(name, "cyan") {
        Some("36")
    } else if eq_str(name, "white") {
        Some("37")
    } else if eq_str(name, "default") {
        Some("39")
    } else if eq_str(name, "bright_black") || eq_str(name, "light_black") || eq_str(name, "grey")
        || eq_str(name, "gray") {
        Some("90")
    } else if eq_str(name, "bright_red") || eq_str(name, "light_red") {
        Some("91")
    } else if eq_str(name, "bright_green") || eq_str(name, "light_green") {
        Some("92")
    } else if eq_str(name, "bright_yellow") || eq_str(name, "light_yellow") {
        Some("93")
    } else if eq_str(name, "bright_blue") || eq_str(name, "light_blue") {
        Some("94")
    } else if eq_str(name, "bright_magenta") || eq_str(name, "light_magenta") || eq_str(
        name,
        "bright_purple",
    ) || eq_str(name, "light_purple") {
        Some("95")
    } else if eq_str(name, "bright_cyan") || eq_str(name, "light_cyan") {
        Some("96")
    } else if eq_str(name, "bright_white") || eq_str(name, "light_white") {
        Some("97")
    } else if eq_str(name, "bold") {
        Some("1")
    } else if eq_str(name, "dim") {
        Some("2")
    } else if eq_str(name, "italic") {
        Some("3")
    } else if eq_str(name, "underline") {
        Some("4")
    } else if eq_str(name, "blink") {
        Some("5")
    } else if eq_str(name, "inverse") {
        Some("7")
    } else if eq_str(name, "hidden") {
        Some("8")
    } else if eq_str(name, "strike") {
        Some("9")
    } else {
        None
    }
}

/// `38;2;R;G;B`, the SGR code of a true color.
pub open spec fn truecolor_code(r: nat, g: nat, b: nat) -> Seq<char> {
    "38;2;"@ + decimal(r) + ";"@ + decimal(g) + ";"@ + decimal(b)
}

/// `38;5;N`, the SGR code of a palette color.
pub open spec fn palette_code(n: nat) -> Seq<char> {
    "38;5;"@ + decimal(n)
}

pub fn truecolor(r: u64, g: u64, b: u64) -> (c: Vec<char>)
    ensures
        c@ == truecolor_code(r as nat, g as nat, b as nat),
{
    let mut c: Vec<char> = Vec::new();
    extend_str(&mut c, "38;2;");
    push_decimal(&mut c, r);
    extend_str(&mut c, ";");
    push_decimal(&mut c, g);
    extend_str(&mut c, ";");
    push_decimal(&mut c, b);
    c
}

pub fn palette(n: u64) -> (c: Vec<char>)
    ensures
        c@ == palette_code(n as nat),
{
    let mut c: Vec<char> = Vec::new();
    extend_str(&mut c, "38;5;");
    push_decimal(&mut c, n);
    c
}

/// The true color code of three decimal components separated by `;`, `,` or white
/// space, each at most 255.
pub open spec fn rgb_values_spec(spec: Seq<char>) -> Option<Seq<char>> {
    let parts = split_words(spec, Sep::SemicolonCommaOrWhitespace);
    if parts.len() != 3 {
        None
    } else {
        match (
            parse_unsigned(parts[0], 10, 0xffff),
            parse_unsigned(parts[1], 10, 0xffff),
            parse_unsigned(parts[2], 10, 0xffff),
        ) {
            (Some(r), Some(g), Some(b)) => if r > 255 || g > 255 || b > 255 {
                None
            } else {
                Some(truecolor_code(r, g, b))
            },
            _ => None,
        }
    }
}

pub fn parse_rgb_values(spec: &Vec<char>) -> (r: Option<Vec<char>>)
    ensures
        match r {
            Some(c) => rgb_values_spec(spec@) == Some(c@),
            None => rgb_values_spec(spec@) is None,
        },
{
    let parts = split_nonempty(spec, Sep::SemicolonCommaOrWhitespace);
    if parts.len() != 3 {
        return None;
    }
    assert(parts@[0]@ == views(parts@)[0]);
    assert(parts@[1]@ == views(parts@)[1]);
    assert(parts@[2]@ == views(parts@)[2]);
    let r = parse_uint(&parts[0], 10, 0xffff);
    let g = parse_uint(&parts[1], 10, 0xffff);
    let b = parse_uint(&parts[2], 10, 0xffff);
    match (r, g, b) {
        (Some(r), Some(g), Some(b)) => {
            if r > 255 || g > 255 || b > 255 {
                None
            } else {
                Some(truecolor(r, g, b))
            }
        },
        _ => None,
    }
}

/// A palette index: a decimal number of at most 255.
pub open spec fn palette_index_spec(spec: Seq<char>) -> Option<nat> {
    match parse_unsigned(spec, 10, 0xffff) {
        Some(i) => if i <= 255 {
            Some(i)
        } else {
            None
        },
        None => None,
    }
}

pub fn parse_palette_index(spec: &Vec<char>) -> (r: Option<u8>)
    ensures
        match r {
            Some(i) => palette_index_spec(spec@) == Some(i as nat),
            None => palette_index_spec(spec@) is None,
        },
{
    match parse_uint(spec, 10, 0xffff) {
        Some(i) => if i <= 255 {
            Some(i as u8)
        } else {
            None
        },
        None => None,
    }
}

// ---------------------------------------------------------------------------
// Hexadecimal colors
// ---------------------------------------------------------------------------

/// What reading `#rrggbb` digits from a 6-byte `h` gives. The three components are
/// the byte ranges `0..2`, `2..4` and `4..6`; `Err(())` stands for the panic of
/// slicing a string inside a character.
pub open spec fn hex6_outcome(h: Seq<char>) -> Result<Option<(u8, u8, u8)>, ()> {
    match char_index_at_byte(h, 2) {
        None => Err(()),
        Some(i2) => match parse_unsigned(h.take(i2), 16, 255) {
            None => Ok(None),
            Some(r) => match char_index_at_byte(h, 4) {
                None => Err(()),
                Some(i4) => match (
                    parse_unsigned(h.subrange(i2, i4), 16, 255),
                    parse_unsigned(h.subrange(i4, h.len() as int), 16, 255),
                ) {
                    (Some(g), Some(b)) => Ok(Some((r as u8, g as u8, b as u8))),
                    _ => Ok(None),
                },
            },
        },
    }
}

/// Each character of `h` twice.
pub open spec fn doubled(h: Seq<char>) -> Seq<char> {
    Seq::new(2 * h.len(), |i: int| h[i / 2])
}

/// What `parse_hex_color` gives for `hex`: six hexadecimal digits, or three that
/// stand for doubled digits (`f00` is `ff0000`), after trimming; the length is
/// counted in bytes. `Err(())` stands for a panic.
pub open spec fn hex_outcome(hex: Seq<char>) -> Result<Option<(u8, u8, u8)>, ()> {
    let h = trim(hex);
    if byte_len(h) == 6 {
        hex6_outcome(h)
    } else if byte_len(h) == 3 {
        let e = trim(doubled(h));
        if byte_len(e) == 6 {
            hex6_outcome(e)
        } else {
            Ok(None)
        }
    } else {
        Ok(None)
    }
}

fn hex6(h: &Vec<char>) -> (r: Result<Option<(u8, u8, u8)>, ()>)
    requires
        byte_len(h@) == 6,
    ensures
        r == hex6_outcome(h@),
{
    let i2 = match index_at_byte(h, 2) {
        None => return Err(()),
        Some(i) => i,
    };
    assert(0 <= i2 <= h@.len()) by {
        let c = choose|c: int| 0 <= c <= h@.len() && byte_len(h@.take(c)) == 2;
    }
    let first = slice_chars(h, 0, i2);
    assert(first@ == h@.take(i2 as int));
    let r = match parse_uint(&first, 16, 255) {
        None => return Ok(None),
        Some(v) => v,
    };
    let i4 = match index_at_byte(h, 4) {
        None => return Err(()),
        Some(i) => i,
    };
    assert(0 <= i4 <= h@.len()) by {
        let c = choose|c: int| 0 <= c <= h@.len() && byte_len(h@.take(c)) == 4;
    }
    assert(i2 <= i4) by {
        if i4 < i2 {
            crate::text::lemma_byte_len_take_increasing(h@, i4 as int, i2 as int);
        }
    }
    let second = slice_chars(h, i2, i4);
    let third = slice_chars(h, i4, h.len());
    let g = parse_uint(&second, 16, 255);
    let b = parse_uint(&third, 16, 255);
    match (g, b) {
        (Some(g), Some(b)) => Ok(Some((r as u8, g as u8, b as u8))),
        _ => Ok(None),
    }
}

fn double_chars(h: &Vec<char>) -> (r: Vec<char>)
    ensures
        r@ == doubled(h@),
{
    let mut r: Vec<char> = Vec::new();
    let mut i: usize = 0;
    while i < h.len()
        invariant
            i <= h.len(),
            r@.len() == 2 * i,
            forall|j: int| 0 <= j < 2 * i ==> r@[j] == h@[j / 2],
        decreases h.len() - i,
    {
        r.push(h[i]);
        r.push(h[i]);
        i = i + 1;
    }
    assert(r@ =~= doubled(h@));
    r
}

fn hex_color_outcome(hex: &Vec<char>) -> (r: Result<Option<(u8, u8, u8)>, ()>)
    ensures
        r == hex_outcome(hex@),
{
    let h = trim_chars(hex);
    let n = byte_length(&h);
    if n == 6 {
        hex6(&h)
    } else if n == 3 {
        let d = double_chars(&h);
        let e = trim_chars(&d);
        if byte_length(&e) == 6 {
            hex6(&e)
        } else {
            Ok(None)
        }
    } else {
        Ok(None)
    }
}

/// The red, green and blue components of a hexadecimal color (`ff8800` or `f80`,
/// without the `#`).
pub fn parse_hex_color(hex: &str) -> (r: Option<(u8, u8, u8)>)
    requires
        hex_outcome(hex@) is Ok,
    ensures
        r == hex_outcome(hex@)->Ok_0,
{
    let v = chars_of(hex);
    match hex_color_outcome(&v) {
        Ok(r) => r,
        Err(_) => None,
    }
}

/// The components of a hexadecimal color as `parse_hex_color` gives them, or
/// `Err(())` for the texts on which reading them would panic.
pub fn try_parse_hex_color(hex: &str) -> (r: Result<Option<(u8, u8, u8)>, ()>)
    ensures
        r == hex_outcome(hex@),
{
    let v = chars_of(hex);
    match hex_color_outcome(&v) {
        Ok(_) => Ok(parse_hex_color(hex)),
        Err(_) => Err(()),
    }
}

// ---------------------------------------------------------------------------
// Color specifications
// ---------------------------------------------------------------------------

pub open spec fn all_digits(s: Seq<char>) -> bool {
    forall|i: int| 0 <= i < s.len() ==> is_digit(#[trigger] s[i])
}

pub open spec fn all_digits_or_semicolons(s: Seq<char>) -> bool {
    forall|i: int| 0 <= i < s.len() ==> is_digit(#[trigger] s[i]) || s[i] == ';'
}

pub open spec fn opt_code(o: Option<nat>) -> Option<Seq<char>> {
    match o {
        Some(i) => Some(palette_code(i)),
        None => None,
    }
}

/// A number that is itself a standard SGR parameter: a text attribute (`0`–`9`,
/// `21`–`29`), a foreground or background color of the basic or bright set
/// (`30`–`37`, `40`–`47`, `90`–`97`, `100`–`107`) or a color reset (`39`, `49`).
pub open spec fn is_sgr_number(n: nat) -> bool {
    n <= 9 || (21 <= n <= 37) || n == 39 || (40 <= n <= 47) || n == 49 || (90 <= n <= 97)
        || (100 <= n <= 107)
}

/// What one color token gives: `Ok(Some(code))`, `Ok(None)` when it is not a
/// color, or `Err(())` where reading it panics. After trimming and lower-casing, a
/// token is `rgb:R;G;B`, `rgb(R,G,B)`, `#rrggbb` or `#rgb`, `256:N` or
/// `color256:N`, raw SGR codes of digits and `;`, a bare number (kept as a raw
/// SGR code where it is one, such as `94`, else a palette index up to 255, such
/// as `178`), or a color name.
#[verifier::opaque]
pub open spec fn token_outcome(token: Seq<char>) -> Result<Option<Seq<char>>, ()> {
    let lower = lowercase(trim(token));
    if lower.len() == 0 {
        Ok(None)
    } else if has_prefix(lower, "rgb:"@) {
        Ok(rgb_values_spec(lower.skip(4)))
    } else if has_prefix(lower, "rgb("@) && has_suffix(lower, ")"@) {
        Ok(rgb_values_spec(lower.subrange(4, lower.len() - 1)))
    } else if lower[0] == '#' {
        match hex_outcome(lower.drop_first()) {
            Err(_) => Err(()),
            Ok(None) => Ok(None),
            Ok(Some((r, g, b))) => Ok(Some(truecolor_code(r as nat, g as nat, b as nat))),
        }
    } else if has_prefix(lower, "256:"@) {
        Ok(opt_code(palette_index_spec(lower.skip(4))))
    } else if has_prefix(lower, "color256:"@) {
        Ok(opt_code(palette_index_spec(lower.skip(9))))
    } else if lower.contains(';') && all_digits_or_semicolons(lower) {
        Ok(Some(lower))
    } else {
        let numeric = if all_digits(lower) {
            palette_index_spec(lower)
        } else {
            None
        };
        match numeric {
            Some(i) => if is_sgr_number(i) {
                Ok(Some(lower))
            } else {
                Ok(Some(palette_code(i)))
            },
            None => Ok(named_color_spec(lower)),
        }
    }
}

pub open spec fn opt_vec_view(o: Option<Vec<char>>) -> Option<Seq<char>> {
    match o {
        Some(v) => Some(v@),
        None => None,
    }
}

pub open spec fn outcome_view(r: Result<Option<Vec<char>>, ()>) -> Result<Option<Seq<char>>, ()> {
    match r {
        Err(_) => Err(()),
        Ok(o) => Ok(opt_vec_view(o)),
    }
}

fn check_digits(s: &Vec<char>, allow_semicolon: bool) -> (r: bool)
    ensures
        r == (if allow_semicolon {
            all_digits_or_semicolons(s@)
        } else {
            all_digits(s@)
        }),
{
    let mut i: usize = 0;
    while i < s.len()
        invariant
            i <= s.len(),
            forall|j: int|
                0 <= j < i ==> is_digit(#[trigger] s@[j]) || (allow_semicolon && s@[j] == ';'),
        decreases s.len() - i,
    {
        let c = s[i];
        if !(('0' <= c && c <= '9') || (allow_semicolon && c == ';')) {
            return false;
        }
        i = i + 1;
    }
    true
}

fn token_color_outcome(token: &Vec<char>) -> (r: Result<Option<Vec<char>>, ()>)
    ensures
        outcome_view(r) == token_outcome(token@),
{
    reveal(token_outcome);
    let t = trim_chars(token);
    let lower = lowercase_chars(&t);
    let n = lower.len();
    if n == 0 {
        return Ok(None);
    }
    if starts_with_str(&lower, "rgb:") {
        proof {
            reveal_strlit("rgb:");
        }
        let rest = slice_chars(&lower, 4, n);
        assert(rest@ == lower@.skip(4));
        return Ok(parse_rgb_values(&rest));
    }
    if starts_with_str(&lower, "rgb(") && ends_with_str(&lower, ")") {
        proof {
            reveal_strlit("rgb(");
            reveal_strlit(")");
            assert(lower@.subrange(0, 4)[3] == '(');
            assert(lower@.subrange(n - 1, n as int)[0] == ')');
        }
        let rest = slice_chars(&lower, 4, n - 1);
        return Ok(parse_rgb_values(&rest));
    }
    if lower[0] == '#' {
        let rest = slice_chars(&lower, 1, n);
        assert(rest@ == lower@.drop_first());
        return match hex_color_outcome(&rest) {
            Err(_) => Err(()),
            Ok(None) => Ok(None),
            Ok(Some((r, g, b))) => Ok(Some(truecolor(r as u64, g as u64, b as u64))),
        };
    }
    if starts_with_str(&lower, "256:") {
        proof {
            reveal_strlit("256:");
        }
        let rest = slice_chars(&lower, 4, n);
        assert(rest@ == lower@.skip(4));
        return match parse_palette_index(&rest) {
            Some(i) => Ok(Some(palette(i as u64))),
            None => Ok(None),
        };
    }
    if starts_with_str(&lower, "color256:") {
        proof {
            reveal_strlit("color256:");
        }
        let rest = slice_chars(&lower, 9, n);
        assert(rest@ == lower@.skip(9));
        return match parse_palette_index(&rest) {
            Some(i) => Ok(Some(palette(i as u64))),
            None => Ok(None),
        };
    }
    if crate::text::contains_char(&lower, ';') && check_digits(&lower, true) {
        return Ok(Some(lower));
    }
    let numeric = if check_digits(&lower, false) {
        parse_palette_index(&lower)
    } else {
        None
    };
    match numeric {
        Some(i) => if i <= 9 || (21 <= i && i <= 37) || i == 39 || (40 <= i && i <= 47) || i
            == 49 || (90 <= i && i <= 97) || (100 <= i && i <= 107) {
            Ok(Some(lower))
        } else {
            Ok(Some(palette(i as u64)))
        },
        None => match named_color(&lower) {
            Some(c) => Ok(Some(chars_of(c))),
            None => Ok(None),
        },
    }
}

/// The SGR code of one color token (see `token_outcome`).
pub fn parse_color_token(token: &str) -> (r: Option<String>)
    requires
        token_outcome(token@) is Ok,
    ensures
        opt_view(r) == token_outcome(token@)->Ok_0,
{
    let v = chars_of(token);
    match token_color_outcome(&v) {
        Ok(Some(c)) => Some(string_of(&c)),
        _ => None,
    }
}

/// The SGR code of one color token as `parse_color_token` gives it, or `Err(())`
/// for the tokens on which reading it would panic.
pub fn try_parse_color_token(token: &str) -> (r: Result<Option<String>, ()>)
    ensures
        match r {
            Ok(o) => token_outcome(token@) is Ok && opt_view(o) == token_outcome(token@)->Ok_0,
            Err(_) => token_outcome(token@) is Err,
        },
{
    let v = chars_of(token);
    match token_color_outcome(&v) {
        Ok(_) => Ok(parse_color_token(token)),
        Err(_) => Err(()),
    }
}

/// The codes joined by `;`.
pub open spec fn join_semicolon(segs: Seq<Seq<char>>) -> Seq<char>
    decreases segs.len(),
{
    if segs.len() == 0 {
        Seq::empty()
    } else if segs.len() == 1 {
        segs[0]
    } else {
        join_semicolon(segs.drop_last()) + seq![';'] + segs.last()
    }
}

/// The codes of the tokens in order, `Ok(None)` as soon as one is not a color, or
/// `Err(())` as soon as one panics.
pub open spec fn segments_outcome(toks: Seq<Seq<char>>) -> Result<Option<Seq<Seq<char>>>, ()>
    decreases toks.len(),
{
    if toks.len() == 0 {
        Ok(Some(Seq::empty()))
    } else {
        match segments_outcome(toks.drop_last()) {
            Err(_) => Err(()),
            Ok(None) => Ok(None),
            Ok(Some(prev)) => match token_outcome(toks.last()) {
                Err(_) => Err(()),
                Ok(None) => Ok(None),
                Ok(Some(c)) => Ok(Some(prev.push(c))),
            },
        }
    }
}

/// What a color specification gives: its tokens, separated by white space or `+`,
/// must all be colors, and their codes are joined by `;` (`bold+cyan` is `1;36`).
/// `Err(())` stands for a panic.
pub open spec fn color_spec_outcome(input: Seq<char>) -> Result<Option<Seq<char>>, ()> {
    let t = trim(input);
    if t.len() == 0 {
        Ok(None)
    } else {
        match segments_outcome(split_words(t, Sep::WhitespaceOrPlus)) {
            Err(_) => Err(()),
            Ok(None) => Ok(None),
            Ok(Some(segs)) => if segs.len() == 0 {
                Ok(None)
            } else {
                Ok(Some(join_semicolon(segs)))
            },
        }
    }
}

fn join_segments(segs: &Vec<Vec<char>>) -> (r: Vec<char>)
    ensures
        r@ == join_semicolon(views(segs@)),
{
    let mut r: Vec<char> = Vec::new();
    let mut i: usize = 0;
    while i < segs.len()
        invariant
            i <= segs.len(),
            r@ == join_semicolon(views(segs@).take(i as int)),
        decreases segs.len() - i,
    {
        let ghost before = r@;
        assert(views(segs@).take(i + 1).drop_last() == views(segs@).take(i as int));
        assert(views(segs@).take(i + 1).last() == segs@[i as int]@);
        if i > 0 {
            r.push(';');
        } else {
            assert(views(segs@).take(1) == seq![segs@[0]@]);
        }
        extend_chars(&mut r, &segs[i]);
        i = i + 1;
    }
    assert(views(segs@).take(segs.len() as int) == views(segs@));
    r
}

fn color_spec_outcome_of(input: &Vec<char>) -> (r: Result<Option<Vec<char>>, ()>)
    ensures
        outcome_view(r) == color_spec_outcome(input@),
{
    let t = trim_chars(input);
    if t.len() == 0 {
        return Ok(None);
    }
    let toks = split_nonempty(&t, Sep::WhitespaceOrPlus);
    let ghost ts = views(toks@);
    let mut segs: Vec<Vec<char>> = Vec::new();
    let mut i: usize = 0;
    assert(ts.take(0) == Seq::<Seq<char>>::empty());
    assert(views(segs@) =~= Seq::<Seq<char>>::empty());
    while i < toks.len()
        invariant
            i <= toks.len(),
            ts == views(toks@),
            ts == split_words(t@, Sep::WhitespaceOrPlus),
            t@ == trim(input@),
            t@.len() > 0,
            segments_outcome(ts.take(i as int)) == Ok::<Option<Seq<Seq<char>>>, ()>(Some(views(segs@))),
        decreases toks.len() - i,
    {
        assert(ts.take(i + 1).drop_last() == ts.take(i as int));
        assert(ts.take(i + 1).last() == toks@[i as int]@);
        match token_color_outcome(&toks[i]) {
            Err(_) => {
                proof {
                    assert(token_outcome(ts.take(i + 1).last()) is Err);
                    assert(segments_outcome(ts.take(i + 1)) is Err);
                    lemma_segments_prefix(ts, i + 1);
                }
                return Err(());
            },
            Ok(None) => {
                proof {
                    assert(token_outcome(ts.take(i + 1).last()) == Ok::<Option<Seq<char>>, ()>(None));
                    assert(segments_outcome(ts.take(i + 1)) == Ok::<Option<Seq<Seq<char>>>, ()>(None));
                    lemma_segments_prefix(ts, i + 1);
                }
                return Ok(None);
            },
            Ok(Some(c)) => {
                let ghost before = segs@;
                segs.push(c);
                assert(views(segs@) == views(before).push(c@));
            },
        }
        i = i + 1;
    }
    assert(ts.take(toks.len() as int) == ts);
    if segs.len() == 0 {
        return Ok(None);
    }
    Ok(Some(join_segments(&segs)))
}

/// Once a prefix of the tokens fails or panics, the whole list does the same.
proof fn lemma_segments_prefix(ts: Seq<Seq<char>>, k: int)
    requires
        0 <= k <= ts.len(),
        !(segments_outcome(ts.take(k)) is Ok && segments_outcome(ts.take(k))->Ok_0 is Some),
    ensures
        segments_outcome(ts) == segments_outcome(ts.take(k)),
    decreases ts.len() - k,
{
    if k < ts.len() {
        assert(ts.take(k + 1).drop_last() == ts.take(k));
        lemma_segments_prefix(ts, k + 1);
    } else {
        assert(ts.take(k) == ts);
    }
}

/// The SGR code of a color specification, such as `red`, `bold+cyan`, `94`,
/// `1;32`, `256:178`, `#ff8800` or `rgb(255,136,0)`; `None` when it is not one.
pub fn parse_color_spec(input: &str) -> (r: Option<String>)
    requires
        color_spec_outcome(input@) is Ok,
    ensures
        opt_view(r) == color_spec_outcome(input@)->Ok_0,
{
    let v = chars_of(input);
    match color_spec_outcome_of(&v) {
        Ok(Some(c)) => Some(string_of(&c)),
        _ => None,
    }
}

/// The SGR code of a color specification as `parse_color_spec` gives it, or
/// `Err(())` for the specifications on which reading it would panic.
pub fn try_parse_color_spec(input: &str) -> (r: Result<Option<String>, ()>)
    ensures
        match r {
            Ok(o) => color_spec_outcome(input@) is Ok && opt_view(o) == color_spec_outcome(
                input@,
            )->Ok_0,
            Err(_) => color_spec_outcome(input@) is Err,
        },
{
    let v = chars_of(input);
    match color_spec_outcome_of(&v) {
        Ok(_) => Ok(parse_color_spec(input)),
        Err(_) => Err(()),
    }
}

/// The codes of the color specifications in `pieces`, in order, up to `limit` of
/// them; pieces that are not colors are skipped, and no piece after the
/// `limit`-th color is read. `Err(())` stands for a panic.
pub open spec fn color_list_of(pieces: Seq<Seq<char>>, limit: nat) -> Result<Seq<Seq<char>>, ()>
    decreases pieces.len(),
{
    if pieces.len() == 0 {
        Ok(Seq::empty())
    } else {
        match color_list_of(pieces.drop_last(), limit) {
            Err(_) => Err(()),
            Ok(c) => if c.len() >= limit {
                Ok(c)
            } else {
                match color_spec_outcome(pieces.last()) {
                    Err(_) => Err(()),
                    Ok(None) => Ok(c),
                    Ok(Some(x)) => Ok(c.push(x)),
                }
            },
        }
    }
}

/// What a list of color specifications separated by `,` or white space gives.
pub open spec fn color_list_outcome(spec: Seq<char>, limit: nat) -> Result<Seq<Seq<char>>, ()> {
    color_list_of(split_pieces(spec, Sep::CommaOrWhitespace), limit)
}

proof fn lemma_color_list_len(pieces: Seq<Seq<char>>, limit: nat)
    ensures
        color_list_of(pieces, limit) is Ok ==> color_list_of(pieces, limit)->Ok_0.len() <= limit,
    decreases pieces.len(),
{
    if pieces.len() > 0 {
        lemma_color_list_len(pieces.drop_last(), limit);
    }
}

proof fn lemma_color_list_prefix_err(ps: Seq<Seq<char>>, k: int, limit: nat)
    requires
        0 <= k <= ps.len(),
        color_list_of(ps.take(k), limit) is Err,
    ensures
        color_list_of(ps, limit) is Err,
    decreases ps.len() - k,
{
    if k < ps.len() {
        assert(ps.take(k + 1).drop_last() == ps.take(k));
        lemma_color_list_prefix_err(ps, k + 1, limit);
    } else {
        assert(ps.take(k) == ps);
    }
}

fn color_list_outcome_of(spec: &Vec<char>, limit: usize) -> (r: Result<Vec<Vec<char>>, ()>)
    ensures
        match r {
            Err(_) => color_list_outcome(spec@, limit as nat) is Err,
            Ok(v) => color_list_outcome(spec@, limit as nat) == Ok::<Seq<Seq<char>>, ()>(views(v@)),
        },
{
    let pieces = split(spec, Sep::CommaOrWhitespace);
    let ghost ps = views(pieces@);
    let mut out: Vec<Vec<char>> = Vec::new();
    let mut i: usize = 0;
    assert(ps.take(0) == Seq::<Seq<char>>::empty());
    assert(views(out@) =~= Seq::<Seq<char>>::empty());
    while i < pieces.len()
        invariant
            i <= pieces.len(),
            ps == views(pieces@),
            ps == split_pieces(spec@, Sep::CommaOrWhitespace),
            color_list_of(ps.take(i as int), limit as nat) == Ok::<Seq<Seq<char>>, ()>(views(out@)),
        decreases pieces.len() - i,
    {
        assert(ps.take(i + 1).drop_last() == ps.take(i as int));
        assert(ps.take(i + 1).last() == pieces@[i as int]@);
        if out.len() < limit {
            match color_spec_outcome_of(&pieces[i]) {
                Err(_) => {
                    proof {
                        lemma_color_list_prefix_err(ps, i + 1, limit as nat);
                    }
                    return Err(());
                },
                Ok(None) => {},
                Ok(Some(c)) => {
                    let ghost before = out@;
                    out.push(c);
                    assert(views(out@) == views(before).push(c@));
                },
            }
        }
        i = i + 1;
    }
    assert(ps.take(pieces.len() as int) == ps);
    Ok(out)
}

/// The codes of a list of color specifications separated by `,` or white space, up
/// to `limit` of them.
pub fn parse_color_list(spec: &str, limit: usize) -> (r: Vec<String>)
    requires
        color_list_outcome(spec@, limit as nat) is Ok,
    ensures
        r@.map_values(|s: String| s@) == color_list_outcome(spec@, limit as nat)->Ok_0,
        r@.len() <= limit,
{
    let v = chars_of(spec);
    proof {
        lemma_color_list_len(split_pieces(v@, Sep::CommaOrWhitespace), limit as nat);
    }
    match color_list_outcome_of(&v, limit) {
        Ok(codes) => {
            let mut r: Vec<String> = Vec::new();
            let mut i: usize = 0;
            while i < codes.len()
                invariant
                    i <= codes.len(),
                    r@.map_values(|s: String| s@) == views(codes@).take(i as int),
                decreases codes.len() - i,
            {
                let s = string_of(&codes[i]);
                r.push(s);
                assert(views(codes@).take(i + 1) == views(codes@).take(i as int).push(codes@[i as int]@));
                assert(r@.map_values(|s: String| s@) =~= views(codes@).take(i + 1));
                i = i + 1;
            }
            assert(views(codes@).take(codes.len() as int) == views(codes@));
            r
        },
        Err(_) => Vec::new(),
    }
}

/// The codes of a list of color specifications as `parse_color_list` gives them,
/// or `Err(())` for the lists on which reading them would panic.
pub fn try_parse_color_list(spec: &str, limit: usize) -> (r: Result<Vec<String>, ()>)
    ensures
        match r {
            Ok(codes) => color_list_outcome(spec@, limit as nat) is Ok && codes@.map_values(
                |s: String| s@,
            ) == color_list_outcome(spec@, limit as nat)->Ok_0,
            Err(_) => color_list_outcome(spec@, limit as nat) is Err,
        },
{
    let v = chars_of(spec);
    match color_list_outcome_of(&v, limit) {
        Ok(_) => Ok(parse_color_list(spec, limit)),
        Err(_) => Err(()),
    }
}

// ---------------------------------------------------------------------------
// The color scheme
// ---------------------------------------------------------------------------

/// The escape sequences used for the output. When colors are off, every one is
/// empty.
pub struct ColorSystem {
    enabled: bool,
    logo_colors: Vec<String>,
    key_color: String,
    title_color: String,
    value_color: String,
    box_color: String,
}

pub struct ColorSystemView {
    pub enabled: bool,
    pub logo_colors: Seq<Seq<char>>,
    pub key_color: Seq<char>,
    pub title_color: Seq<char>,
    pub value_color: Seq<char>,
    pub box_color: Seq<char>,
}

pub open spec fn string_views(v: Seq<String>) -> Seq<Seq<char>> {
    v.map_values(|s: String| s@)
}

impl View for ColorSystem {
    type V = ColorSystemView;

    closed spec fn view(&self) -> ColorSystemView {
        ColorSystemView {
            enabled: self.enabled,
            logo_colors: string_views(self.logo_colors@),
            key_color: self.key_color@,
            title_color: self.title_color@,
            value_color: self.value_color@,
            box_color: self.box_color@,
        }
    }
}

/// The table row for a distribution: by its id, else by its name, else the
/// `unknown` row.
pub open spec fn resolved_row(distro_id: Seq<char>, distro_name: Seq<char>) -> LogoColorView {
    match find_logo_colors_spec(distro_id) {
        Some(e) => e,
        None => match find_logo_colors_spec(distro_name) {
            Some(e) => e,
            None => match find_logo_colors_spec("unknown"@) {
                Some(e) => e,
                None => logo_color_table()[0],
            },
        },
    }
}

/// At most the first `n` elements of `s`.
pub open spec fn first_n(s: Seq<Seq<char>>, n: nat) -> Seq<Seq<char>> {
    if s.len() <= n {
        s
    } else {
        s.take(n as int)
    }
}

/// The codes of a row's logo slots: its first nine colors, or `39` (the default
/// color) when it has none.
pub open spec fn row_codes(e: LogoColorView) -> Seq<Seq<char>> {
    let c = first_n(e.colors, MAX_LOGO_COLORS as nat);
    if c.len() == 0 {
        seq!["39"@]
    } else {
        c
    }
}

/// What an optional color specification gives (`Err(())` for a panic).
pub open spec fn opt_spec_outcome(o: Option<Seq<char>>) -> Result<Option<Seq<char>>, ()> {
    match o {
        None => Ok(None),
        Some(s) => color_spec_outcome(s),
    }
}

/// The codes of the logo slots: those of the `logo_color` setting when it names at
/// least one color, else those of the row.
pub open spec fn slot_codes_outcome(e: LogoColorView, logo_color: Option<Seq<char>>) -> Result<Seq<Seq<char>>, ()> {
    match logo_color {
        None => Ok(row_codes(e)),
        Some(spec) => match color_list_outcome(spec, MAX_LOGO_COLORS as nat) {
            Err(_) => Err(()),
            Ok(o) => Ok(
                if o.len() == 0 {
                    row_codes(e)
                } else {
                    o
                },
            ),
        },
    }
}

pub open spec fn or_first_slot(code: Seq<char>, logo: Seq<Seq<char>>) -> Seq<char> {
    if wrap_spec(code).len() == 0 {
        logo[0]
    } else {
        wrap_spec(code)
    }
}

pub open spec fn wrap_opt(o: Option<Seq<char>>) -> Seq<char> {
    match o {
        Some(c) => wrap_spec(c),
        None => Seq::empty(),
    }
}

pub open spec fn disabled_colors() -> ColorSystemView {
    ColorSystemView {
        enabled: false,
        logo_colors: Seq::empty(),
        key_color: Seq::empty(),
        title_color: Seq::empty(),
        value_color: Seq::empty(),
        box_color: Seq::empty(),
    }
}

/// The color scheme for a distribution, a configuration and a terminal, or `None`
/// where building it panics. Without a terminal, colors are off. Otherwise the
/// logo slots come from `slot_codes_outcome`; labels use the row's key color, else
/// the second slot's code, else the first's, unless `color_keys` names a color; the
/// title uses the row's title color, else the first slot's code, unless
/// `color_title` names a color; values use `color`, nothing when unset or not a
/// color; the box outline uses `box_outline_color`, and when that is unset or not
/// a color, bright blue on a dark background and blue on a light one (nothing when
/// the theme is unknown).
pub open spec fn color_system_spec(
    distro_id: Seq<char>,
    distro_name: Seq<char>,
    config: Config,
    theme: Option<TerminalTheme>,
    stdout_is_tty: bool,
) -> Option<ColorSystemView> {
    if !stdout_is_tty {
        Some(disabled_colors())
    } else {
        let e = resolved_row(distro_id, distro_name);
        let codes = slot_codes_outcome(e, opt_view(config.logo_color));
        let keys = opt_spec_outcome(opt_view(config.color_keys));
        let title = opt_spec_outcome(opt_view(config.color_title));
        let value = opt_spec_outcome(opt_view(config.color));
        let outline = opt_spec_outcome(opt_view(config.box_outline_color));
        if codes is Err || keys is Err || title is Err || value is Err || outline is Err {
            None
        } else {
            let codes = codes->Ok_0;
            let logo = codes.map_values(|c: Seq<char>| wrap_spec(c));
            let key_default = match e.color_keys {
                Some(k) => k,
                None => if codes.len() > 1 {
                    codes[1]
                } else {
                    codes[0]
                },
            };
            let key_code = match keys->Ok_0 {
                Some(k) => k,
                None => key_default,
            };
            let title_default = match e.color_title {
                Some(t) => t,
                None => codes[0],
            };
            let title_code = match title->Ok_0 {
                Some(t) => t,
                None => title_default,
            };
            Some(
                ColorSystemView {
                    enabled: true,
                    logo_colors: logo,
                    key_color: or_first_slot(key_code, logo),
                    title_color: or_first_slot(title_code, logo),
                    value_color: wrap_opt(value->Ok_0),
                    box_color: match outline->Ok_0 {
                        Some(c) => wrap_spec(c),
                        None => auto_outline(theme),
                    },
                },
            )
        }
    }
}

pub open spec fn opt_theme(theme: Option<&TerminalTheme>) -> Option<TerminalTheme> {
    match theme {
        Some(t) => Some(*t),
        None => None,
    }
}

/// The outline color chosen from the theme: bright blue (`94`) on a dark
/// background, blue (`34`) on a light one.
pub open spec fn auto_outline(theme: Option<TerminalTheme>) -> Seq<char> {
    match theme {
        Some(t) => if t.bg.dark {
            "\u{1b}[94m"@
        } else {
            "\u{1b}[34m"@
        },
        None => Seq::empty(),
    }
}

fn outline_color(outline: &Option<Vec<char>>, theme: Option<&TerminalTheme>) -> (r: String)
    ensures
        r@ == match opt_vec_view(*outline) {
            Some(c) => wrap_spec(c),
            None => auto_outline(
                match theme {
                    Some(t) => Some(*t),
                    None => None,
                },
            ),
        },
{
    match outline {
        Some(c) => {
            let w = wrap_code(c);
            string_of(&w)
        },
        None => match theme {
            Some(t) => if t.bg.dark {
                "\u{1b}[94m".to_owned()
            } else {
                "\u{1b}[34m".to_owned()
            },
            None => String::new(),
        },
    }
}

fn resolve_row(distro_id: &str, distro_name: &str) -> (e: LogoColorEntry)
    ensures
        e@ == resolved_row(distro_id@, distro_name@),
{
    match find_logo_colors(distro_id) {
        Some(e) => e,
        None => match find_logo_colors(distro_name) {
            Some(e) => e,
            None => match find_logo_colors("unknown") {
                Some(e) => e,
                None => {
                    let t = logo_color_entries();
                    assert(t@.map_values(|e: LogoColorEntry| e@).len() == 12);
                    assert(t@[0]@ == logo_color_table()[0]);
                    t[0].clone()
                },
            },
        },
    }
}

fn row_slot_codes(e: &LogoColorEntry) -> (r: Vec<Vec<char>>)
    ensures
        views(r@) == row_codes(e@),
{
    let n = if e.colors.len() < MAX_LOGO_COLORS {
        e.colors.len()
    } else {
        MAX_LOGO_COLORS
    };
    let mut r: Vec<Vec<char>> = Vec::new();
    let mut i: usize = 0;
    while i < n
        invariant
            i <= n <= e.colors.len(),
            views(r@) == e@.colors.take(i as int),
        decreases n - i,
    {
        let c = chars_of(e.colors[i]);
        let ghost before = r@;
        r.push(c);
        assert(views(r@) == views(before).push(c@));
        assert(e@.colors.take(i + 1) == e@.colors.take(i as int).push(e@.colors[i as int]));
        i = i + 1;
    }
    assert(views(r@) == first_n(e@.colors, MAX_LOGO_COLORS as nat));
    if r.len() == 0 {
        let d = chars_of("39");
        r.push(d);
        assert(views(r@) =~= seq!["39"@]);
    }
    r
}

fn opt_spec_of(o: &Option<String>) -> (r: Result<Option<Vec<char>>, ()>)
    ensures
        outcome_view(r) == opt_spec_outcome(opt_view(*o)),
{
    match o {
        None => Ok(None),
        Some(s) => {
            let v = chars_of(s.as_str());
            color_spec_outcome_of(&v)
        },
    }
}

fn wrap_or_empty(o: &Option<Vec<char>>) -> (r: String)
    ensures
        r@ == wrap_opt(opt_vec_view(*o)),
{
    match o {
        Some(c) => {
            let w = wrap_code(c);
            string_of(&w)
        },
        None => String::new(),
    }
}

fn or_first(code: &Vec<char>, logo: &Vec<Vec<char>>) -> (r: String)
    requires
        logo.len() >= 1,
    ensures
        r@ == or_first_slot(code@, views(logo@)),
{
    let w = wrap_code(code);
    if w.len() == 0 {
        assert(logo@[0]@ == views(logo@)[0]);
        string_of(&logo[0])
    } else {
        string_of(&w)
    }
}

/// The sequence of logo slot `slot` in the scheme `v`.
pub open spec fn slot_of(v: ColorSystemView, slot: nat) -> Seq<char> {
    if !v.enabled {
        Seq::<char>::empty()
    } else if 1 <= slot <= v.logo_colors.len() {
        v.logo_colors[slot - 1]
    } else {
        v.logo_colors[0]
    }
}

/// The sequence that resets all attributes when colors are on.
pub open spec fn reset_of(v: ColorSystemView) -> Seq<char> {
    if v.enabled {
        "\u{1b}[0m"@
    } else {
        Seq::<char>::empty()
    }
}

impl ColorSystem {
    #[verifier::type_invariant]
    spec fn well_formed(self) -> bool {
        self.enabled ==> 1 <= self.logo_colors.len() <= MAX_LOGO_COLORS
    }

    /// The color scheme, or `None` exactly where building it would panic (a color
    /// setting that slices a string inside a character).
    pub fn build(
        distro_id: &str,
        distro_name: &str,
        config: &Config,
        theme: Option<&TerminalTheme>,
        stdout_is_tty: bool,
    ) -> (r: Option<Self>)
        ensures
            match r {
                Some(c) => color_system_spec(distro_id@, distro_name@, *config, opt_theme(theme), stdout_is_tty) == Some(c@),
                None => color_system_spec(distro_id@, distro_name@, *config, opt_theme(theme), stdout_is_tty) is None,
            },
    {
        if !stdout_is_tty {
            let c = ColorSystem {
                enabled: false,
                logo_colors: Vec::new(),
                key_color: String::new(),
                title_color: String::new(),
                value_color: String::new(),
                box_color: String::new(),
            };
            assert(c@.logo_colors =~= Seq::<Seq<char>>::empty());
            return Some(c);
        }
        let e = resolve_row(distro_id, distro_name);
        let mut codes = row_slot_codes(&e);
        proof {
            lemma_color_list_len(
                split_pieces(opt_view(config.logo_color)->0, Sep::CommaOrWhitespace),
                MAX_LOGO_COLORS as nat,
            );
        }
        match &config.logo_color {
            None => {},
            Some(spec) => {
                let v = chars_of(spec.as_str());
                match color_list_outcome_of(&v, MAX_LOGO_COLORS) {
                    Err(_) => return None,
                    Ok(o) => {
                        if o.len() > 0 {
                            codes = o;
                        }
                    },
                }
            },
        }
        let ghost cs = views(codes@);
        assert(cs == slot_codes_outcome(e@, opt_view(config.logo_color))->Ok_0);
        assert(1 <= codes.len() <= MAX_LOGO_COLORS);
        let keys = opt_spec_of(&config.color_keys);
        let title = opt_spec_of(&config.color_title);
        let value = opt_spec_of(&config.color);
        let outline = opt_spec_of(&config.box_outline_color);
        let (keys, title, value, outline) = match (keys, title, value, outline) {
            (Ok(k), Ok(t), Ok(v), Ok(b)) => (k, t, v, b),
            _ => return None,
        };
        let mut logo_codes: Vec<Vec<char>> = Vec::new();
        let mut logo_colors: Vec<String> = Vec::new();
        let mut i: usize = 0;
        while i < codes.len()
            invariant
                i <= codes.len(),
                cs == views(codes@),
                views(logo_codes@) == cs.take(i as int).map_values(|c: Seq<char>| wrap_spec(c)),
                string_views(logo_colors@) == views(logo_codes@),
            decreases codes.len() - i,
        {
            let w = wrap_code(&codes[i]);
            let ws = string_of(&w);
            let ghost b1 = logo_codes@;
            let ghost b2 = logo_colors@;
            logo_codes.push(w);
            logo_colors.push(ws);
            assert(views(logo_codes@) == views(b1).push(w@));
            assert(string_views(logo_colors@) == string_views(b2).push(ws@));
            assert(cs.take(i + 1) == cs.take(i as int).push(cs[i as int]));
            assert(cs.take(i + 1).map_values(|c: Seq<char>| wrap_spec(c)) =~= cs.take(i as int).map_values(
                |c: Seq<char>| wrap_spec(c),
            ).push(wrap_spec(cs[i as int])));
            i = i + 1;
        }
        assert(cs.take(codes.len() as int) == cs);
        let key_code: Vec<char> = match keys {
            Some(k) => k,
            None => match e.color_keys {
                Some(k) => chars_of(k),
                None => if codes.len() > 1 {
                    codes[1].clone()
                } else {
                    codes[0].clone()
                },
            },
        };
        let title_code: Vec<char> = match title {
            Some(t) => t,
            None => match e.color_title {
                Some(t) => chars_of(t),
                None => codes[0].clone(),
            },
        };
        let key_color = or_first(&key_code, &logo_codes);
        let title_color = or_first(&title_code, &logo_codes);
        let value_color = wrap_or_empty(&value);
        let box_color = outline_color(&outline, theme);
        let c = ColorSystem {
            enabled: true,
            logo_colors,
            key_color,
            title_color,
            value_color,
            box_color,
        };
        Some(c)
    }

    /// The color scheme (see `color_system_spec`).
    pub fn new(
        distro_id: &str,
        distro_name: &str,
        config: &Config,
        theme: Option<&TerminalTheme>,
        stdout_is_tty: bool,
    ) -> (c: Self)
        requires
            color_system_spec(distro_id@, distro_name@, *config, opt_theme(theme), stdout_is_tty) is Some,
        ensures
            color_system_spec(distro_id@, distro_name@, *config, opt_theme(theme), stdout_is_tty) == Some(c@),
    {
        match Self::build(distro_id, distro_name, config, theme, stdout_is_tty) {
            Some(c) => c,
            None => {
                let c = ColorSystem {
                    enabled: false,
                    logo_colors: Vec::new(),
                    key_color: String::new(),
                    title_color: String::new(),
                    value_color: String::new(),
                    box_color: String::new(),
                };
                c
            },
        }
    }

    /// The color scheme as `new` gives it, or `None` exactly where building it
    /// would panic.
    pub fn try_new(
        distro_id: &str,
        distro_name: &str,
        config: &Config,
        theme: Option<&TerminalTheme>,
        stdout_is_tty: bool,
    ) -> (r: Option<Self>)
        ensures
            match r {
                Some(c) => color_system_spec(distro_id@, distro_name@, *config, opt_theme(theme), stdout_is_tty) == Some(c@),
                None => color_system_spec(distro_id@, distro_name@, *config, opt_theme(theme), stdout_is_tty) is None,
            },
    {
        match Self::build(distro_id, distro_name, config, theme, stdout_is_tty) {
            Some(_) => Some(Self::new(distro_id, distro_name, config, theme, stdout_is_tty)),
            None => None,
        }
    }

    /// Whether colors are on.
    pub fn enabled(&self) -> (r: bool)
        ensures
            r == self@.enabled,
    {
        self.enabled
    }

    /// The sequence that resets all attributes, or nothing when colors are off.
    pub fn reset(&self) -> (r: &'static str)
        ensures
            r@ == reset_of(self@),
    {
        if self.enabled {
            "\u{1b}[0m"
        } else {
            proof {
                reveal_strlit("");
            }
            ""
        }
    }

    /// The sequence for logo slot `slot` (`$1` is slot 1): nothing when colors are
    /// off; slot 0 and slots past the last color use the first color.
    pub fn logo_slot(&self, slot: usize) -> (r: &str)
        ensures
            r@ == slot_of(self@, slot as nat),
    {
        proof {
            use_type_invariant(self);
        }
        if !self.enabled {
            proof {
                reveal_strlit("");
            }
            return "";
        }
        if slot == 0 {
            return self.logo_colors[0].as_str();
        }
        if slot - 1 < self.logo_colors.len() {
            self.logo_colors[slot - 1].as_str()
        } else {
            self.logo_colors[0].as_str()
        }
    }

    /// The sequence for labels, nothing when colors are off.
    pub fn key_color(&self) -> (r: &str)
        ensures
            r@ == (if self@.enabled {
                self@.key_color
            } else {
                Seq::<char>::empty()
            }),
    {
        if self.enabled {
            self.key_color.as_str()
        } else {
            proof {
                reveal_strlit("");
            }
            ""
        }
    }

    /// The sequence for the title, nothing when colors are off.
    pub fn title_color(&self) -> (r: &str)
        ensures
            r@ == (if self@.enabled {
                self@.title_color
            } else {
                Seq::<char>::empty()
            }),
    {
        if self.enabled {
            self.title_color.as_str()
        } else {
            proof {
                reveal_strlit("");
            }
            ""
        }
    }

    /// The sequence for values, nothing when colors are off.
    pub fn value_color(&self) -> (r: &str)
        ensures
            r@ == (if self@.enabled {
                self@.value_color
            } else {
                Seq::<char>::empty()
            }),
    {
        if self.enabled {
            self.value_color.as_str()
        } else {
            proof {
                reveal_strlit("");
            }
            ""
        }
    }

    /// The sequence for the box outline, nothing when colors are off.
    pub fn box_color(&self) -> (r: &str)
        ensures
            r@ == (if self@.enabled {
                self@.box_color
            } else {
                Seq::<char>::empty()
            }),
    {
        if self.enabled {
            self.box_color.as_str()
        } else {
            proof {
                reveal_strlit("");
            }
            ""
        }
    }
}


// ---------------------------------------------------------------------------
// Laws of the color scheme
// ---------------------------------------------------------------------------

/// A color scheme has between one and nine logo colors whenever colors are on:
/// only the first nine entries of `logo_color` are used.
pub proof fn lemma_palette_size(
    distro_id: Seq<char>,
    distro_name: Seq<char>,
    config: Config,
    theme: Option<TerminalTheme>,
    stdout_is_tty: bool,
)
    ensures
        color_system_spec(distro_id, distro_name, config, theme, stdout_is_tty) matches Some(v)
            ==> (v.enabled ==> 1 <= v.logo_colors.len() <= MAX_LOGO_COLORS),
{
    let e = resolved_row(distro_id, distro_name);
    let rc = row_codes(e);
    assert(1 <= rc.len() <= MAX_LOGO_COLORS);
    match opt_view(config.logo_color) {
        Some(spec) => {
            lemma_color_list_len(split_pieces(spec, Sep::CommaOrWhitespace), MAX_LOGO_COLORS as nat);
        },
        None => {},
    }
}

/// The escape sequence `ESC [ code m`.
pub open spec fn sgr_escape(code: Seq<char>) -> Seq<char> {
    seq!['\u{1b}', '['] + code + seq!['m']
}

/// What a color setting of `config.json` names: `Some(code)` when it is set and
/// reads as a color.
pub open spec fn setting_code(setting: Option<String>) -> Option<Seq<char>> {
    match setting {
        Some(s) => match color_spec_outcome(s@) {
            Ok(Some(c)) => Some(c),
            _ => None,
        },
        None => None,
    }
}

/// What a `logo_color` list of `config.json` names: `Some(codes)` when it is set
/// and reads as at least one color.
pub open spec fn list_codes(setting: Option<String>) -> Option<Seq<Seq<char>>> {
    match setting {
        Some(s) => match color_list_outcome(s@, MAX_LOGO_COLORS as nat) {
            Ok(codes) => if codes.len() > 0 {
                Some(codes)
            } else {
                None
            },
            _ => None,
        },
        None => None,
    }
}

/// The settings of `config.json` win over the distribution's colors and the theme:
/// with a terminal, a `color_title`, `color_keys`, `color` or `box_outline_color`
/// that reads as a (nonempty) color code gives the title, the labels, the values
/// or the outline that code's escape sequence, and a `logo_color` list that names
/// colors gives the logo slots, in order, the escape sequences of its codes.
/// Unset (or not a color), the value color is nothing and the outline is bright
/// blue on a dark background, blue on a light one, nothing when the theme is
/// unknown.
pub proof fn lemma_configured_colors_win(
    distro_id: Seq<char>,
    distro_name: Seq<char>,
    config: Config,
    theme: Option<TerminalTheme>,
)
    requires
        color_system_spec(distro_id, distro_name, config, theme, true) is Some,
    ensures
        ({
            let v = color_system_spec(distro_id, distro_name, config, theme, true)->Some_0;
            &&& v.enabled
            &&& (setting_code(config.color_title) matches Some(c) ==> (c.len() > 0 ==> v.title_color == sgr_escape(c)))
            &&& (setting_code(config.color_keys) matches Some(c) ==> (c.len() > 0 ==> v.key_color == sgr_escape(c)))
            &&& (setting_code(config.color) matches Some(c) ==> (c.len() > 0 ==> v.value_color == sgr_escape(c)))
            &&& (setting_code(config.box_outline_color) matches Some(c) ==> (c.len() > 0 ==> v.box_color == sgr_escape(c)))
            &&& (setting_code(config.color) is None ==> v.value_color.len() == 0)
            &&& (setting_code(config.box_outline_color) is None ==> v.box_color == match theme {
                Some(t) => if t.bg.dark {
                    "\u{1b}[94m"@
                } else {
                    "\u{1b}[34m"@
                },
                None => Seq::<char>::empty(),
            })
            &&& (list_codes(config.logo_color) matches Some(codes) ==> v.logo_colors.len()
                == codes.len() && forall|
                i: int,
            |
                0 <= i < codes.len() && codes[i].len() > 0 ==> #[trigger] v.logo_colors[i]
                    == sgr_escape(codes[i]))
        }),
{
}

/// Without settings the distribution's row decides: the logo slots are the escape
/// sequences of the row's first nine colors (`39` when it has none); the title is
/// the row's title color, else the first slot; the labels are the row's key
/// color, else the second slot (when it has a color), else the first.
pub proof fn lemma_default_colors(
    distro_id: Seq<char>,
    distro_name: Seq<char>,
    config: Config,
    theme: Option<TerminalTheme>,
)
    requires
        color_system_spec(distro_id, distro_name, config, theme, true) is Some,
    ensures
        ({
            let v = color_system_spec(distro_id, distro_name, config, theme, true)->Some_0;
            let e = resolved_row(distro_id, distro_name);
            let colors = if e.colors.len() == 0 {
                seq!["39"@]
            } else if e.colors.len() <= MAX_LOGO_COLORS {
                e.colors
            } else {
                e.colors.take(MAX_LOGO_COLORS as int)
            };
            &&& (list_codes(config.logo_color) is None ==> v.logo_colors.len() == colors.len()
                && forall|i: int|
                0 <= i < colors.len() && colors[i].len() > 0 ==> #[trigger] v.logo_colors[i]
                    == sgr_escape(colors[i]))
            &&& (setting_code(config.color_title) is None ==> match e.color_title {
                Some(t) => t.len() > 0 ==> v.title_color == sgr_escape(t),
                None => v.title_color == v.logo_colors[0],
            })
            &&& (setting_code(config.color_keys) is None ==> match e.color_keys {
                Some(k) => k.len() > 0 ==> v.key_color == sgr_escape(k),
                None => v.key_color == if v.logo_colors.len() > 1 && v.logo_colors[1].len() > 0 {
                    v.logo_colors[1]
                } else {
                    v.logo_colors[0]
                },
            })
        }),
{
    lemma_palette_size(distro_id, distro_name, config, theme, true);
    let e = resolved_row(distro_id, distro_name);
    let codes = slot_codes_outcome(e, opt_view(config.logo_color))->Ok_0;
    let logo = codes.map_values(|c: Seq<char>| wrap_spec(c));
    assert(codes.len() >= 1);
    assert(logo[0] == wrap_spec(codes[0]));
    if codes.len() > 1 {
        assert(logo[1] == wrap_spec(codes[1]));
    }
}

/// Without a terminal every color is off, whatever the settings.
pub proof fn lemma_no_terminal_no_colors(
    distro_id: Seq<char>,
    distro_name: Seq<char>,
    config: Config,
    theme: Option<TerminalTheme>,
)
    ensures
        ({
            let v = color_system_spec(distro_id, distro_name, config, theme, false);
            &&& v is Some
            &&& !v->Some_0.enabled
            &&& v->Some_0.logo_colors.len() == 0
            &&& v->Some_0.title_color.len() == 0
            &&& v->Some_0.key_color.len() == 0
            &&& v->Some_0.value_color.len() == 0
            &&& v->Some_0.box_color.len() == 0
        }),
{
}

/// Slot 0 (the color a logo starts in) is the first color.
pub proof fn lemma_slot_zero_is_first(v: ColorSystemView)
    requires
        v.logo_colors.len() >= 1,
    ensures
        slot_of(v, 0) == slot_of(v, 1),
{
}

/// A slot past the last color falls back to the first color.
pub proof fn lemma_slot_past_palette(v: ColorSystemView, slot: nat)
    requires
        slot > v.logo_colors.len(),
        v.logo_colors.len() >= 1,
    ensures
        slot_of(v, slot) == slot_of(v, 1),
{
}

/// With colors off every slot and the reset are empty.
pub proof fn lemma_colors_off_empty(v: ColorSystemView, slot: nat)
    requires
        !v.enabled,
    ensures
        slot_of(v, slot).len() == 0,
        reset_of(v).len() == 0,
{
}

} // verus!
