//! ASCII logos: finding a distribution's logo and coloring its `$N` slots.
use vstd::prelude::*;
use crate::colors::{reset_of, slot_of, ColorSystem, ColorSystemView};
use crate::text::{chars_of, extend_chars, extend_str, is_digit, string_of, utf8_str};

verus! {

/// The value of a decimal digit character.
pub open spec fn digit_of(c: char) -> nat {
    (c as int - '0' as int) as nat
}

/// The logo text with its color markers replaced: `$N` (a decimal digit `N`)
/// becomes the sequence of slot `N`, which then stays the current color, and after
/// each line break the current color is given again.
pub open spec fn colorize(s: Seq<char>, cur: Seq<char>, v: ColorSystemView) -> Seq<char>
    decreases s.len(),
{
    if s.len() == 0 {
        Seq::empty()
    } else if s[0] == '$' && s.len() > 1 && is_digit(s[1]) {
        let c = slot_of(v, digit_of(s[1]));
        c + colorize(s.skip(2), c, v)
    } else if s[0] == '\n' {
        seq!['\n'] + cur + colorize(s.skip(1), cur, v)
    } else {
        seq![s[0]] + colorize(s.skip(1), cur, v)
    }
}

/// A logo as printed: unchanged when colors are off; otherwise it starts in slot 0's
/// color, has its markers replaced (see `colorize`) and ends with a reset.
pub open spec fn colored_logo(logo: Seq<char>, v: ColorSystemView) -> Seq<char> {
    if !v.enabled {
        logo
    } else {
        let first = slot_of(v, 0);
        first + colorize(logo, first, v) + reset_of(v)
    }
}

/// The color in force after reading `s` from color `cur`: that of the last `$N`
/// marker in it, or `cur` when it has none.
pub open spec fn color_after(s: Seq<char>, cur: Seq<char>, v: ColorSystemView) -> Seq<char>
    decreases s.len(),
{
    if s.len() == 0 {
        cur
    } else if s[0] == '$' && s.len() > 1 && is_digit(s[1]) {
        color_after(s.skip(2), slot_of(v, digit_of(s[1])), v)
    } else {
        color_after(s.skip(1), cur, v)
    }
}

/// Coloring `a + b` is coloring `a`, then coloring `b` from the color in force
/// after `a`, unless `a` ends with a `$` that a digit at the start of `b` completes.
proof fn lemma_colorize_split(a: Seq<char>, b: Seq<char>, cur: Seq<char>, v: ColorSystemView)
    requires
        !(a.len() > 0 && a.last() == '$' && b.len() > 0 && is_digit(b[0])),
    ensures
        colorize(a + b, cur, v) == colorize(a, cur, v) + colorize(b, color_after(a, cur, v), v),
    decreases a.len(),
{
    let s = a + b;
    if a.len() == 0 {
        assert(s == b);
    } else if a[0] == '$' && a.len() > 1 && is_digit(a[1]) {
        assert(s[0] == a[0] && s[1] == a[1]);
        assert(s.skip(2) == a.skip(2) + b);
        if a.len() > 2 {
            assert(a.skip(2).last() == a.last());
        }
        lemma_colorize_split(a.skip(2), b, slot_of(v, digit_of(a[1])), v);
    } else {
        assert(s[0] == a[0]);
        if a.len() > 1 {
            assert(s[1] == a[1]);
            assert(a.skip(1).last() == a.last());
        }
        assert(s.skip(1) == a.skip(1) + b);
        lemma_colorize_split(a.skip(1), b, cur, v);
    }
}

proof fn lemma_colorize_line_break(a: Seq<char>, b: Seq<char>, cur: Seq<char>, v: ColorSystemView)
    ensures
        colorize(a + seq!['\n'] + b, cur, v) == colorize(a, cur, v) + seq!['\n'] + color_after(
            a,
            cur,
            v,
        ) + colorize(b, color_after(a, cur, v), v),
{
    let c = color_after(a, cur, v);
    assert(a + seq!['\n'] + b == a + (seq!['\n'] + b));
    lemma_colorize_split(a, seq!['\n'] + b, cur, v);
    assert((seq!['\n'] + b).skip(1) == b);
}

/// A line break keeps the logo's color: in the colored logo of `a`, a line break,
/// then `b`, the break is followed by the color of the last `$N` marker in `a`
/// (slot 0's when there is none), and `b` goes on in that color.
pub proof fn lemma_line_break_keeps_color(a: Seq<char>, b: Seq<char>, v: ColorSystemView)
    requires
        v.enabled,
    ensures
        ({
            let first = slot_of(v, 0);
            let c = color_after(a, first, v);
            colored_logo(a + seq!['\n'] + b, v) == first + colorize(a, first, v) + seq!['\n'] + c
                + colorize(b, c, v) + reset_of(v)
        }),
{
    lemma_colorize_line_break(a, b, slot_of(v, 0), v);
}

/// A marker selects its slot: in the colored logo of `a`, `$N` (a digit `N`), then
/// `b`, the marker is replaced by slot `N`'s escape sequence and `b` goes on in
/// that color. (A `$` at the end of `a` stays text: the marker is the last `$`.)
pub proof fn lemma_marker_selects_slot(a: Seq<char>, d: char, b: Seq<char>, v: ColorSystemView)
    requires
        v.enabled,
        is_digit(d),
    ensures
        ({
            let first = slot_of(v, 0);
            let c = slot_of(v, digit_of(d));
            colored_logo(a + seq!['$', d] + b, v) == first + colorize(a, first, v) + c
                + colorize(b, c, v) + reset_of(v)
        }),
{
    let first = slot_of(v, 0);
    let m = seq!['$', d] + b;
    assert(a + seq!['$', d] + b == a + m);
    lemma_colorize_split(a, m, first, v);
    assert(m.skip(2) == b);
}

/// Text without markers and line breaks is kept as it is.
pub proof fn lemma_plain_text_kept(s: Seq<char>, cur: Seq<char>, v: ColorSystemView)
    requires
        forall|i: int| 0 <= i < s.len() ==> #[trigger] s[i] != '$' && s[i] != '\n',
    ensures
        colorize(s, cur, v) == s,
        color_after(s, cur, v) == cur,
    decreases s.len(),
{
    if s.len() > 0 {
        let t = s.skip(1);
        assert forall|i: int| 0 <= i < t.len() implies #[trigger] t[i] != '$' && t[i] != '\n' by {
            assert(t[i] == s[i + 1]);
        }
        lemma_plain_text_kept(t, cur, v);
        assert(s == seq![s[0]] + t);
    }
}

/// The logo with its `$1`..`$9` color markers turned into the scheme's colors.
pub fn process_logo_colors(logo: &str, colors: &ColorSystem) -> (r: String)
    ensures
        r@ == colored_logo(logo@, colors@),
{
    if !colors.enabled() {
        return logo.to_owned();
    }
    let s = chars_of(logo);
    let mut out: Vec<char> = Vec::new();
    let first = colors.logo_slot(0);
    let mut current: Vec<char> = chars_of(first);
    extend_chars(&mut out, &current);
    let ghost v = colors@;
    let ghost total = current@ + colorize(s@, current@, v);
    let mut i: usize = 0;
    assert(s@.skip(0) == s@);
    while i < s.len()
        invariant
            i <= s.len(),
            v == colors@,
            out@ + colorize(s@.skip(i as int), current@, v) == total,
        decreases s.len() - i,
    {
        let ch = s[i];
        let ghost rest = s@.skip(i as int);
        if ch == '$' && i + 1 < s.len() && '0' <= s[i + 1] && s[i + 1] <= '9' {
            let d = (s[i + 1] as u32) - ('0' as u32);
            let slot = colors.logo_slot(d as usize);
            assert(digit_of(rest[1]) == d as nat);
            current = chars_of(slot);
            extend_chars(&mut out, &current);
            assert(rest.skip(2) == s@.skip(i + 2));
            assert(out@ + colorize(s@.skip(i + 2), current@, v) == total);
            i = i + 2;
        } else {
            out.push(ch);
            if ch == '\n' {
                extend_chars(&mut out, &current);
            }
            assert(rest.skip(1) == s@.skip(i + 1));
            i = i + 1;
        }
    }
    let reset = colors.reset();
    extend_str(&mut out, reset);
    assert(out@ == colored_logo(logo@, v));
    string_of(&out)
}

/// The directory of logo files, a value of the `include_dir` crate.
#[verifier::external_type_specification]
#[verifier::external_body]
pub struct ExLogoDir<'a>(include_dir::Dir<'a>);

/// The files that `Dir::get_file` finds in a directory, by the path it is given,
/// with their contents.
pub uninterp spec fn dir_files(d: include_dir::Dir<'static>) -> Map<Seq<char>, Seq<u8>>;

/// `include_dir::Dir::get_file` followed by `File::contents`: the bytes of the file
/// found at `path`, if there is one. What paths `get_file` finds is left to the
/// name `dir_files`.
#[verifier::external_body]
fn dir_file_bytes(d: &include_dir::Dir<'static>, path: &str) -> (r: Option<&'static [u8]>)
    ensures
        r is Some == dir_files(*d).contains_key(path@),
        r matches Some(b) ==> b@ == dir_files(*d)[path@],
{
    match d.get_file(path) {
        Some(f) => Some(f.contents()),
        None => None,
    }
}

/// The text shown when a distribution has no logo.
pub open spec fn logo_not_found() -> Seq<char> {
    "Logo not found"@
}

/// The logo of a distribution: the file `<distro_id>.txt` when there is one and it
/// is valid UTF-8, else `Logo not found`.
pub open spec fn ascii_logo_spec(d: include_dir::Dir<'static>, distro_id: Seq<char>) -> Seq<char> {
    let path = distro_id + ".txt"@;
    if dir_files(d).contains_key(path) && vstd::utf8::valid_utf8(dir_files(d)[path]) {
        vstd::utf8::decode_utf8(dir_files(d)[path])
    } else {
        logo_not_found()
    }
}

/// The logo of a distribution from the directory of logos.
pub fn get_ascii_logo(logos: &include_dir::Dir<'static>, distro_id: &str) -> (r: String)
    ensures
        r@ == ascii_logo_spec(*logos, distro_id@),
{
    let mut name = chars_of(distro_id);
    extend_str(&mut name, ".txt");
    let path = string_of(&name);
    match dir_file_bytes(logos, path.as_str()) {
        Some(bytes) => match utf8_str(bytes) {
            Some(s) => s.to_owned(),
            None => "Logo not found".to_owned(),
        },
        None => "Logo not found".to_owned(),
    }
}


/// With colors off a logo is printed exactly as it is, markers included.
pub proof fn lemma_colors_off_logo_unchanged(logo: Seq<char>, v: ColorSystemView)
    requires
        !v.enabled,
    ensures
        colored_logo(logo, v) == logo,
{
}

} // verus!
