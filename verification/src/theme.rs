//! The terminal's foreground and background colors, as the terminal reports them
//! or as the `COLORFGBG` variable gives them.
use vstd::prelude::*;
use crate::text::{
    chars_of, find_first, find_str, parse_i32, parse_int32, parse_uint, parse_unsigned, slice_chars,
    split, split_pieces, utf8_str, views, Sep,
};

verus! {

/// A color with its brightness class.
#[derive(Clone, Copy, PartialEq, Eq, Structural)]
pub struct TerminalColor {
    pub r: u8,
    pub g: u8,
    pub b: u8,
    pub dark: bool,
}

/// The terminal's foreground and background colors.
#[derive(Clone, Copy, PartialEq, Eq, Structural)]
pub struct TerminalTheme {
    pub fg: TerminalColor,
    pub bg: TerminalColor,
}

/// A color is dark when its luma `299 r + 587 g + 114 b` is below `128_000`.
pub open spec fn is_dark_spec(r: u8, g: u8, b: u8) -> bool {
    (r as int) * 299 + (g as int) * 587 + (b as int) * 114 < 128_000
}

pub fn is_dark(r: u8, g: u8, b: u8) -> (d: bool)
    ensures
        d == is_dark_spec(r, g, b),
{
    (r as u32) * 299 + (g as u32) * 587 + (b as u32) * 114 < 128_000
}

pub open spec fn color_of(r: u8, g: u8, b: u8) -> TerminalColor {
    TerminalColor { r, g, b, dark: is_dark_spec(r, g, b) }
}

impl TerminalColor {
    pub fn new(r: u8, g: u8, b: u8) -> (c: Self)
        ensures
            c == color_of(r, g, b),
    {
        let dark = is_dark(r, g, b);
        TerminalColor { r, g, b, dark }
    }
}

/// One component of an `rgb:` color in an OSC reply: 1 to 8 hexadecimal digits
/// (an optional `+` first); a value above `0x100` is divided by `0x100`, and the
/// result is capped at `0xff`.
pub open spec fn component_spec(c: Seq<char>) -> Option<u8> {
    if c.len() == 0 {
        None
    } else {
        match parse_unsigned(c, 16, 0xffff_ffff) {
            None => None,
            Some(v) => {
                let w = if v > 0x100 {
                    v / 0x100
                } else {
                    v
                };
                Some(
                    if w > 0xff {
                        0xffu8
                    } else {
                        w as u8
                    },
                )
            },
        }
    }
}

pub fn parse_component(component: &Vec<char>) -> (r: Option<u8>)
    ensures
        r == component_spec(component@),
{
    if component.len() == 0 {
        return None;
    }
    let mut value = match parse_uint(component, 16, 0xffff_ffff) {
        Some(v) => v,
        None => return None,
    };
    if value > 0x0100 {
        value = value / 0x0100;
    }
    if value > 0xFF {
        value = 0xFF;
    }
    Some(value as u8)
}

/// `R/G/B`: the first three `/`-separated components.
pub open spec fn triplet_spec(s: Seq<char>) -> Option<(u8, u8, u8)> {
    let p = split_pieces(s, Sep::Char('/'));
    if p.len() < 3 {
        None
    } else {
        match (component_spec(p[0]), component_spec(p[1]), component_spec(p[2])) {
            (Some(r), Some(g), Some(b)) => Some((r, g, b)),
            _ => None,
        }
    }
}

pub fn parse_triplet(spec: &Vec<char>) -> (r: Option<(u8, u8, u8)>)
    ensures
        r == triplet_spec(spec@),
{
    let parts = split(spec, Sep::Char('/'));
    if parts.len() < 3 {
        return None;
    }
    assert(parts@[0]@ == views(parts@)[0]);
    assert(parts@[1]@ == views(parts@)[1]);
    assert(parts@[2]@ == views(parts@)[2]);
    let r = match parse_component(&parts[0]) {
        Some(v) => v,
        None => return None,
    };
    let g = match parse_component(&parts[1]) {
        Some(v) => v,
        None => return None,
    };
    let b = match parse_component(&parts[2]) {
        Some(v) => v,
        None => return None,
    };
    Some((r, g, b))
}

/// The color that follows the first `prefix` in `response`, up to the first
/// `ESC \` after it.
pub open spec fn extract_color_spec(response: Seq<char>, prefix: Seq<char>) -> Option<(u8, u8, u8)> {
    match find_first(response, prefix) {
        None => None,
        Some(start) => {
            let after = response.skip(start + prefix.len());
            match find_first(after, "\u{1b}\\"@) {
                None => None,
                Some(end) => triplet_spec(after.take(end)),
            }
        },
    }
}

pub fn extract_color(response: &Vec<char>, prefix: &str) -> (r: Option<(u8, u8, u8)>)
    ensures
        r == extract_color_spec(response@, prefix@),
{
    let p = chars_of(prefix);
    let start = match crate::text::find(response, &p) {
        Some(s) => s,
        None => return None,
    };
    proof {
        crate::text::lemma_find_first(response@, p@);
        assert(find_first(response@, p@) == Some(start as int));
        assert(start + p@.len() <= response@.len());
    }
    assert(start + p.len() <= response.len());
    let after = slice_chars(response, start + p.len(), response.len());
    assert(after@ == response@.skip(start + p@.len()));
    let end = match find_str(&after, "\u{1b}\\") {
        Some(e) => e,
        None => return None,
    };
    proof {
        crate::text::lemma_find_first(after@, "\u{1b}\\"@);
    }
    let inner = slice_chars(&after, 0, end);
    assert(inner@ == after@.take(end as int));
    parse_triplet(&inner)
}

/// The theme in a reply to the OSC 10 and OSC 11 queries: valid UTF-8 holding
/// `ESC ]10;rgb:R/G/B ESC \` and `ESC ]11;rgb:R/G/B ESC \`.
pub open spec fn osc_response_spec(buffer: Seq<u8>) -> Option<TerminalTheme> {
    if !vstd::utf8::valid_utf8(buffer) {
        None
    } else {
        let s = vstd::utf8::decode_utf8(buffer);
        match (
            extract_color_spec(s, "\u{1b}]10;rgb:"@),
            extract_color_spec(s, "\u{1b}]11;rgb:"@),
        ) {
            (Some(f), Some(b)) => Some(
                TerminalTheme { fg: color_of(f.0, f.1, f.2), bg: color_of(b.0, b.1, b.2) },
            ),
            _ => None,
        }
    }
}

pub fn parse_osc_response(buffer: &[u8]) -> (r: Option<TerminalTheme>)
    ensures
        r == osc_response_spec(buffer@),
{
    let response = match utf8_str(buffer) {
        Some(s) => chars_of(s),
        None => return None,
    };
    let fg = match extract_color(&response, "\u{1b}]10;rgb:") {
        Some(c) => c,
        None => return None,
    };
    let bg = match extract_color(&response, "\u{1b}]11;rgb:") {
        Some(c) => c,
        None => return None,
    };
    let fg = TerminalColor::new(fg.0, fg.1, fg.2);
    let bg = TerminalColor::new(bg.0, bg.1, bg.2);
    Some(TerminalTheme { fg, bg })
}

/// The color of one of the 16 basic ANSI colors (xterm's values).
pub open spec fn ansi_rgb(index: int) -> Option<(u8, u8, u8)> {
    if index == 0 {
        Some((0, 0, 0))
    } else if index == 1 {
        Some((205, 0, 0))
    } else if index == 2 {
        Some((0, 205, 0))
    } else if index == 3 {
        Some((205, 205, 0))
    } else if index == 4 {
        Some((0, 0, 238))
    } else if index == 5 {
        Some((205, 0, 205))
    } else if index == 6 {
        Some((0, 205, 205))
    } else if index == 7 {
        Some((229, 229, 229))
    } else if index == 8 {
        Some((127, 127, 127))
    } else if index == 9 {
        Some((255, 0, 0))
    } else if index == 10 {
        Some((0, 255, 0))
    } else if index == 11 {
        Some((255, 255, 0))
    } else if index == 12 {
        Some((92, 92, 255))
    } else if index == 13 {
        Some((255, 0, 255))
    } else if index == 14 {
        Some((0, 255, 255))
    } else if index == 15 {
        Some((255, 255, 255))
    } else {
        None
    }
}

pub open spec fn ansi_color_spec(index: int) -> Option<TerminalColor> {
    match ansi_rgb(index) {
        Some((r, g, b)) => Some(color_of(r, g, b)),
        None => None,
    }
}

pub fn ansi_color_to_rgb(index: i32) -> (r: Option<TerminalColor>)
    ensures
        r == ansi_color_spec(index as int),
{
    if index < 0 {
        return None;
    }
    let (r, g, b): (u8, u8, u8) = match index {
        0 => (0, 0, 0),
        1 => (205, 0, 0),
        2 => (0, 205, 0),
        3 => (205, 205, 0),
        4 => (0, 0, 238),
        5 => (205, 0, 205),
        6 => (0, 205, 205),
        7 => (229, 229, 229),
        8 => (127, 127, 127),
        9 => (255, 0, 0),
        10 => (0, 255, 0),
        11 => (255, 255, 0),
        12 => (92, 92, 255),
        13 => (255, 0, 255),
        14 => (0, 255, 255),
        15 => (255, 255, 255),
        _ => return None,
    };
    Some(TerminalColor::new(r, g, b))
}

/// The theme that a `COLORFGBG` value `fg;bg` gives: the first two `;`-separated
/// fields are basic ANSI color indices.
pub open spec fn env_theme_spec(value: Option<Seq<char>>) -> Option<TerminalTheme> {
    match value {
        None => None,
        Some(v) => {
            let p = split_pieces(v, Sep::Char(';'));
            if p.len() < 2 {
                None
            } else {
                match (parse_i32(p[0]), parse_i32(p[1])) {
                    (Some(f), Some(b)) => match (ansi_color_spec(f), ansi_color_spec(b)) {
                        (Some(fc), Some(bc)) => Some(TerminalTheme { fg: fc, bg: bc }),
                        _ => None,
                    },
                    _ => None,
                }
            }
        },
    }
}

pub open spec fn opt_str_seq(o: Option<&str>) -> Option<Seq<char>> {
    match o {
        Some(s) => Some(s@),
        None => None,
    }
}

/// The theme given by the value of the `COLORFGBG` variable, if it is set.
pub fn detect_by_env(colorfgbg: Option<&str>) -> (r: Option<TerminalTheme>)
    ensures
        r == env_theme_spec(opt_str_seq(colorfgbg)),
{
    let value = match colorfgbg {
        Some(v) => chars_of(v),
        None => return None,
    };
    let parts = split(&value, Sep::Char(';'));
    if parts.len() < 2 {
        return None;
    }
    assert(parts@[0]@ == views(parts@)[0]);
    assert(parts@[1]@ == views(parts@)[1]);
    let fg = match parse_int32(&parts[0]) {
        Some(v) => v,
        None => return None,
    };
    let bg = match parse_int32(&parts[1]) {
        Some(v) => v,
        None => return None,
    };
    let fg = match ansi_color_to_rgb(fg) {
        Some(c) => c,
        None => return None,
    };
    let bg = match ansi_color_to_rgb(bg) {
        Some(c) => c,
        None => return None,
    };
    Some(TerminalTheme { fg, bg })
}

/// The terminal theme: unless `force_env`, the theme the terminal reported to the
/// escape-code query (`escape_reply`) when it gave one; otherwise the one that
/// `COLORFGBG` gives.
pub fn detect_terminal_theme(
    force_env: bool,
    escape_reply: Option<TerminalTheme>,
    colorfgbg: Option<&str>,
) -> (r: Option<TerminalTheme>)
    ensures
        r == (if !force_env && escape_reply is Some {
            escape_reply
        } else {
            env_theme_spec(opt_str_seq(colorfgbg))
        }),
{
    if !force_env {
        if let Some(theme) = escape_reply {
            return Some(theme);
        }
    }
    detect_by_env(colorfgbg)
}


/// The size of the buffer that holds a terminal's reply; one byte stays free.
pub const REPLY_BUFFER_LEN: usize = 1024;

/// What to do after a read from the terminal during the escape-code query.
#[derive(Clone, Copy, PartialEq, Eq, Structural)]
pub enum ReplyStep {
    /// The reply is complete and gives this theme.
    Theme(TerminalTheme),
    /// Read more.
    ReadMore,
    /// The terminal stopped answering or the buffer is full without a theme.
    Failed,
}

/// The step after a read of `last_read` bytes that brought the reply received so
/// far to `received`: fail on an empty read, return the theme once the reply
/// parses, fail when the buffer is full, else read more.
pub open spec fn reply_step_spec(received: Seq<u8>, last_read: nat) -> ReplyStep {
    if last_read == 0 {
        ReplyStep::Failed
    } else {
        match osc_response_spec(received) {
            Some(t) => ReplyStep::Theme(t),
            None => if received.len() >= REPLY_BUFFER_LEN - 1 {
                ReplyStep::Failed
            } else {
                ReplyStep::ReadMore
            },
        }
    }
}

/// The decision after each read of the terminal's reply.
pub fn escape_reply_step(received: &[u8], last_read: usize) -> (r: ReplyStep)
    ensures
        r == reply_step_spec(received@, last_read as nat),
{
    if last_read == 0 {
        return ReplyStep::Failed;
    }
    match parse_osc_response(received) {
        Some(t) => ReplyStep::Theme(t),
        None => if received.len() >= REPLY_BUFFER_LEN - 1 {
            ReplyStep::Failed
        } else {
            ReplyStep::ReadMore
        },
    }
}

} // verus!
