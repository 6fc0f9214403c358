//! The output: the bordered information box, its lines and padding, and the
//! layout of logo and box side by side.
use vstd::prelude::*;
use crate::colors::{reset_of, ColorSystem, ColorSystemView};
use crate::config::{is_shown, shown, Config};
use crate::system::{GpuInfo, StorageInfo, SystemInfo};
use crate::text::{
    byte_len, byte_length, chars_of, decimal, eq_str, extend_chars, extend_str, is_digit,
    lemma_byte_len_bound, parse_uint, parse_unsigned, push_decimal, string_of, trim, trim_chars,
    trim_str, lines, lines_of, views, string_seq_views, utf8_width, split_pieces, strip_cr, Sep,
};

verus! {

/// Labels get this many columns before their `: `.
pub const LABEL_WIDTH: usize = 10;

/// Columns between the logo and the box.
pub const HORIZONTAL_GAP_DEFAULT: usize = 4;

/// Blank columns kept after the longest line inside the box.
pub const RIGHT_PADDING: usize = 2;

/// The narrowest terminal that the layout assumes.
pub const MIN_TERMINAL_WIDTH: usize = 40;

// ---------------------------------------------------------------------------
// Text helpers
// ---------------------------------------------------------------------------

/// `n` spaces.
pub open spec fn spaces(n: nat) -> Seq<char> {
    Seq::new(n, |i: int| ' ')
}

/// `n` copies of `c`.
pub open spec fn repeat_char(c: char, n: nat) -> Seq<char> {
    Seq::new(n, |i: int| c)
}

/// `a - b`, or 0 when `b` is larger.
pub open spec fn sat_sub(a: nat, b: nat) -> nat {
    if a > b {
        (a - b) as nat
    } else {
        0
    }
}

/// The first `w` characters of `t` (all of it when it is shorter).
pub open spec fn trunc(t: Seq<char>, w: nat) -> Seq<char> {
    if w >= t.len() {
        t
    } else {
        t.take(w as int)
    }
}

fn push_repeat(out: &mut Vec<char>, c: char, n: u128)
    ensures
        final(out)@ == old(out)@ + repeat_char(c, n as nat),
{
    let mut i: u128 = 0;
    while i < n
        invariant
            i <= n,
            out@ == old(out)@ + repeat_char(c, i as nat),
        decreases n - i,
    {
        out.push(c);
        assert(repeat_char(c, (i + 1) as nat) == repeat_char(c, i as nat).push(c));
        i = i + 1;
    }
}

fn push_spaces(out: &mut Vec<char>, n: u128)
    ensures
        final(out)@ == old(out)@ + spaces(n as nat),
{
    push_repeat(out, ' ', n);
    assert(repeat_char(' ', n as nat) == spaces(n as nat));
}

fn sub_or_zero(a: u128, b: u128) -> (r: u128)
    ensures
        r == sat_sub(a as nat, b as nat),
{
    if a > b {
        a - b
    } else {
        0
    }
}

fn trunc_chars(t: &Vec<char>, w: u128) -> (r: Vec<char>)
    ensures
        r@ == trunc(t@, w as nat),
{
    let mut r: Vec<char> = Vec::new();
    let mut i: usize = 0;
    while i < t.len() && (i as u128) < w
        invariant
            i <= t.len(),
            i <= w,
            r@ == t@.take(i as int),
        decreases t.len() - i,
    {
        r.push(t[i]);
        assert(t@.take(i + 1) == t@.take(i as int).push(t@[i as int]));
        i = i + 1;
    }
    assert(t@.take(t.len() as int) == t@);
    r
}

/// The first `max_width` characters of `text`.
pub fn truncate_visible(text: &str, max_width: usize) -> (r: String)
    ensures
        r@ == trunc(text@, max_width as nat),
{
    let t = chars_of(text);
    string_of(&trunc_chars(&t, max_width as u128))
}

// ---------------------------------------------------------------------------
// Visible width
// ---------------------------------------------------------------------------

/// The pattern of the color sequences that width measurement skips: a `[`, a run
/// of digits and `;`, and an `m`.
pub open spec fn sgr_pattern() -> Seq<char> {
    "\\[[0-9;]*m"@
}

/// The end of the run of digits and `;` that starts at `i`.
pub open spec fn sgr_run_end(s: Seq<char>, i: int) -> int
    decreases s.len() - i,
{
    if 0 <= i < s.len() && (is_digit(s[i]) || s[i] == ';') {
        sgr_run_end(s, i + 1)
    } else {
        i
    }
}

/// Where a match of the pattern that starts at `i` ends (exclusive), if one does.
pub open spec fn sgr_match_end(s: Seq<char>, i: int) -> Option<int> {
    if 0 <= i < s.len() && s[i] == '[' {
        let j = sgr_run_end(s, i + 1);
        if j < s.len() && s[j] == 'm' {
            Some(j + 1)
        } else {
            None
        }
    } else {
        None
    }
}

/// The text from `i` on with every match of the pattern removed, scanning left to
/// right.
pub open spec fn strip_sgr_from(s: Seq<char>, i: int) -> Seq<char>
    decreases s.len() - i,
{
    if i < 0 || i >= s.len() {
        Seq::empty()
    } else {
        match sgr_match_end(s, i) {
            Some(e) => if e > i {
                strip_sgr_from(s, e)
            } else {
                Seq::empty()
            },
            None => seq![s[i]] + strip_sgr_from(s, i + 1),
        }
    }
}

pub open spec fn strip_sgr(s: Seq<char>) -> Seq<char> {
    strip_sgr_from(s, 0)
}

/// regex `Regex::new(pattern)` followed by `replace_all(text, "")`, for the one
/// pattern that width measurement uses. That pattern is valid regex syntax, so
/// compiling it succeeds; `replace_all` removes the leftmost-first,
/// non-overlapping matches, and a match of this pattern is exactly a `[`, the
/// longest run of digits and `;` after it, and an `m` right after that run. The
/// contract states the result for this pattern only.
#[verifier::external_body]
fn regex_remove_all(pattern: &str, text: &str) -> (r: String)
    requires
        pattern@ == sgr_pattern(),
    ensures
        r@ == strip_sgr(text@),
{
    regex::Regex::new(pattern).unwrap().replace_all(text, "").into_owned()
}

/// The width of a line on screen, in bytes, without its color sequences.
pub fn visible_width(s: &str) -> (r: u128)
    ensures
        r == byte_len(strip_sgr(s@)),
{
    proof {
        reveal_strlit("\\[[0-9;]*m");
    }
    let stripped = regex_remove_all("\\[[0-9;]*m", s);
    byte_length(&chars_of(stripped.as_str()))
}

// ---------------------------------------------------------------------------
// Box lines
// ---------------------------------------------------------------------------

/// A box character, in the outline color when colors are on and one is set.
pub open spec fn border_spec(v: ColorSystemView, ch: char) -> Seq<char> {
    if v.enabled && v.box_color.len() > 0 {
        v.box_color + seq![ch] + reset_of(v)
    } else {
        seq![ch]
    }
}

/// A whole outline line, in the outline color when colors are on and one is set.
pub open spec fn border_line_spec(v: ColorSystemView, line: Seq<char>) -> Seq<char> {
    if v.enabled && v.box_color.len() > 0 {
        v.box_color + line + reset_of(v)
    } else {
        line
    }
}

/// `text` wrapped in `color` and a reset when colors are on, `show` holds and a
/// color is set.
pub open spec fn paint(v: ColorSystemView, show: bool, color: Seq<char>, text: Seq<char>) -> Seq<
    char,
> {
    if v.enabled && show && color.len() > 0 {
        color + text + reset_of(v)
    } else {
        text
    }
}

fn paint_chars(colors: &ColorSystem, show: bool, color: &str, text: &Vec<char>) -> (r: Vec<char>)
    ensures
        r@ == (if colors@.enabled && show && color@.len() > 0 {
            color@ + text@ + reset_of(colors@)
        } else {
            text@
        }),
{
    if colors.enabled() && show && !color.is_empty() {
        let mut out = chars_of(color);
        extend_chars(&mut out, text);
        extend_str(&mut out, colors.reset());
        out
    } else {
        text.clone()
    }
}

/// A box character in the outline color.
pub fn border_segment(colors: &ColorSystem, ch: char) -> (r: String)
    ensures
        r@ == border_spec(colors@, ch),
{
    let c = vec![ch];
    string_of(&paint_chars(colors, true, colors.box_color(), &c))
}

/// An outline line in the outline color.
pub fn color_border_line(line: String, colors: &ColorSystem) -> (r: String)
    ensures
        r@ == border_line_spec(colors@, line@),
{
    let l = chars_of(line.as_str());
    string_of(&paint_chars(colors, true, colors.box_color(), &l))
}

/// The title row: the title cut to the inner width, centered, in the title color,
/// between two box sides.
pub open spec fn title_line_spec(title: Seq<char>, box_width: nat, v: ColorSystemView) -> Seq<
    char,
> {
    let cw = sat_sub(box_width, 4);
    let tt = trunc(title, cw);
    let padding = sat_sub(cw, byte_len(tt));
    let left = padding / 2;
    let right = (padding - left) as nat;
    let centered = spaces(left) + tt + spaces(right);
    border_spec(v, '│') + "  "@ + paint(v, trim(tt).len() > 0, v.title_color, centered)
        + border_spec(v, '│')
}

/// The title row of a box `box_width` columns wide.
pub fn pad_box_title(title: &str, box_width: usize, colors: &ColorSystem) -> (r: String)
    ensures
        r@ == title_line_spec(title@, box_width as nat, colors@),
{
    let cw = sub_or_zero(box_width as u128, 4);
    let tt = trunc_chars(&chars_of(title), cw);
    let padding = sub_or_zero(cw, byte_length(&tt));
    let left = padding / 2;
    let right = padding - left;
    let mut centered: Vec<char> = Vec::new();
    push_spaces(&mut centered, left);
    extend_chars(&mut centered, &tt);
    push_spaces(&mut centered, right);
    let show = trim_chars(&tt).len() > 0;
    let colored = paint_chars(colors, show, colors.title_color(), &centered);
    let mut line = chars_of(border_segment(colors, '│').as_str());
    extend_str(&mut line, "  ");
    extend_chars(&mut line, &colored);
    extend_str(&mut line, border_segment(colors, '│').as_str());
    string_of(&line)
}

/// The label part of a box line for an inner width `cw`: the label cut and padded
/// to the label columns (at most 10, fewer in a narrow box), then `: ` (or what
/// of it fits).
pub open spec fn label_field(label: Seq<char>, cw: nat) -> Seq<char> {
    let law: nat = if 12 > cw {
        cw
    } else {
        12
    };
    let colon: nat = if law >= 2 {
        2
    } else {
        law
    };
    let elw = sat_sub(law, colon);
    let tl = trunc(label, elw);
    let base = if elw > 0 {
        tl + spaces(sat_sub(elw, tl.len()))
    } else {
        Seq::empty()
    };
    if colon == 2 {
        base + ": "@
    } else if colon == 1 {
        base + ":"@
    } else {
        base
    }
}

fn label_field_chars(label: &Vec<char>, cw: u128) -> (r: Vec<char>)
    ensures
        r@ == label_field(label@, cw as nat),
{
    let law: u128 = if 12 > cw {
        cw
    } else {
        12
    };
    let colon: u128 = if law >= 2 {
        2
    } else {
        law
    };
    let elw = sub_or_zero(law, colon);
    let tl = trunc_chars(label, elw);
    let mut base: Vec<char> = Vec::new();
    if elw > 0 {
        base = tl.clone();
        push_spaces(&mut base, sub_or_zero(elw, tl.len() as u128));
    }
    if colon == 2 {
        extend_str(&mut base, ": ");
    } else if colon == 1 {
        extend_str(&mut base, ":");
    }
    base
}

/// A row of the box: label and value, each in its color, padded to the inner
/// width, between two box sides.
pub open spec fn box_line_spec(
    label: Seq<char>,
    value: Seq<char>,
    box_width: nat,
    v: ColorSystemView,
) -> Seq<char> {
    let cw = sat_sub(box_width, 4);
    let lwc = label_field(label, cw);
    let avail = sat_sub(cw, byte_len(lwc));
    let tv = trunc(value, avail);
    let pad = sat_sub(cw, byte_len(lwc) + byte_len(tv));
    border_spec(v, '│') + "  "@ + paint(v, trim(lwc).len() > 0, v.key_color, lwc) + paint(
        v,
        tv.len() > 0,
        v.value_color,
        tv,
    ) + spaces(pad) + border_spec(v, '│')
}

/// A row of a box `box_width` columns wide.
pub fn pad_box_line(label: &str, value: &str, box_width: usize, colors: &ColorSystem) -> (r:
    String)
    ensures
        r@ == box_line_spec(label@, value@, box_width as nat, colors@),
{
    let cw = sub_or_zero(box_width as u128, 4);
    let lwc = label_field_chars(&chars_of(label), cw);
    let lwc_len = byte_length(&lwc);
    let avail = sub_or_zero(cw, lwc_len);
    let tv = trunc_chars(&chars_of(value), avail);
    let tv_len = byte_length(&tv);
    proof {
        lemma_byte_len_bound(lwc@);
        lemma_byte_len_bound(tv@);
    }
    let pad = sub_or_zero(cw, lwc_len + tv_len);
    let show_label = trim_chars(&lwc).len() > 0;
    let colored_label = paint_chars(colors, show_label, colors.key_color(), &lwc);
    let colored_value = paint_chars(colors, tv.len() > 0, colors.value_color(), &tv);
    let mut line = chars_of(border_segment(colors, '│').as_str());
    extend_str(&mut line, "  ");
    extend_chars(&mut line, &colored_label);
    extend_chars(&mut line, &colored_value);
    push_spaces(&mut line, pad);
    extend_str(&mut line, border_segment(colors, '│').as_str());
    string_of(&line)
}


// ---------------------------------------------------------------------------
// What the box shows
// ---------------------------------------------------------------------------

pub open spec fn pair_views(s: Seq<(String, String)>) -> Seq<(Seq<char>, Seq<char>)> {
    s.map_values(|p: (String, String)| (p.0@, p.1@))
}

/// The characters of an optional value, `N/A` when it is missing.
pub open spec fn or_na(o: Option<String>) -> Seq<char> {
    match o {
        Some(s) => s@,
        None => "N/A"@,
    }
}

pub open spec fn row_if(show: bool, label: Seq<char>, value: Seq<char>) -> Seq<
    (Seq<char>, Seq<char>),
> {
    if show {
        seq![(label, value)]
    } else {
        Seq::empty()
    }
}

/// The CPU value: the CPU line (or `N/A`) with the maximum clock in parentheses
/// when one is known; just `({clock})` when the CPU line is `N/A`.
pub open spec fn cpu_value_spec(cpu: Option<String>, freq: Option<String>) -> Seq<char> {
    let base = or_na(cpu);
    match freq {
        Some(f) => if f@.len() > 0 {
            if base == "N/A"@ {
                "("@ + f@ + ")"@
            } else {
                base + " ("@ + f@ + ")"@
            }
        } else {
            base
        },
        None => base,
    }
}

/// One row per GPU, `GPU {n}` with `{name} [{kind}]`; one `No GPUs detected.`
/// row when there is none.
pub open spec fn gpu_rows(gpus: Seq<GpuInfo>) -> Seq<(Seq<char>, Seq<char>)> {
    if gpus.len() == 0 {
        seq![("GPU"@, "No GPUs detected."@)]
    } else {
        Seq::new(
            gpus.len(),
            |i: int|
                (
                    "GPU "@ + decimal((i + 1) as nat),
                    gpus[i].name@ + " ["@ + gpus[i].kind.label_spec() + "]"@,
                ),
        )
    }
}

/// One row per volume: `Disk ({name})` with `{used} / {total} ({percent}%) -
/// {fs}`, and ` [Read-only]` for a read-only one.
pub open spec fn disk_rows(disks: Seq<StorageInfo>) -> Seq<(Seq<char>, Seq<char>)> {
    Seq::new(
        disks.len(),
        |i: int|
            (
                "Disk ("@ + disks[i].name@ + ")"@,
                disks[i].used@ + " / "@ + disks[i].total@ + " ("@ + decimal(
                    disks[i].percent as nat,
                ) + "%) - "@ + disks[i].fs_type@ + if disks[i].readonly {
                    " [Read-only]"@
                } else {
                    Seq::<char>::empty()
                },
            ),
    )
}

/// The rows of the box, in order, each shown unless the configuration hides it.
pub open spec fn info_pairs_spec(
    info: SystemInfo,
    config: Config,
    mem_val: Seq<char>,
    swap_val: Seq<char>,
) -> Seq<(Seq<char>, Seq<char>)> {
    row_if(shown(config.show_distro), "Distro"@, info.distro@) + row_if(
        shown(config.show_distro_id),
        "Distro ID"@,
        info.distro_id@,
    ) + row_if(shown(config.show_kernel), "Kernel"@, info.kernel@) + row_if(
        shown(config.show_cpu),
        "CPU"@,
        cpu_value_spec(info.cpu, info.cpu_max_frequency),
    ) + (if shown(config.show_gpu) {
        gpu_rows(info.gpus@)
    } else {
        Seq::empty()
    }) + row_if(shown(config.show_memory), "Memory"@, mem_val) + row_if(
        shown(config.show_swap),
        "Swap"@,
        swap_val,
    ) + row_if(shown(config.show_local_ip), "Local IP"@, or_na(info.local_ip)) + row_if(
        shown(config.show_battery),
        "Battery"@,
        or_na(info.battery),
    ) + row_if(shown(config.show_uptime), "Uptime"@, or_na(info.uptime)) + (if shown(
        config.show_storage,
    ) {
        disk_rows(info.storage@)
    } else {
        Seq::empty()
    })
}

fn push_row(rows: &mut Vec<(String, String)>, label: String, value: String)
    ensures
        pair_views(final(rows)@) == pair_views(old(rows)@).push((label@, value@)),
{
    let ghost l = label@;
    let ghost v = value@;
    rows.push((label, value));
    assert(pair_views(rows@) == pair_views(old(rows)@).push((l, v)));
}

fn or_na_chars(o: &Option<String>) -> (r: Vec<char>)
    ensures
        r@ == or_na(*o),
{
    match o {
        Some(s) => chars_of(s.as_str()),
        None => chars_of("N/A"),
    }
}

fn cpu_value(cpu: &Option<String>, freq: &Option<String>) -> (r: String)
    ensures
        r@ == cpu_value_spec(*cpu, *freq),
{
    let base = or_na_chars(cpu);
    match freq {
        Some(f) => {
            if f.as_str().is_empty() {
                string_of(&base)
            } else if eq_str(&base, "N/A") {
                let mut out = chars_of("(");
                extend_str(&mut out, f.as_str());
                extend_str(&mut out, ")");
                string_of(&out)
            } else {
                let mut out = base;
                extend_str(&mut out, " (");
                extend_str(&mut out, f.as_str());
                extend_str(&mut out, ")");
                string_of(&out)
            }
        },
        None => string_of(&base),
    }
}

fn gpu_rows_exec(rows: &mut Vec<(String, String)>, gpus: &Vec<GpuInfo>)
    ensures
        pair_views(final(rows)@) == pair_views(old(rows)@) + gpu_rows(gpus@),
{
    if gpus.len() == 0 {
        push_row(rows, "GPU".to_owned(), "No GPUs detected.".to_owned());
        return;
    }
    let ghost start = pair_views(rows@);
    let mut i: usize = 0;
    while i < gpus.len()
        invariant
            i <= gpus.len(),
            gpus.len() > 0,
            pair_views(rows@) == start + gpu_rows(gpus@).take(i as int),
        decreases gpus.len() - i,
    {
        let mut label = chars_of("GPU ");
        push_decimal(&mut label, (i + 1) as u64);
        let mut value = chars_of(gpus[i].name.as_str());
        extend_str(&mut value, " [");
        extend_str(&mut value, gpus[i].kind.label());
        extend_str(&mut value, "]");
        push_row(rows, string_of(&label), string_of(&value));
        assert(gpu_rows(gpus@).take(i + 1) == gpu_rows(gpus@).take(i as int).push(
            gpu_rows(gpus@)[i as int],
        ));
        i = i + 1;
    }
    assert(gpu_rows(gpus@).take(gpus.len() as int) == gpu_rows(gpus@));
}

fn disk_rows_exec(rows: &mut Vec<(String, String)>, disks: &Vec<StorageInfo>)
    ensures
        pair_views(final(rows)@) == pair_views(old(rows)@) + disk_rows(disks@),
{
    let ghost start = pair_views(rows@);
    let mut i: usize = 0;
    while i < disks.len()
        invariant
            i <= disks.len(),
            pair_views(rows@) == start + disk_rows(disks@).take(i as int),
        decreases disks.len() - i,
    {
        let d = &disks[i];
        let mut label = chars_of("Disk (");
        extend_str(&mut label, d.name.as_str());
        extend_str(&mut label, ")");
        let mut value = chars_of(d.used.as_str());
        extend_str(&mut value, " / ");
        extend_str(&mut value, d.total.as_str());
        extend_str(&mut value, " (");
        push_decimal(&mut value, d.percent as u64);
        extend_str(&mut value, "%) - ");
        extend_str(&mut value, d.fs_type.as_str());
        if d.readonly {
            extend_str(&mut value, " [Read-only]");
        } else {
            assert(value@ + Seq::<char>::empty() == value@);
        }
        push_row(rows, string_of(&label), string_of(&value));
        assert(disk_rows(disks@).take(i + 1) == disk_rows(disks@).take(i as int).push(
            disk_rows(disks@)[i as int],
        ));
        i = i + 1;
    }
    assert(disk_rows(disks@).take(disks.len() as int) == disk_rows(disks@));
}

fn push_row_if(rows: &mut Vec<(String, String)>, show: bool, label: &str, value: String)
    ensures
        pair_views(final(rows)@) == pair_views(old(rows)@) + row_if(show, label@, value@),
{
    if show {
        push_row(rows, label.to_owned(), value);
    } else {
        assert(pair_views(rows@) + Seq::<(Seq<char>, Seq<char>)>::empty() == pair_views(rows@));
    }
}

/// The rows of the box for a summary and configuration. The memory and swap values
/// are given as already written out.
#[verifier::rlimit(40)]
pub fn info_pairs(info: &SystemInfo, config: &Config, mem_val: &str, swap_val: &str) -> (r: Vec<
    (String, String),
>)
    ensures
        pair_views(r@) == info_pairs_spec(*info, *config, mem_val@, swap_val@),
{
    let mut rows: Vec<(String, String)> = Vec::new();
    push_row_if(&mut rows, is_shown(config.show_distro), "Distro", info.distro.clone());
    assert(pair_views(rows@) == row_if(shown(config.show_distro), "Distro"@, info.distro@));
    push_row_if(&mut rows, is_shown(config.show_distro_id), "Distro ID", info.distro_id.clone());
    push_row_if(&mut rows, is_shown(config.show_kernel), "Kernel", info.kernel.clone());
    push_row_if(
        &mut rows,
        is_shown(config.show_cpu),
        "CPU",
        cpu_value(&info.cpu, &info.cpu_max_frequency),
    );
    let ghost d = pair_views(rows@);
    if is_shown(config.show_gpu) {
        gpu_rows_exec(&mut rows, &info.gpus);
    } else {
        assert(d + Seq::<(Seq<char>, Seq<char>)>::empty() == d);
    }
    push_row_if(&mut rows, is_shown(config.show_memory), "Memory", mem_val.to_owned());
    push_row_if(&mut rows, is_shown(config.show_swap), "Swap", swap_val.to_owned());
    push_row_if(
        &mut rows,
        is_shown(config.show_local_ip),
        "Local IP",
        string_of(&or_na_chars(&info.local_ip)),
    );
    push_row_if(
        &mut rows,
        is_shown(config.show_battery),
        "Battery",
        string_of(&or_na_chars(&info.battery)),
    );
    push_row_if(
        &mut rows,
        is_shown(config.show_uptime),
        "Uptime",
        string_of(&or_na_chars(&info.uptime)),
    );
    let ghost l = pair_views(rows@);
    if is_shown(config.show_storage) {
        disk_rows_exec(&mut rows, &info.storage);
    } else {
        assert(l + Seq::<(Seq<char>, Seq<char>)>::empty() == l);
    }
    rows
}

/// `{used} / {total} ({percent}%)`, with `N/A` for a missing size.
pub open spec fn usage_text_spec(used: Option<String>, total: Option<String>, percent: Seq<char>) -> Seq<
    char,
> {
    or_na(used) + " / "@ + or_na(total) + " ("@ + percent + "%)"@
}

/// The memory or swap value from the used and total sizes and the percentage as
/// written out.
pub fn usage_text(used: &Option<String>, total: &Option<String>, percent: &str) -> (r: String)
    ensures
        r@ == usage_text_spec(*used, *total, percent@),
{
    let mut out = or_na_chars(used);
    extend_str(&mut out, " / ");
    extend_chars(&mut out, &or_na_chars(total));
    extend_str(&mut out, " (");
    extend_str(&mut out, percent);
    extend_str(&mut out, "%)");
    string_of(&out)
}

/// `user@host`, or whichever of the two is known, when the configuration shows it.
pub open spec fn user_host_spec(info: SystemInfo, config: Config) -> Seq<char> {
    if shown(config.show_user_host) {
        match (info.username, info.hostname) {
            (Some(u), Some(h)) => u@ + "@"@ + h@,
            (Some(u), None) => u@,
            (None, Some(h)) => h@,
            (None, None) => Seq::empty(),
        }
    } else {
        Seq::empty()
    }
}

/// `{user_host} | System Information`, or `System Information` alone.
pub open spec fn title_spec(info: SystemInfo, config: Config) -> Seq<char> {
    let uh = user_host_spec(info, config);
    if uh.len() > 0 {
        uh + " | System Information"@
    } else {
        "System Information"@
    }
}

/// The title of the box.
pub fn box_title(info: &SystemInfo, config: &Config) -> (r: String)
    ensures
        r@ == title_spec(*info, *config),
{
    let uh: Vec<char> = if is_shown(config.show_user_host) {
        match (&info.username, &info.hostname) {
            (Some(u), Some(h)) => {
                let mut out = chars_of(u.as_str());
                extend_str(&mut out, "@");
                extend_str(&mut out, h.as_str());
                out
            },
            (Some(u), None) => chars_of(u.as_str()),
            (None, Some(h)) => chars_of(h.as_str()),
            (None, None) => Vec::new(),
        }
    } else {
        Vec::new()
    };
    if uh.len() > 0 {
        let mut out = uh;
        extend_str(&mut out, " | System Information");
        string_of(&out)
    } else {
        "System Information".to_owned()
    }
}

/// The terminal width: `COLUMNS` when it is a number of at least 40, else the
/// width the terminal reports when it is positive, else 80.
pub open spec fn terminal_width_spec(columns: Option<Seq<char>>, reported: Option<nat>) -> nat {
    let from_env = match columns {
        Some(c) => match parse_unsigned(trim(c), 10, usize::MAX as nat) {
            Some(v) => if v >= 40 {
                Some(v)
            } else {
                None
            },
            None => None,
        },
        None => None,
    };
    match from_env {
        Some(v) => v,
        None => match reported {
            Some(w) => if w > 0 {
                w
            } else {
                80
            },
            None => 80,
        },
    }
}

/// The terminal width from the `COLUMNS` variable and the width that the terminal
/// reported, when either is known.
pub fn detect_terminal_width(columns: Option<&str>, reported: Option<usize>) -> (r: usize)
    ensures
        r as nat == terminal_width_spec(
            match columns {
                Some(c) => Some(c@),
                None => None,
            },
            match reported {
                Some(w) => Some(w as nat),
                None => None,
            },
        ),
{
    match columns {
        Some(c) => {
            let t = trim_str(c);
            match parse_uint(&t, 10, usize::MAX as u64) {
                Some(v) => {
                    if v >= 40 {
                        return v as usize;
                    }
                },
                None => {},
            }
        },
        None => {},
    }
    match reported {
        Some(w) => if w > 0 {
            w
        } else {
            80
        },
        None => 80,
    }
}


// ---------------------------------------------------------------------------
// The layout
// ---------------------------------------------------------------------------

pub open spec fn max_nat(a: nat, b: nat) -> nat {
    if a >= b {
        a
    } else {
        b
    }
}

/// The widest logo line on screen.
pub open spec fn logo_width_of(ls: Seq<Seq<char>>) -> nat
    decreases ls.len(),
{
    if ls.len() == 0 {
        0
    } else {
        max_nat(logo_width_of(ls.drop_last()), byte_len(strip_sgr(ls.last())))
    }
}

/// The width that a row needs inside a box of inner width `inner`.
pub open spec fn measure(label: Seq<char>, line: Seq<char>, inner: nat) -> nat {
    let lwc = label_field(label, inner);
    byte_len(lwc) + byte_len(trunc(line, sat_sub(inner, byte_len(lwc))))
}

pub open spec fn measure_lines(label: Seq<char>, ls: Seq<Seq<char>>, inner: nat) -> nat
    decreases ls.len(),
{
    if ls.len() == 0 {
        0
    } else {
        max_nat(measure_lines(label, ls.drop_last(), inner), measure(label, ls.last(), inner))
    }
}

/// The widest row that the pairs need; every line of a value is measured with
/// the pair's label.
pub open spec fn measure_pairs(ps: Seq<(Seq<char>, Seq<char>)>, inner: nat) -> nat
    decreases ps.len(),
{
    if ps.len() == 0 {
        0
    } else {
        max_nat(
            measure_pairs(ps.drop_last(), inner),
            measure_lines(ps.last().0, lines_of(ps.last().1), inner),
        )
    }
}

/// The terminal width, at least 40.
pub open spec fn clamp_term(tw: nat) -> nat {
    if tw < 40 {
        40
    } else {
        tw
    }
}

/// The gap between logo and box: 4 columns, fewer when the logo fills the
/// terminal.
pub open spec fn gap_of(tw: nat, lw: nat) -> nat {
    if tw <= lw + 4 {
        sat_sub(tw, lw)
    } else {
        4
    }
}

/// The columns left for the box, at least 4.
pub open spec fn avail_of(tw: nat, lw: nat, gap: nat) -> nat {
    let a = sat_sub(tw, lw + gap);
    if a < 4 {
        4
    } else {
        a
    }
}

/// The box width: its widest row plus 2 columns of padding and the borders,
/// within the columns left for it.
pub open spec fn box_width_of(aiw: nat, title: Seq<char>, ps: Seq<(Seq<char>, Seq<char>)>) -> nat {
    let inner = sat_sub(aiw, 4);
    let m0 = max_nat(byte_len(trunc(title, inner)), measure_pairs(ps, inner));
    let m1 = if m0 > inner {
        inner
    } else {
        m0
    };
    let mc = if m1 + 2 <= inner {
        m1 + 2
    } else {
        inner
    };
    let b0 = mc + 4;
    let b1 = if b0 > aiw {
        aiw
    } else {
        b0
    };
    if b1 < 4 {
        4
    } else {
        b1
    }
}

/// An outline row: the corner `l`, the horizontal line, the corner `r`.
pub open spec fn outline_spec(v: ColorSystemView, l: char, r: char, bw: nat) -> Seq<char> {
    border_line_spec(v, seq![l] + repeat_char('─', sat_sub(bw, 2)) + seq![r])
}

/// The rows of one pair: one per line of the value, the label on the first.
pub open spec fn pair_rows(label: Seq<char>, ls: Seq<Seq<char>>, bw: nat, v: ColorSystemView) -> Seq<
    Seq<char>,
> {
    Seq::new(
        ls.len(),
        |i: int|
            box_line_spec(
                if i == 0 {
                    label
                } else {
                    Seq::empty()
                },
                ls[i],
                bw,
                v,
            ),
    )
}

pub open spec fn all_rows(ps: Seq<(Seq<char>, Seq<char>)>, bw: nat, v: ColorSystemView) -> Seq<
    Seq<char>,
>
    decreases ps.len(),
{
    if ps.len() == 0 {
        Seq::empty()
    } else {
        all_rows(ps.drop_last(), bw, v) + pair_rows(ps.last().0, lines_of(ps.last().1), bw, v)
    }
}

/// The box: top outline, title, separator, the rows, bottom outline.
pub open spec fn info_lines_spec(
    ps: Seq<(Seq<char>, Seq<char>)>,
    title: Seq<char>,
    bw: nat,
    v: ColorSystemView,
) -> Seq<Seq<char>> {
    seq![outline_spec(v, '┌', '┐', bw), title_line_spec(title, bw, v), outline_spec(v, '├', '┤', bw)]
        + all_rows(ps, bw, v) + seq![outline_spec(v, '└', '┘', bw)]
}

/// One printed row: the left margin, the logo line padded to the logo width, the
/// gap, and the box line (or blanks), then a reset when colors are on.
pub open spec fn output_row(
    lp: Seq<char>,
    ip: Seq<char>,
    pad: nat,
    lw: nat,
    gap: nat,
    bw: nat,
    v: ColorSystemView,
) -> Seq<char> {
    spaces(pad) + lp + spaces(sat_sub(lw, byte_len(strip_sgr(lp)))) + (if ip.len() > 0 {
        spaces(gap) + ip
    } else {
        spaces(gap) + spaces(bw)
    }) + (if v.enabled {
        reset_of(v)
    } else {
        Seq::empty()
    })
}

/// The numbers of the layout: logo width, gap, box width and left margin.
pub open spec fn layout_numbers(
    ll: Seq<Seq<char>>,
    ps: Seq<(Seq<char>, Seq<char>)>,
    title: Seq<char>,
    term_width: nat,
) -> (nat, nat, nat, nat) {
    let lw = logo_width_of(ll);
    let tw = clamp_term(term_width);
    let gap = gap_of(tw, lw);
    let aiw = avail_of(tw, lw, gap);
    let bw = box_width_of(aiw, title, ps);
    let total = lw + gap + bw;
    let pad: nat = if tw > total {
        ((tw - total) / 2) as nat
    } else {
        0
    };
    (lw, gap, bw, pad)
}

/// Every printed row: a blank row, logo and box side by side, a blank row.
pub open spec fn render_spec(
    logo: Seq<char>,
    ps: Seq<(Seq<char>, Seq<char>)>,
    title: Seq<char>,
    term_width: nat,
    v: ColorSystemView,
) -> Seq<Seq<char>> {
    let ll = lines_of(logo);
    let (lw, gap, bw, pad) = layout_numbers(ll, ps, title, term_width);
    let il = info_lines_spec(ps, title, bw, v);
    let blank = spaces(pad) + (if lw > 0 {
        spaces(lw)
    } else {
        Seq::empty()
    }) + spaces(gap) + spaces(bw);
    let n = max_nat(ll.len(), il.len());
    seq![blank] + Seq::new(
        n,
        |i: int|
            output_row(
                if i < ll.len() {
                    ll[i]
                } else {
                    Seq::empty()
                },
                if i < il.len() {
                    il[i]
                } else {
                    Seq::empty()
                },
                pad,
                lw,
                gap,
                bw,
                v,
            ),
    ) + seq![blank]
}

fn measure_exec(label: &Vec<char>, line: &Vec<char>, inner: u128) -> (r: u128)
    ensures
        r == measure(label@, line@, inner as nat),
        r <= 48 + 4 * line@.len(),
{
    let lwc = label_field_chars(label, inner);
    let n = byte_length(&lwc);
    let tv = trunc_chars(line, sub_or_zero(inner, n));
    proof {
        lemma_label_field_short(label@, inner as nat);
        lemma_byte_len_bound(lwc@);
        lemma_byte_len_bound(tv@);
        assert(tv@.len() <= line@.len());
        assert(line.len() <= usize::MAX);
    }
    n + byte_length(&tv)
}

fn logo_width_exec(ll: &Vec<Vec<char>>) -> (r: u128)
    ensures
        r == logo_width_of(views(ll@)),
        r <= 4 * 0x1_0000_0000_0000_0000,
{
    let ghost lv = views(ll@);
    let mut w: u128 = 0;
    let mut i: usize = 0;
    while i < ll.len()
        invariant
            i <= ll.len(),
            lv == views(ll@),
            w == logo_width_of(lv.take(i as int)),
            w <= 4 * 0x1_0000_0000_0000_0000,
        decreases ll.len() - i,
    {
        assert(lv.take(i + 1).drop_last() == lv.take(i as int));
        assert(lv.take(i + 1).last() == ll@[i as int]@);
        let s = string_of(&ll[i]);
        let vw = visible_width(s.as_str());
        proof {
            lemma_strip_sgr_shorter(ll@[i as int]@, 0);
            lemma_byte_len_bound(strip_sgr(ll@[i as int]@));
            assert(ll[i as int].len() <= usize::MAX);
        }
        if vw > w {
            w = vw;
        }
        i = i + 1;
    }
    assert(lv.take(ll.len() as int) == lv);
    w
}

proof fn lemma_strip_sgr_shorter(s: Seq<char>, i: int)
    requires
        0 <= i,
    ensures
        strip_sgr_from(s, i).len() <= s.len(),
        i <= s.len() ==> strip_sgr_from(s, i).len() <= s.len() - i,
    decreases s.len() - i,
{
    if i < s.len() {
        match sgr_match_end(s, i) {
            Some(e) => if e > i {
                lemma_strip_sgr_shorter(s, e);
            },
            None => {
                lemma_strip_sgr_shorter(s, i + 1);
            },
        }
    }
}

fn measure_all(pairs: &Vec<(String, String)>, inner: u128, title_len: u128) -> (r: u128)
    requires
        title_len <= 4 * 0x1_0000_0000_0000_0000,
    ensures
        r == max_nat(title_len as nat, measure_pairs(pair_views(pairs@), inner as nat)),
{
    let ghost pv = pair_views(pairs@);
    let mut m: u128 = title_len;
    let mut i: usize = 0;
    while i < pairs.len()
        invariant
            i <= pairs.len(),
            pv == pair_views(pairs@),
            m == max_nat(title_len as nat, measure_pairs(pv.take(i as int), inner as nat)),
            m <= 8 * 0x1_0000_0000_0000_0000,
        decreases pairs.len() - i,
    {
        assert(pv.take(i + 1).drop_last() == pv.take(i as int));
        assert(pv.take(i + 1).last() == pv[i as int]);
        let label = chars_of(pairs[i].0.as_str());
        let ls = lines(&chars_of(pairs[i].1.as_str()));
        let ghost lv = views(ls@);
        let ghost before = m;
        let mut j: usize = 0;
        while j < ls.len()
            invariant
                j <= ls.len(),
                lv == views(ls@),
                m == max_nat(before as nat, measure_lines(label@, lv.take(j as int), inner as nat)),
                before <= 8 * 0x1_0000_0000_0000_0000,
                m <= 8 * 0x1_0000_0000_0000_0000,
            decreases ls.len() - j,
        {
            assert(lv.take(j + 1).drop_last() == lv.take(j as int));
            assert(lv.take(j + 1).last() == ls@[j as int]@);
            let x = measure_exec(&label, &ls[j], inner);
            proof {
                assert(ls[j as int].len() <= usize::MAX);
            }
            if x > m {
                m = x;
            }
            j = j + 1;
        }
        assert(lv.take(ls.len() as int) == lv);
        i = i + 1;
    }
    assert(pv.take(pairs.len() as int) == pv);
    m
}

proof fn lemma_label_field_short(label: Seq<char>, cw: nat)
    ensures
        label_field(label, cw).len() <= 12,
{
    let law: nat = if 12 > cw {
        cw
    } else {
        12
    };
    let colon: nat = if law >= 2 {
        2
    } else {
        law
    };
    let elw = sat_sub(law, colon);
    let tl = trunc(label, elw);
    assert(tl.len() <= elw);
    let base = if elw > 0 {
        tl + spaces(sat_sub(elw, tl.len()))
    } else {
        Seq::empty()
    };
    assert(base.len() <= elw);
    assert(elw + colon <= 12);
    reveal_strlit(": ");
    reveal_strlit(":");
}

fn outline_exec(colors: &ColorSystem, l: char, r: char, bw: u128) -> (out: String)
    requires
        bw >= 4,
    ensures
        out@ == outline_spec(colors@, l, r, bw as nat),
{
    let mut line = vec![l];
    push_repeat(&mut line, '─', bw - 2);
    line.push(r);
    color_border_line(string_of(&line), colors)
}

/// Every row of the output: the colored logo and the information box side by side
/// for a terminal `term_width` columns wide, between two blank rows.
#[verifier::rlimit(60)]
pub fn render_output(
    logo: &str,
    pairs: &Vec<(String, String)>,
    title: &str,
    term_width: usize,
    colors: &ColorSystem,
) -> (r: Vec<String>)
    ensures
        string_seq_views(r@) == render_spec(logo@, pair_views(pairs@), title@, term_width as nat, colors@),
{
    let ghost pv = pair_views(pairs@);
    let ll = lines(&chars_of(logo));
    let ghost llv = views(ll@);
    let lw = logo_width_exec(&ll);
    let tw: u128 = if term_width < 40 {
        40
    } else {
        term_width as u128
    };
    let gap: u128 = if tw <= lw + 4 {
        sub_or_zero(tw, lw)
    } else {
        4
    };
    let a0 = sub_or_zero(tw, lw + gap);
    let aiw: u128 = if a0 < 4 {
        4
    } else {
        a0
    };
    let inner = sub_or_zero(aiw, 4);
    let title_chars = chars_of(title);
    let tt = trunc_chars(&title_chars, inner);
    proof {
        lemma_byte_len_bound(tt@);
    }
    let m0 = measure_all(pairs, inner, byte_length(&tt));
    let m1 = if m0 > inner {
        inner
    } else {
        m0
    };
    let mc = if m1 + 2 <= inner {
        m1 + 2
    } else {
        inner
    };
    let b0 = mc + 4;
    let b1 = if b0 > aiw {
        aiw
    } else {
        b0
    };
    let bw: u128 = if b1 < 4 {
        4
    } else {
        b1
    };
    assert(bw <= tw);
    let total = lw + gap + bw;
    let pad: u128 = if tw > total {
        (tw - total) / 2
    } else {
        0
    };
    let ghost nums = layout_numbers(llv, pv, title@, term_width as nat);
    assert(nums == (lw as nat, gap as nat, bw as nat, pad as nat));
    let bwu = bw as usize;
    assert(bwu as nat == bw as nat);
    // the box
    let mut info: Vec<String> = Vec::new();
    info.push(outline_exec(colors, '┌', '┐', bw));
    info.push(pad_box_title(title, bwu, colors));
    info.push(outline_exec(colors, '├', '┤', bw));
    let ghost head = string_seq_views(info@);
    assert(head == seq![
        outline_spec(colors@, '┌', '┐', bw as nat),
        title_line_spec(title@, bw as nat, colors@),
        outline_spec(colors@, '├', '┤', bw as nat),
    ]);
    let mut i: usize = 0;
    assert(pv.take(0) == Seq::<(Seq<char>, Seq<char>)>::empty());
    while i < pairs.len()
        invariant
            i <= pairs.len(),
            pv == pair_views(pairs@),
            bwu as nat == bw as nat,
            string_seq_views(info@) == head + all_rows(pv.take(i as int), bw as nat, colors@),
        decreases pairs.len() - i,
    {
        assert(pv.take(i + 1).drop_last() == pv.take(i as int));
        assert(pv.take(i + 1).last() == pv[i as int]);
        let ls = lines(&chars_of(pairs[i].1.as_str()));
        let ghost lv = views(ls@);
        let ghost label = pv[i as int].0;
        assert(lv == lines_of(pv[i as int].1));
        let ghost before = string_seq_views(info@);
        let mut j: usize = 0;
        while j < ls.len()
            invariant
                j <= ls.len(),
                i < pairs.len(),
                pv == pair_views(pairs@),
                lv == views(ls@),
                label == pairs@[i as int].0@,
                bwu as nat == bw as nat,
                string_seq_views(info@) == before + pair_rows(label, lv, bw as nat, colors@).take(j as int),
            decreases ls.len() - j,
        {
            let line = string_of(&ls[j]);
            let row = if j == 0 {
                pad_box_line(pairs[i].0.as_str(), line.as_str(), bwu, colors)
            } else {
                pad_box_line("", line.as_str(), bwu, colors)
            };
            proof {
                reveal_strlit("");
            }
            let ghost prev = info@;
            info.push(row);
            assert(string_seq_views(info@) == string_seq_views(prev).push(row@));
            assert(pair_rows(label, lv, bw as nat, colors@).take(j + 1) == pair_rows(
                label,
                lv,
                bw as nat,
                colors@,
            ).take(j as int).push(row@));
            j = j + 1;
        }
        assert(pair_rows(label, lv, bw as nat, colors@).take(ls.len() as int) == pair_rows(
            label,
            lv,
            bw as nat,
            colors@,
        ));
        i = i + 1;
    }
    assert(pv.take(pairs.len() as int) == pv);
    info.push(outline_exec(colors, '└', '┘', bw));
    let ghost il = info_lines_spec(pv, title@, bw as nat, colors@);
    assert(string_seq_views(info@) == il);
    // the rows
    let mut blank: Vec<char> = Vec::new();
    push_spaces(&mut blank, pad);
    if lw > 0 {
        push_spaces(&mut blank, lw);
    } else {
        assert(blank@ + Seq::<char>::empty() == blank@);
    }
    push_spaces(&mut blank, gap);
    push_spaces(&mut blank, bw);
    let blank_s = string_of(&blank);
    let mut out: Vec<String> = Vec::new();
    out.push(blank_s.clone());
    let n: usize = if ll.len() >= info.len() {
        ll.len()
    } else {
        info.len()
    };
    let ghost rows = Seq::new(
        n as nat,
        |k: int|
            output_row(
                if k < llv.len() {
                    llv[k]
                } else {
                    Seq::empty()
                },
                if k < il.len() {
                    il[k]
                } else {
                    Seq::empty()
                },
                pad as nat,
                lw as nat,
                gap as nat,
                bw as nat,
                colors@,
            ),
    );
    let mut k: usize = 0;
    while k < n
        invariant
            k <= n,
            n == max_nat(llv.len(), il.len()),
            llv == views(ll@),
            il == string_seq_views(info@),
            string_seq_views(out@) == seq![blank_s@] + rows.take(k as int),
            rows == Seq::new(
                n as nat,
                |k: int|
                    output_row(
                        if k < llv.len() {
                            llv[k]
                        } else {
                            Seq::empty()
                        },
                        if k < il.len() {
                            il[k]
                        } else {
                            Seq::empty()
                        },
                        pad as nat,
                        lw as nat,
                        gap as nat,
                        bw as nat,
                        colors@,
                    ),
            ),
        decreases n - k,
    {
        let lp: Vec<char> = if k < ll.len() {
            ll[k].clone()
        } else {
            Vec::new()
        };
        let ip: Vec<char> = if k < info.len() {
            chars_of(info[k].as_str())
        } else {
            Vec::new()
        };
        let mut row = Vec::new();
        push_spaces(&mut row, pad);
        extend_chars(&mut row, &lp);
        let lps = string_of(&lp);
        let vis = visible_width(lps.as_str());
        push_spaces(&mut row, sub_or_zero(lw, vis));
        push_spaces(&mut row, gap);
        if ip.len() > 0 {
            extend_chars(&mut row, &ip);
        } else {
            push_spaces(&mut row, bw);
        }
        if colors.enabled() {
            extend_str(&mut row, colors.reset());
        } else {
            assert(row@ + Seq::<char>::empty() == row@);
        }
        let ghost before = out@;
        let rs = string_of(&row);
        out.push(rs);
        assert(string_seq_views(out@) == string_seq_views(before).push(rs@));
        assert(rows.take(k + 1) == rows.take(k as int).push(rows[k as int]));
        assert(rs@ == rows[k as int]);
        k = k + 1;
    }
    assert(rows.take(n as int) == rows);
    let ghost before = out@;
    out.push(blank_s);
    assert(string_seq_views(out@) == string_seq_views(before).push(blank_s@));
    out
}


// ---------------------------------------------------------------------------
// The box is a rectangle
// ---------------------------------------------------------------------------

/// Text of ASCII characters only, whose bytes and characters agree.
pub open spec fn is_ascii_text(s: Seq<char>) -> bool {
    forall|i: int| 0 <= i < s.len() ==> (#[trigger] s[i] as u32) < 0x80
}

proof fn lemma_ascii_byte_len(s: Seq<char>)
    requires
        is_ascii_text(s),
    ensures
        byte_len(s) == s.len(),
    decreases s.len(),
{
    if s.len() > 0 {
        assert(is_ascii_text(s.drop_last())) by {
            assert forall|i: int| 0 <= i < s.drop_last().len() implies (#[trigger] s.drop_last()[i] as u32)
                < 0x80 by {
                assert(s.drop_last()[i] == s[i]);
            }
        }
        lemma_ascii_byte_len(s.drop_last());
        assert((s.last() as u32) < 0x80) by {
            assert(s.last() == s[s.len() - 1]);
        }
        assert(utf8_width(s.last()) == 1);
    }
}

proof fn lemma_label_field_ascii(label: Seq<char>, cw: nat)
    requires
        is_ascii_text(label),
    ensures
        is_ascii_text(label_field(label, cw)),
        label_field(label, cw).len() == (if 12 > cw {
            cw
        } else {
            12
        }),
{
    reveal_strlit(": ");
    reveal_strlit(":");
    let law: nat = if 12 > cw {
        cw
    } else {
        12
    };
    let colon: nat = if law >= 2 {
        2
    } else {
        law
    };
    let elw = sat_sub(law, colon);
    let tl = trunc(label, elw);
    assert(is_ascii_text(tl)) by {
        assert forall|i: int| 0 <= i < tl.len() implies (#[trigger] tl[i] as u32) < 0x80 by {
            assert(tl[i] == label[i]);
        }
    }
    let base = if elw > 0 {
        tl + spaces(sat_sub(elw, tl.len()))
    } else {
        Seq::empty()
    };
    assert(base.len() == elw);
    assert(is_ascii_text(base)) by {
        assert forall|i: int| 0 <= i < base.len() implies (#[trigger] base[i] as u32) < 0x80 by {
            if i < tl.len() {
                assert(base[i] == tl[i]);
            } else {
                assert(base[i] == ' ');
            }
        }
    }
    let f = label_field(label, cw);
    assert forall|i: int| 0 <= i < f.len() implies (#[trigger] f[i] as u32) < 0x80 by {
        if i < base.len() {
            assert(f[i] == base[i]);
        }
    }
}

/// With colors off, a row of ASCII text in a box `bw` columns wide is exactly `bw`
/// characters long.
pub proof fn lemma_box_line_width(label: Seq<char>, value: Seq<char>, bw: nat, v: ColorSystemView)
    requires
        !v.enabled,
        bw >= 4,
        is_ascii_text(label),
        is_ascii_text(value),
    ensures
        box_line_spec(label, value, bw, v).len() == bw,
{
    reveal_strlit("  ");
    let cw = sat_sub(bw, 4);
    let lwc = label_field(label, cw);
    lemma_label_field_ascii(label, cw);
    lemma_ascii_byte_len(lwc);
    let avail = sat_sub(cw, byte_len(lwc));
    let tv = trunc(value, avail);
    assert(is_ascii_text(tv)) by {
        assert forall|i: int| 0 <= i < tv.len() implies (#[trigger] tv[i] as u32) < 0x80 by {
            assert(tv[i] == value[i]);
        }
    }
    lemma_ascii_byte_len(tv);
    assert(tv.len() <= avail);
}

/// With colors off, the title row of an ASCII title is exactly `bw` characters
/// long.
pub proof fn lemma_title_line_width(title: Seq<char>, bw: nat, v: ColorSystemView)
    requires
        !v.enabled,
        bw >= 4,
        is_ascii_text(title),
    ensures
        title_line_spec(title, bw, v).len() == bw,
{
    reveal_strlit("  ");
    let cw = sat_sub(bw, 4);
    let tt = trunc(title, cw);
    assert(is_ascii_text(tt)) by {
        assert forall|i: int| 0 <= i < tt.len() implies (#[trigger] tt[i] as u32) < 0x80 by {
            assert(tt[i] == title[i]);
        }
    }
    lemma_ascii_byte_len(tt);
}

/// An outline row is exactly `bw` characters long when colors are off.
pub proof fn lemma_outline_width(v: ColorSystemView, l: char, r: char, bw: nat)
    requires
        !v.enabled,
        bw >= 2,
    ensures
        outline_spec(v, l, r, bw).len() == bw,
{
}

proof fn lemma_split_pieces_ascii(s: Seq<char>, k: Sep)
    requires
        is_ascii_text(s),
    ensures
        forall|i: int| 0 <= i < split_pieces(s, k).len() ==> is_ascii_text(#[trigger] split_pieces(s, k)[i]),
    decreases s.len(),
{
    if s.len() > 0 {
        let d = s.drop_last();
        assert(is_ascii_text(d)) by {
            assert forall|i: int| 0 <= i < d.len() implies (#[trigger] d[i] as u32) < 0x80 by {
                assert(d[i] == s[i]);
            }
        }
        lemma_split_pieces_ascii(d, k);
        crate::text::lemma_split_pieces_nonempty(d, k);
        let p = split_pieces(d, k);
        assert((s.last() as u32) < 0x80) by {
            assert(s.last() == s[s.len() - 1]);
        }
        let q = split_pieces(s, k);
        assert forall|i: int| 0 <= i < q.len() implies is_ascii_text(#[trigger] q[i]) by {
            if i < p.len() - 1 {
                assert(q[i] == p[i]);
            } else if i == p.len() - 1 {
                let last = q[i];
                assert forall|j: int| 0 <= j < last.len() implies (#[trigger] last[j] as u32) < 0x80 by {
                    if !crate::text::is_sep(k, s.last()) {
                        assert(last == p.last().push(s.last()));
                        if j < p.last().len() {
                            assert(last[j] == p.last()[j]);
                            assert(is_ascii_text(p[p.len() - 1]));
                        }
                    } else {
                        assert(last == p[i]);
                    }
                }
            } else {
                assert(q[i] == Seq::<char>::empty());
            }
        }
    }
}

/// Every line of ASCII text is ASCII.
pub proof fn lemma_lines_ascii(s: Seq<char>)
    requires
        is_ascii_text(s),
    ensures
        forall|i: int| 0 <= i < lines_of(s).len() ==> is_ascii_text(#[trigger] lines_of(s)[i]),
{
    lemma_split_pieces_ascii(s, Sep::Char('\n'));
    let raw = split_pieces(s, Sep::Char('\n'));
    let ls = lines_of(s);
    assert forall|i: int| 0 <= i < ls.len() implies is_ascii_text(#[trigger] ls[i]) by {
        let p = raw[i];
        assert(is_ascii_text(p));
        let t = strip_cr(p);
        assert(is_ascii_text(t)) by {
            assert forall|j: int| 0 <= j < t.len() implies (#[trigger] t[j] as u32) < 0x80 by {
                assert(t[j] == p[j]);
            }
        }
    }
}

/// Pairs whose labels and values are all ASCII.
pub open spec fn ascii_pairs(ps: Seq<(Seq<char>, Seq<char>)>) -> bool {
    forall|i: int| 0 <= i < ps.len() ==> is_ascii_text(#[trigger] ps[i].0) && is_ascii_text(ps[i].1)
}

proof fn lemma_all_rows_width(ps: Seq<(Seq<char>, Seq<char>)>, bw: nat, v: ColorSystemView)
    requires
        !v.enabled,
        bw >= 4,
        ascii_pairs(ps),
    ensures
        forall|i: int| 0 <= i < all_rows(ps, bw, v).len() ==> (#[trigger] all_rows(ps, bw, v)[i]).len() == bw,
    decreases ps.len(),
{
    if ps.len() > 0 {
        let d = ps.drop_last();
        assert(ascii_pairs(d)) by {
            assert forall|i: int| 0 <= i < d.len() implies is_ascii_text(#[trigger] d[i].0) && is_ascii_text(d[i].1) by {
                assert(d[i] == ps[i]);
            }
        }
        lemma_all_rows_width(d, bw, v);
        let last = ps.last();
        assert(is_ascii_text(last.0) && is_ascii_text(last.1)) by {
            assert(last == ps[ps.len() - 1]);
        }
        lemma_lines_ascii(last.1);
        let ls = lines_of(last.1);
        let pr = pair_rows(last.0, ls, bw, v);
        assert forall|j: int| 0 <= j < pr.len() implies (#[trigger] pr[j]).len() == bw by {
            let label = if j == 0 {
                last.0
            } else {
                Seq::<char>::empty()
            };
            assert(is_ascii_text(label));
            assert(is_ascii_text(ls[j]));
            lemma_box_line_width(label, ls[j], bw, v);
        }
        let a = all_rows(d, bw, v);
        let whole = all_rows(ps, bw, v);
        assert(whole == a + pr);
        assert forall|i: int| 0 <= i < whole.len() implies (#[trigger] whole[i]).len() == bw by {
            if i < a.len() {
                assert(whole[i] == a[i]);
            } else {
                assert(whole[i] == pr[i - a.len()]);
            }
        }
    }
}

/// With colors off and ASCII text, the box is a rectangle: every one of its rows
/// (outlines, title and information rows) is exactly `bw` characters long.
pub proof fn lemma_box_is_rectangular(
    ps: Seq<(Seq<char>, Seq<char>)>,
    title: Seq<char>,
    bw: nat,
    v: ColorSystemView,
)
    requires
        !v.enabled,
        bw >= 4,
        is_ascii_text(title),
        ascii_pairs(ps),
    ensures
        forall|i: int|
            0 <= i < info_lines_spec(ps, title, bw, v).len() ==> (#[trigger] info_lines_spec(
                ps,
                title,
                bw,
                v,
            )[i]).len() == bw,
{
    lemma_all_rows_width(ps, bw, v);
    lemma_title_line_width(title, bw, v);
    lemma_outline_width(v, '┌', '┐', bw);
    lemma_outline_width(v, '├', '┤', bw);
    lemma_outline_width(v, '└', '┘', bw);
    let head = seq![outline_spec(v, '┌', '┐', bw), title_line_spec(title, bw, v), outline_spec(v, '├', '┤', bw)];
    let rows = all_rows(ps, bw, v);
    let tail = seq![outline_spec(v, '└', '┘', bw)];
    let il = info_lines_spec(ps, title, bw, v);
    assert(il == head + rows + tail);
    assert forall|i: int| 0 <= i < il.len() implies (#[trigger] il[i]).len() == bw by {
        if i < 3 {
            assert(il[i] == head[i]);
        } else if i < 3 + rows.len() {
            assert(il[i] == rows[i - 3]);
        } else {
            assert(il[i] == tail[i - 3 - rows.len()]);
        }
    }
}


/// The width a line takes on screen: its bytes without color sequences.
pub open spec fn shown_width(s: Seq<char>) -> nat {
    byte_len(strip_sgr(s))
}

proof fn lemma_logo_width_bounds(ll: Seq<Seq<char>>)
    ensures
        forall|j: int| 0 <= j < ll.len() ==> shown_width(#[trigger] ll[j]) <= logo_width_of(ll),
        ll.len() > 0 ==> exists|j: int| 0 <= j < ll.len() && shown_width(#[trigger] ll[j]) == logo_width_of(ll),
    decreases ll.len(),
{
    if ll.len() > 0 {
        let p = ll.drop_last();
        lemma_logo_width_bounds(p);
        assert forall|j: int| 0 <= j < ll.len() implies shown_width(#[trigger] ll[j]) <= logo_width_of(ll) by {
            if j < p.len() {
                assert(ll[j] == p[j]);
            }
        }
        if shown_width(ll.last()) >= logo_width_of(p) {
            assert(shown_width(ll[ll.len() - 1]) == logo_width_of(ll));
        } else {
            let j = choose|j: int| 0 <= j < p.len() && shown_width(#[trigger] p[j]) == logo_width_of(p);
            assert(ll[j] == p[j]);
        }
    }
}

/// The logo width is that of the widest logo line on screen (color sequences do
/// not count).
pub proof fn lemma_logo_width_is_widest(
    logo: Seq<char>,
    ps: Seq<(Seq<char>, Seq<char>)>,
    title: Seq<char>,
    term_width: nat,
)
    ensures
        ({
            let ll = lines_of(logo);
            let lw = layout_numbers(ll, ps, title, term_width).0;
            &&& forall|j: int| 0 <= j < ll.len() ==> shown_width(#[trigger] ll[j]) <= lw
            &&& ll.len() > 0 ==> exists|j: int| 0 <= j < ll.len() && shown_width(#[trigger] ll[j]) == lw
            &&& ll.len() == 0 ==> lw == 0
        }),
{
    lemma_logo_width_bounds(lines_of(logo));
}

/// Logo and box side by side, the box always in the same column: each printed row
/// between the two blank ones is the left margin, the row's logo line (none once
/// the logo has ended), `k` blanks, the row's box line (blanks once the box has
/// ended) and a reset when colors are on, where the logo line's width on screen
/// (color sequences do not count) and the `k` blanks make exactly the logo width
/// and the gap.
pub proof fn lemma_box_column_aligned(
    logo: Seq<char>,
    ps: Seq<(Seq<char>, Seq<char>)>,
    title: Seq<char>,
    term_width: nat,
    v: ColorSystemView,
    j: int,
)
    requires
        0 <= j,
        j + 2 < render_spec(logo, ps, title, term_width, v).len(),
    ensures
        ({
            let ll = lines_of(logo);
            let (lw, gap, bw, pad) = layout_numbers(ll, ps, title, term_width);
            let il = info_lines_spec(ps, title, bw, v);
            let lp = if j < ll.len() {
                ll[j]
            } else {
                Seq::<char>::empty()
            };
            let bx = if j < il.len() && il[j].len() > 0 {
                il[j]
            } else {
                spaces(bw)
            };
            let end = if v.enabled {
                reset_of(v)
            } else {
                Seq::<char>::empty()
            };
            &&& j < ll.len() || j < il.len()
            &&& shown_width(lp) <= lw
            &&& exists|k: nat|
                #![trigger spaces(k)]
                shown_width(lp) + k == lw + gap && render_spec(logo, ps, title, term_width, v)[j + 1]
                    == spaces(pad) + lp + spaces(k) + bx + end
        }),
{
    let ll = lines_of(logo);
    let nums = layout_numbers(ll, ps, title, term_width);
    let lw = nums.0;
    let gap = nums.1;
    let bw = nums.2;
    let pad = nums.3;
    let il = info_lines_spec(ps, title, bw, v);
    let lp = if j < ll.len() {
        ll[j]
    } else {
        Seq::<char>::empty()
    };
    let ip = if j < il.len() {
        il[j]
    } else {
        Seq::<char>::empty()
    };
    lemma_render_row(logo, ps, title, term_width, v, j);
    lemma_logo_width_bounds(ll);
    if j >= ll.len() {
        assert(strip_sgr(lp) =~= Seq::<char>::empty());
    }
    let k = lemma_output_row_shape(lp, ip, pad, lw, gap, bw, v);
}

/// Row `j + 1` of the rendering is the output row of logo line `j` and box line `j`.
proof fn lemma_render_row(
    logo: Seq<char>,
    ps: Seq<(Seq<char>, Seq<char>)>,
    title: Seq<char>,
    term_width: nat,
    v: ColorSystemView,
    j: int,
)
    requires
        0 <= j,
        j + 2 < render_spec(logo, ps, title, term_width, v).len(),
    ensures
        ({
            let ll = lines_of(logo);
            let (lw, gap, bw, pad) = layout_numbers(ll, ps, title, term_width);
            let il = info_lines_spec(ps, title, bw, v);
            &&& j < ll.len() || j < il.len()
            &&& render_spec(logo, ps, title, term_width, v)[j + 1] == output_row(
                if j < ll.len() {
                    ll[j]
                } else {
                    Seq::<char>::empty()
                },
                if j < il.len() {
                    il[j]
                } else {
                    Seq::<char>::empty()
                },
                pad,
                lw,
                gap,
                bw,
                v,
            )
        }),
{
}

/// An output row is the margin, the logo line, the blanks up to the box column,
/// the box line (or blanks) and the reset.
proof fn lemma_output_row_shape(
    lp: Seq<char>,
    ip: Seq<char>,
    pad: nat,
    lw: nat,
    gap: nat,
    bw: nat,
    v: ColorSystemView,
) -> (k: nat)
    requires
        shown_width(lp) <= lw,
    ensures
        shown_width(lp) + k == lw + gap,
        output_row(lp, ip, pad, lw, gap, bw, v) == spaces(pad) + lp + spaces(k) + (if ip.len() > 0 {
            ip
        } else {
            spaces(bw)
        }) + (if v.enabled {
            reset_of(v)
        } else {
            Seq::<char>::empty()
        }),
{
    let w = shown_width(lp);
    let k: nat = (lw - w + gap) as nat;
    let bx = if ip.len() > 0 {
        ip
    } else {
        spaces(bw)
    };
    let end = if v.enabled {
        reset_of(v)
    } else {
        Seq::<char>::empty()
    };
    assert(sat_sub(lw, byte_len(strip_sgr(lp))) == lw - w);
    assert(spaces(sat_sub(lw, w)) + spaces(gap) =~= spaces(k));
    assert(spaces(sat_sub(lw, w)) + (spaces(gap) + bx) =~= spaces(k) + bx);
    assert(output_row(lp, ip, pad, lw, gap, bw, v) =~= spaces(pad) + lp + spaces(k) + bx + end);
    k
}

/// The layout is centered: the gap between logo and box is 4 columns when the
/// terminal (at least 40 columns) has room for it, and the left margin is half of
/// what the logo, gap and box leave of the terminal (rounded down), none when they
/// fill it. The rendering opens and closes with a blank row as wide as margin,
/// logo, gap and box, and has one row for each logo line or box line between them.
pub proof fn lemma_layout_centered(
    logo: Seq<char>,
    ps: Seq<(Seq<char>, Seq<char>)>,
    title: Seq<char>,
    term_width: nat,
    v: ColorSystemView,
)
    ensures
        ({
            let ll = lines_of(logo);
            let (lw, gap, bw, pad) = layout_numbers(ll, ps, title, term_width);
            let tw = if term_width < 40 {
                40
            } else {
                term_width
            };
            let il = info_lines_spec(ps, title, bw, v);
            let r = render_spec(logo, ps, title, term_width, v);
            &&& (lw + 4 < tw ==> gap == 4)
            &&& (lw + 4 >= tw ==> lw + gap == if lw > tw { lw } else { tw })
            &&& (lw + gap + bw < tw ==> tw - 1 <= 2 * pad + lw + gap + bw <= tw)
            &&& (lw + gap + bw >= tw ==> pad == 0)
            &&& r.len() == 2 + if ll.len() > il.len() { ll.len() } else { il.len() }
            &&& r[0] == spaces(pad + lw + gap + bw)
            &&& r[r.len() - 1] == spaces(pad + lw + gap + bw)
        }),
{
    let ll = lines_of(logo);
    let (lw, gap, bw, pad) = layout_numbers(ll, ps, title, term_width);
    let blank = spaces(pad) + (if lw > 0 {
        spaces(lw)
    } else {
        Seq::empty()
    }) + spaces(gap) + spaces(bw);
    assert(blank =~= spaces(pad + lw + gap + bw));
}

/// The layout fits the terminal (at least 40 columns) whenever the logo leaves
/// room for a box of the minimum width: margin, logo, gap and box together take no
/// more columns than the terminal has, and the box is never narrower than 4.
pub proof fn lemma_layout_fits(
    ll: Seq<Seq<char>>,
    ps: Seq<(Seq<char>, Seq<char>)>,
    title: Seq<char>,
    term_width: nat,
)
    ensures
        ({
            let (lw, gap, bw, pad) = layout_numbers(ll, ps, title, term_width);
            &&& bw >= 4
            &&& (lw + 8 <= clamp_term(term_width) ==> pad + lw + gap + bw <= clamp_term(
                term_width,
            ))
        }),
{
}

} // verus!
