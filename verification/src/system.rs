//! The system summary: GPU names and kinds, uptime, memory and CPU lines, and the
//! assembly of everything that was read into one `SystemInfo`.
use vstd::prelude::*;
use crate::config::{is_shown, shown, Config};
use crate::storage::{format_bytes, format_bytes_spec, format_ghz, ghz_text_spec};
use crate::text::{
    ascii_lower, ascii_lowercase, decimal, eq_str, push_decimal,
    before_first, before_first_str, chars_of, contains_seq, contains_str, extend_chars, extend_str,
    find, find_first, find_last_char, has_prefix, lemma_find_last_char, has_word, join, join_with, lemma_find_first,
    lowercase, lowercase_chars, remove_all, remove_all_str, rfind_char, slice_chars, split_nonempty,
    split_words, starts_with_str, str_to_lowercase, string_of, trim, trim_chars, trim_str, Sep,
    trim_start, trim_end, is_white_space, occurs_at,
};

verus! {

/// Whether a GPU shares the CPU's package or is a card of its own.
#[derive(Clone, Copy, Debug, PartialEq, Eq, Structural)]
pub enum GpuKind {
    Integrated,
    Discrete,
}

impl GpuKind {
    pub open spec fn label_spec(self) -> Seq<char> {
        match self {
            GpuKind::Integrated => "Integrated"@,
            GpuKind::Discrete => "Discrete"@,
        }
    }

    /// The word shown after a GPU's name.
    pub fn label(&self) -> (r: &'static str)
        ensures
            r@ == self.label_spec(),
    {
        match self {
            GpuKind::Integrated => "Integrated",
            GpuKind::Discrete => "Discrete",
        }
    }
}

/// The kind of a GPU, judged from the lower-case form of its name.
pub open spec fn kind_of_lower(l: Seq<char>) -> GpuKind {
    if contains_seq(l, "intel"@) || contains_seq(l, "uhd"@) || contains_seq(l, "iris"@)
        || contains_seq(l, "igpu"@) || contains_seq(l, "applesilicon"@) || contains_seq(
        l,
        "apple m"@,
    ) || contains_seq(l, "apu"@) || contains_seq(l, "integrated"@) || contains_seq(
        l,
        "graphics controller"@,
    ) {
        GpuKind::Integrated
    } else if contains_seq(l, "radeon"@) && (contains_seq(l, "rx"@) || contains_seq(l, "xt"@)
        || contains_seq(l, "pro"@)) {
        GpuKind::Discrete
    } else if contains_seq(l, "radeon"@) && (contains_seq(l, "vega"@) || contains_seq(
        l,
        "graphics"@,
    )) {
        GpuKind::Integrated
    } else if contains_seq(l, "nvidia"@) || contains_seq(l, "geforce"@) || contains_seq(
        l,
        "quadro"@,
    ) || contains_seq(l, "tesla"@) || contains_seq(l, "rtx"@) || contains_seq(l, "gtx"@) {
        GpuKind::Discrete
    } else if contains_seq(l, "apple"@) && (contains_seq(l, "gpu"@) || contains_seq(
        l,
        "graphics"@,
    ) || contains_seq(l, "m1"@)) {
        GpuKind::Integrated
    } else {
        GpuKind::Discrete
    }
}

/// The lower-case name has a word of an integrated GPU: Intel, UHD, Iris, iGPU,
/// Apple silicon or an Apple M chip, APU, integrated, or a graphics controller.
pub open spec fn names_integrated_part(l: Seq<char>) -> bool {
    ||| contains_seq(l, "intel"@)
    ||| contains_seq(l, "uhd"@)
    ||| contains_seq(l, "iris"@)
    ||| contains_seq(l, "igpu"@)
    ||| contains_seq(l, "applesilicon"@)
    ||| contains_seq(l, "apple m"@)
    ||| contains_seq(l, "apu"@)
    ||| contains_seq(l, "integrated"@)
    ||| contains_seq(l, "graphics controller"@)
}

/// The lower-case name marks a Radeon card: `rx`, `xt` or `pro`.
pub open spec fn names_radeon_card(l: Seq<char>) -> bool {
    contains_seq(l, "rx"@) || contains_seq(l, "xt"@) || contains_seq(l, "pro"@)
}

/// How GPUs are told apart, by their lower-case names:
/// - a name with a word of an integrated part is integrated;
/// - otherwise a Radeon marked `rx`, `xt` or `pro` is a card (discrete);
/// - otherwise a Radeon named Vega or graphics (such as `amd radeon graphics`, the
///   GPU of a Ryzen APU) is integrated;
/// - otherwise an NVIDIA name (`nvidia`, `geforce`, `quadro`, `tesla`, `rtx`,
///   `gtx`) is discrete;
/// - otherwise an Apple name with `gpu`, `graphics` or `m1` is integrated;
/// - and a name that none of the rules speaks of is discrete.
pub proof fn lemma_gpu_kind_rules(l: Seq<char>)
    ensures
        names_integrated_part(l) ==> kind_of_lower(l) == GpuKind::Integrated,
        !names_integrated_part(l) && contains_seq(l, "radeon"@) && names_radeon_card(l)
            ==> kind_of_lower(l) == GpuKind::Discrete,
        !names_integrated_part(l) && contains_seq(l, "radeon"@) && !names_radeon_card(l) && (
        contains_seq(l, "vega"@) || contains_seq(l, "graphics"@)) ==> kind_of_lower(l)
            == GpuKind::Integrated,
        !names_integrated_part(l) && !contains_seq(l, "radeon"@) && (contains_seq(l, "nvidia"@)
            || contains_seq(l, "geforce"@) || contains_seq(l, "quadro"@) || contains_seq(
            l,
            "tesla"@,
        ) || contains_seq(l, "rtx"@) || contains_seq(l, "gtx"@)) ==> kind_of_lower(l)
            == GpuKind::Discrete,
        !names_integrated_part(l) && !contains_seq(l, "radeon"@) && !contains_seq(l, "nvidia"@)
            && !contains_seq(l, "geforce"@) && !contains_seq(l, "quadro"@) && !contains_seq(
            l,
            "tesla"@,
        ) && !contains_seq(l, "rtx"@) && !contains_seq(l, "gtx"@) && contains_seq(l, "apple"@) && (
        contains_seq(l, "gpu"@) || contains_seq(l, "graphics"@) || contains_seq(l, "m1"@))
            ==> kind_of_lower(l) == GpuKind::Integrated,
        !names_integrated_part(l) && !contains_seq(l, "radeon"@) && !contains_seq(l, "nvidia"@)
            && !contains_seq(l, "geforce"@) && !contains_seq(l, "quadro"@) && !contains_seq(
            l,
            "tesla"@,
        ) && !contains_seq(l, "rtx"@) && !contains_seq(l, "gtx"@) && !contains_seq(l, "apple"@)
            ==> kind_of_lower(l) == GpuKind::Discrete,
{
}

/// The kind of a GPU whose lower-case name is `lower`.
pub fn classify_lowered(lower: &Vec<char>) -> (r: GpuKind)
    ensures
        r == kind_of_lower(lower@),
{
    let l = lower;
    if contains_str(l, "intel") || contains_str(l, "uhd") || contains_str(l, "iris")
        || contains_str(l, "igpu") || contains_str(l, "applesilicon") || contains_str(
        l,
        "apple m",
    ) || contains_str(l, "apu") || contains_str(l, "integrated") || contains_str(
        l,
        "graphics controller",
    ) {
        return GpuKind::Integrated;
    }
    if contains_str(l, "radeon") {
        if contains_str(l, "rx") || contains_str(l, "xt") || contains_str(l, "pro") {
            return GpuKind::Discrete;
        }
        if contains_str(l, "vega") || contains_str(l, "graphics") {
            return GpuKind::Integrated;
        }
    }
    if contains_str(l, "nvidia") || contains_str(l, "geforce") || contains_str(l, "quadro")
        || contains_str(l, "tesla") || contains_str(l, "rtx") || contains_str(l, "gtx") {
        return GpuKind::Discrete;
    }
    if contains_str(l, "apple") && (contains_str(l, "gpu") || contains_str(l, "graphics")
        || contains_str(l, "m1")) {
        return GpuKind::Integrated;
    }
    GpuKind::Discrete
}

/// The kind of the GPU with the given name: integrated for Intel, Apple silicon and
/// APU names and for Radeon names without `rx`, `xt` or `pro` that name Vega or
/// graphics; discrete otherwise. The name is compared in lower case.
pub fn classify_gpu_name(name: &str) -> (r: GpuKind)
    ensures
        r == kind_of_lower(lowercase(name@)),
{
    let lower = str_to_lowercase(name);
    let lv = chars_of(lower.as_str());
    classify_lowered(&lv)
}

/// The vendor that the lower-case text `l` names, by whole words (runs of ASCII
/// letters and digits) and by a few phrases.
pub open spec fn vendor_of_lower(l: Seq<char>) -> Option<Seq<char>> {
    let t = split_words(l, Sep::NotAlphanumeric);
    if t.contains("nvidia"@) || t.contains("geforce"@) || contains_seq(l, "geforce "@) {
        Some("NVIDIA"@)
    } else if t.contains("intel"@) {
        Some("Intel"@)
    } else if contains_seq(l, "advanced micro devices"@) || t.contains("amd"@) || t.contains(
        "ati"@,
    ) {
        Some("AMD"@)
    } else if t.contains("apple"@) {
        Some("Apple"@)
    } else if t.contains("qualcomm"@) {
        Some("Qualcomm"@)
    } else if t.contains("arm"@) {
        Some("ARM"@)
    } else {
        None
    }
}

pub open spec fn opt_static_view(o: Option<&'static str>) -> Option<Seq<char>> {
    match o {
        Some(s) => Some(s@),
        None => None,
    }
}

/// The vendor named by the lower-case text `lower`.
pub fn vendor_of_lowered(lower: &Vec<char>) -> (r: Option<&'static str>)
    ensures
        opt_static_view(r) == vendor_of_lower(lower@),
{
    let words = split_nonempty(lower, Sep::NotAlphanumeric);
    if has_word(&words, "nvidia") || has_word(&words, "geforce") || contains_str(
        lower,
        "geforce ",
    ) {
        Some("NVIDIA")
    } else if has_word(&words, "intel") {
        Some("Intel")
    } else if contains_str(lower, "advanced micro devices") || has_word(&words, "amd")
        || has_word(&words, "ati") {
        Some("AMD")
    } else if has_word(&words, "apple") {
        Some("Apple")
    } else if has_word(&words, "qualcomm") {
        Some("Qualcomm")
    } else if has_word(&words, "arm") {
        Some("ARM")
    } else {
        None
    }
}

/// The vendor that a GPU description names, compared in lower case.
fn detect_gpu_vendor(text: &Vec<char>) -> (r: Option<&'static str>)
    ensures
        opt_static_view(r) == vendor_of_lower(lowercase(text@)),
{
    let lower = lowercase_chars(text);
    vendor_of_lowered(&lower)
}

/// The trimmed text between the last `[` and the first `]` after it.
pub open spec fn bracket_name(s: Seq<char>) -> Option<Seq<char>> {
    match find_last_char(s, '[') {
        Some(i) => match find_first(s.skip(i + 1), seq![']']) {
            Some(e) => Some(trim(s.subrange(i + 1, i + 1 + e))),
            None => None,
        },
        None => None,
    }
}

fn extract_bracket_name(text: &Vec<char>) -> (r: Option<Vec<char>>)
    ensures
        match r {
            Some(v) => bracket_name(text@) == Some(v@),
            None => bracket_name(text@) is None,
        },
{
    proof {
        lemma_find_last_char(text@, '[');
    }
    match rfind_char(text, '[') {
        Some(start) => {
            assert(start < text.len());
            let rest = slice_chars(text, start + 1, text.len());
            assert(rest@ == text@.skip(start + 1));
            let close = vec![']'];
            assert(close@ == seq![']']);
            proof {
                lemma_find_first(rest@, close@);
            }
            match find(&rest, &close) {
                Some(end) => {
                    let inner = slice_chars(text, start + 1, start + 1 + end);
                    Some(trim_chars(&inner))
                },
                None => None,
            }
        },
        None => None,
    }
}

/// The words that are dropped from a GPU description.
pub open spec fn strip_vendor_noise(s: Seq<char>) -> Seq<char> {
    remove_all(
        remove_all(
            remove_all(
                remove_all(
                    remove_all(remove_all(remove_all(s, "Corporation"@), "Corp."@), "Inc."@),
                    "Ltd."@,
                ),
                "Company"@,
            ),
            "Device"@,
        ),
        "Technologies"@,
    )
}

/// `name`, preceded by the vendor and a space unless it already starts with the
/// vendor (compared in lower case).
pub open spec fn with_vendor(v: Seq<char>, name: Seq<char>) -> Seq<char> {
    if has_prefix(lowercase(name), lowercase(v)) {
        name
    } else {
        v + " "@ + name
    }
}

/// The display name of a GPU from its raw description: `Unknown` when it is
/// blank, else the display name of the trimmed description without its notes.
pub open spec fn gpu_name_spec(raw: Seq<char>) -> Seq<char> {
    let t = trim(raw);
    if t.len() == 0 {
        "Unknown"@
    } else {
        gpu_display_name(gpu_description(t))
    }
}

/// A trimmed GPU description with the revision note and then the subsystem note
/// cut off.
pub open spec fn gpu_description(t: Seq<char>) -> Seq<char> {
    let a = trim(before_first(t, " (rev"@));
    trim(before_first(a, " [Subsystem"@))
}

/// The display name for a GPU description without notes: the bracketed model name
/// when there is one, else the description without company words and with single
/// spaces; the vendor in front.
pub open spec fn gpu_display_name(b: Seq<char>) -> Seq<char> {
    let vendor = vendor_of_lower(lowercase(b));
    match bracket_name(b) {
        Some(inner) => {
            let it = trim(inner);
            match vendor {
                Some(v) => with_vendor(v, it),
                None => it,
            }
        },
        None => {
            let cleaned = trim(
                join_with(split_words(strip_vendor_noise(b), Sep::Whitespace), " "@),
            );
            match vendor {
                Some(v) => if has_prefix(lowercase(cleaned), lowercase(v)) {
                    cleaned
                } else if cleaned.len() == 0 {
                    v
                } else {
                    v + " "@ + cleaned
                },
                None => cleaned,
            }
        },
    }
}

fn vendor_prefixed(v: &'static str, name: &Vec<char>) -> (r: Vec<char>)
    ensures
        r@ == v@ + " "@ + name@,
{
    let mut out = chars_of(v);
    extend_str(&mut out, " ");
    extend_chars(&mut out, name);
    out
}

fn strip_noise(s: &Vec<char>) -> (r: Vec<char>)
    ensures
        r@ == strip_vendor_noise(s@),
{
    proof {
        reveal_strlit("Corporation");
        reveal_strlit("Corp.");
        reveal_strlit("Inc.");
        reveal_strlit("Ltd.");
        reveal_strlit("Company");
        reveal_strlit("Device");
        reveal_strlit("Technologies");
    }
    let a = remove_all_str(s, "Corporation");
    let b = remove_all_str(&a, "Corp.");
    let c = remove_all_str(&b, "Inc.");
    let d = remove_all_str(&c, "Ltd.");
    let e = remove_all_str(&d, "Company");
    let f = remove_all_str(&e, "Device");
    remove_all_str(&f, "Technologies")
}

/// The display name of a GPU from its raw description (as `lspci` or a driver gives
/// it).
pub fn normalize_gpu_name(raw: &str) -> (r: String)
    ensures
        r@ == gpu_name_spec(raw@),
{
    let rv = chars_of(raw);
    let t = trim_chars(&rv);
    if t.len() == 0 {
        return "Unknown".to_owned();
    }
    let a0 = before_first_str(&t, " (rev");
    let a = trim_chars(&a0);
    let b0 = before_first_str(&a, " [Subsystem");
    let b = trim_chars(&b0);
    let vendor = detect_gpu_vendor(&b);
    match extract_bracket_name(&b) {
        Some(inner) => {
            let it = trim_chars(&inner);
            match vendor {
                Some(v) => {
                    let lower_name = lowercase_chars(&it);
                    let lower_vendor = str_to_lowercase(v);
                    if starts_with_str(&lower_name, lower_vendor.as_str()) {
                        string_of(&it)
                    } else {
                        string_of(&vendor_prefixed(v, &it))
                    }
                },
                None => string_of(&it),
            }
        },
        None => {
            let stripped = strip_noise(&b);
            let words = split_nonempty(&stripped, Sep::Whitespace);
            let joined = join(&words, " ");
            let cleaned = trim_chars(&joined);
            match vendor {
                Some(v) => {
                    let lower_name = lowercase_chars(&cleaned);
                    let lower_vendor = str_to_lowercase(v);
                    if starts_with_str(&lower_name, lower_vendor.as_str()) {
                        string_of(&cleaned)
                    } else if cleaned.len() == 0 {
                        v.to_owned()
                    } else {
                        string_of(&vendor_prefixed(v, &cleaned))
                    }
                },
                None => string_of(&cleaned),
            }
        },
    }
}


// ---------------------------------------------------------------------------
// Revision and subsystem notes
// ---------------------------------------------------------------------------

/// A pattern that starts with a space and has no other space, as ` (rev` and
/// ` [Subsystem` do.
pub open spec fn one_leading_space(p: Seq<char>) -> bool {
    &&& p.len() > 0
    &&& p[0] == ' '
    &&& forall|m: int| 1 <= m < p.len() ==> #[trigger] p[m] != ' '
}

/// `trim_start` drops a run of white space at the front and nothing else.
proof fn lemma_trim_start_shape(s: Seq<char>) -> (k: int)
    ensures
        0 <= k <= s.len(),
        trim_start(s) == s.subrange(k, s.len() as int),
        trim_start(s).len() > 0 ==> !is_white_space(trim_start(s)[0]),
        forall|i: int| 0 <= i < k ==> is_white_space(#[trigger] s[i]),
    decreases s.len(),
{
    if s.len() > 0 && is_white_space(s[0]) {
        let d = s.drop_first();
        let k1 = lemma_trim_start_shape(d);
        assert(d.subrange(k1, d.len() as int) == s.subrange(k1 + 1, s.len() as int));
        assert forall|i: int| 0 <= i < k1 + 1 implies is_white_space(#[trigger] s[i]) by {
            if i > 0 {
                assert(s[i] == d[i - 1]);
            }
        }
        k1 + 1
    } else {
        assert(s.subrange(0, s.len() as int) == s);
        0
    }
}

/// `trim_end` drops a run of white space at the back and nothing else.
proof fn lemma_trim_end_shape(s: Seq<char>) -> (k: int)
    ensures
        0 <= k <= s.len(),
        trim_end(s) == s.subrange(0, k),
        trim_end(s).len() > 0 ==> !is_white_space(trim_end(s).last()),
        forall|i: int| k <= i < s.len() ==> is_white_space(#[trigger] s[i]),
    decreases s.len(),
{
    if s.len() > 0 && is_white_space(s.last()) {
        let d = s.drop_last();
        let k1 = lemma_trim_end_shape(d);
        assert(d.subrange(0, k1) == s.subrange(0, k1));
        assert forall|i: int| k1 <= i < s.len() implies is_white_space(#[trigger] s[i]) by {
            if i < s.len() - 1 {
                assert(s[i] == d[i]);
            }
        }
        k1
    } else {
        assert(s.subrange(0, s.len() as int) == s);
        s.len() as int
    }
}

proof fn lemma_trim_start_append(s: Seq<char>, w: Seq<char>, i: int)
    requires
        0 <= i < s.len(),
        !is_white_space(s[i]),
    ensures
        trim_start(s + w) == trim_start(s) + w,
    decreases s.len(),
{
    assert((s + w)[0] == s[0]);
    if is_white_space(s[0]) {
        let d = s.drop_first();
        assert(d[i - 1] == s[i]);
        assert((s + w).drop_first() == d + w);
        lemma_trim_start_append(d, w, i - 1);
    }
}

proof fn lemma_trim_end_append(a: Seq<char>, b: Seq<char>)
    requires
        a.len() > 0,
        !is_white_space(a.last()),
    ensures
        trim_end(a + b) == a + trim_end(b),
    decreases b.len(),
{
    if b.len() == 0 {
        assert(a + b == a);
        assert(a + trim_end(b) == a);
    } else {
        assert((a + b).last() == b.last());
        if is_white_space(b.last()) {
            assert((a + b).drop_last() == a + b.drop_last());
            lemma_trim_end_append(a, b.drop_last());
        }
    }
}

/// Trimming twice is trimming once; a trimmed nonempty text starts and ends
/// with a character that is not white space.
proof fn lemma_trim_twice(s: Seq<char>)
    ensures
        trim(trim(s)) == trim(s),
        trim(s).len() > 0 ==> !is_white_space(trim(s)[0]) && !is_white_space(trim(s).last()),
        trim(s) == trim_end(trim_start(s)),
{
    let k0 = lemma_trim_start_shape(s);
    let ss = trim_start(s);
    let k1 = lemma_trim_end_shape(ss);
    let t = trim(s);
    if t.len() > 0 {
        assert(t[0] == ss[0]);
        assert(trim_start(t) == t);
        assert(trim_end(t) == t);
    } else {
        assert(trim_start(t) == t);
        assert(trim_end(t) == t);
    }
}

proof fn lemma_no_occurrence_in_part(s: Seq<char>, p: Seq<char>, a: int, b: int)
    requires
        0 <= a <= b <= s.len(),
        !contains_seq(s, p),
    ensures
        !contains_seq(s.subrange(a, b), p),
{
    let t = s.subrange(a, b);
    if contains_seq(t, p) {
        let i = choose|i: int| occurs_at(t, p, i);
        assert(s.subrange(i + a, i + a + p.len()) == t.subrange(i, i + p.len()));
        assert(occurs_at(s, p, i + a));
    }
}

/// Where `u` holds no `p`, the first `p` of `u + p + z` is the one after `u`.
proof fn lemma_find_first_at_join(u: Seq<char>, p: Seq<char>, z: Seq<char>)
    requires
        one_leading_space(p),
        !contains_seq(u, p),
    ensures
        find_first(u + p + z, p) == Some(u.len() as int),
        before_first(u + p + z, p) == u,
{
    let t = u + p + z;
    let n = u.len() as int;
    assert(t.subrange(n, n + p.len()) == p);
    assert(occurs_at(t, p, n));
    lemma_find_first(t, p);
    match find_first(t, p) {
        Some(i) => {
            if i < n {
                if i + p.len() <= n {
                    assert(u.subrange(i, i + p.len()) == t.subrange(i, i + p.len()));
                    assert(occurs_at(u, p, i));
                } else {
                    let m = n - i;
                    assert(t.subrange(i, i + p.len())[m] == t[n]);
                    assert(t[n] == p[0]);
                    assert(p[m] != ' ');
                }
            }
            assert(t.take(n) == u);
        },
        None => {},
    }
}

/// Where `u` holds no `p`, and `p` and `q` both start with their only space but
/// differ in their second character, no `p` of `u + q + z` starts before the end
/// of `q`: cutting at the first `p` keeps `u + q`.
proof fn lemma_cut_keeps_prefix(u: Seq<char>, q: Seq<char>, p: Seq<char>, z: Seq<char>) -> (z2: Seq<char>)
    requires
        one_leading_space(p),
        one_leading_space(q),
        p.len() >= 2,
        q.len() >= 2,
        p[1] != q[1],
        !contains_seq(u, p),
    ensures
        before_first(u + q + z, p) == u + q + z2,
{
    let t = u + q + z;
    let n = u.len() as int;
    assert forall|j: int| 0 <= j < n + q.len() implies !occurs_at(t, p, j) by {
        if occurs_at(t, p, j) {
            let w = t.subrange(j, j + p.len());
            if j + p.len() <= n {
                assert(u.subrange(j, j + p.len()) == w);
                assert(occurs_at(u, p, j));
            } else if j < n {
                let m = n - j;
                assert(w[m] == t[n]);
                assert(t[n] == q[0]);
                assert(p[m] != ' ');
            } else if j == n {
                assert(w[1] == t[j + 1]);
                assert(t[j + 1] == q[1]);
            } else {
                assert(w[0] == t[j]);
                assert(t[j] == q[j - n]);
                assert(q[j - n] != ' ');
            }
        }
    }
    lemma_find_first(t, p);
    match find_first(t, p) {
        Some(k) => {
            let z2 = t.subrange(n + q.len(), k);
            assert(t.take(k) == u + q + z2);
            z2
        },
        None => {
            z
        },
    }
}

proof fn lemma_note_patterns()
    ensures
        one_leading_space(" (rev"@),
        one_leading_space(" [Subsystem"@),
        " (rev"@.len() == 5,
        " [Subsystem"@.len() == 11,
        " (rev"@[1] == '(',
        " [Subsystem"@[1] == '[',
        !is_white_space(" (rev"@.last()),
        !is_white_space(" [Subsystem"@.last()),
{
    reveal_strlit(" (rev");
    reveal_strlit(" [Subsystem");
}

/// The trimmed text of `s` with a note `note + rest` after it: `trim(s) + note`
/// and what is left of `rest`.
proof fn lemma_trim_with_note(s: Seq<char>, note: Seq<char>, rest: Seq<char>)
    requires
        trim(s).len() > 0,
        note.len() > 0,
        !is_white_space(note.last()),
    ensures
        trim(s + note + rest) == trim_start(s) + note + trim_end(rest),
        trim(s) == trim_end(trim_start(s)),
        trim_start(s).len() > 0,
        !is_white_space(trim_start(s)[0]),
{
    let k0 = lemma_trim_start_shape(s);
    let ss = trim_start(s);
    let k1 = lemma_trim_end_shape(ss);
    assert(ss.len() > 0);
    assert(s[k0] == ss[0]);
    assert(s + note + rest == s + (note + rest));
    lemma_trim_start_append(s, note + rest, k0);
    assert(ss + (note + rest) == ss + note + rest);
    assert((ss + note).last() == note.last());
    lemma_trim_end_append(ss + note, rest);
}

proof fn lemma_description_ignores_revision(s: Seq<char>, x: Seq<char>)
    requires
        trim(s).len() > 0,
        !contains_seq(s, " (rev"@),
        !contains_seq(s, " [Subsystem"@),
    ensures
        trim(s + " (rev"@ + x).len() > 0,
        gpu_description(trim(s + " (rev"@ + x)) == gpu_description(trim(s)),
{
    let p = " (rev"@;
    lemma_note_patterns();
    lemma_trim_with_note(s, p, x);
    let k0 = lemma_trim_start_shape(s);
    let ss = trim_start(s);
    let k1 = lemma_trim_end_shape(ss);
    lemma_no_occurrence_in_part(s, p, k0, s.len() as int);
    lemma_find_first_at_join(ss, p, trim_end(x));
    lemma_trim_twice(s);
    assert(trim_start(ss) == ss);
    // the plain description: no note to cut
    lemma_no_occurrence_in_part(ss, p, 0, k1);
    assert(before_first(trim(s), p) == trim(s));
    assert(trim(before_first(trim(s + p + x), p)) == trim(before_first(trim(s), p)));
}

proof fn lemma_description_ignores_subsystem(s: Seq<char>, y: Seq<char>)
    requires
        trim(s).len() > 0,
        !contains_seq(s, " (rev"@),
        !contains_seq(s, " [Subsystem"@),
    ensures
        trim(s + " [Subsystem"@ + y).len() > 0,
        gpu_description(trim(s + " [Subsystem"@ + y)) == gpu_description(trim(s)),
{
    let p = " (rev"@;
    let q = " [Subsystem"@;
    lemma_note_patterns();
    lemma_trim_with_note(s, q, y);
    let k0 = lemma_trim_start_shape(s);
    let ss = trim_start(s);
    let k1 = lemma_trim_end_shape(ss);
    lemma_no_occurrence_in_part(s, p, k0, s.len() as int);
    lemma_no_occurrence_in_part(s, q, k0, s.len() as int);
    lemma_trim_twice(s);
    // the described text: cutting at ` (rev` keeps the subsystem note
    let z2 = lemma_cut_keeps_prefix(ss, q, p, trim_end(y));
    let c = ss + q + z2;
    assert(c[0] == ss[0]);
    assert(trim_start(c) == c);
    assert((ss + q).last() == q.last());
    lemma_trim_end_append(ss + q, z2);
    assert(trim(c) == ss + q + trim_end(z2));
    lemma_find_first_at_join(ss, q, trim_end(z2));
    assert(trim_start(ss) == ss);
    // the plain description: no note to cut
    lemma_no_occurrence_in_part(ss, p, 0, k1);
    lemma_no_occurrence_in_part(ss, q, 0, k1);
    assert(before_first(trim(s), p) == trim(s));
    assert(before_first(trim(s), q) == trim(s));
    let a = trim(before_first(trim(s + q + y), p));
    assert(a == ss + q + trim_end(z2));
    assert(trim(before_first(a, q)) == trim(ss));
    assert(trim(ss) == trim(s));
    let a0 = trim(before_first(trim(s), p));
    assert(a0 == trim(s));
    assert(trim(before_first(a0, q)) == trim(s));
}


/// A revision note (` (rev` and anything after it) does not change the display
/// name of a GPU whose description holds neither note.
pub proof fn lemma_gpu_name_ignores_revision(s: Seq<char>, x: Seq<char>)
    requires
        trim(s).len() > 0,
        !contains_seq(s, " (rev"@),
        !contains_seq(s, " [Subsystem"@),
    ensures
        gpu_name_spec(s + " (rev"@ + x) == gpu_name_spec(s),
{
    lemma_description_ignores_revision(s, x);
}

/// A subsystem note (` [Subsystem` and anything after it) does not change the
/// display name of a GPU whose description holds neither note.
pub proof fn lemma_gpu_name_ignores_subsystem(s: Seq<char>, y: Seq<char>)
    requires
        trim(s).len() > 0,
        !contains_seq(s, " (rev"@),
        !contains_seq(s, " [Subsystem"@),
    ensures
        gpu_name_spec(s + " [Subsystem"@ + y) == gpu_name_spec(s),
{
    lemma_description_ignores_subsystem(s, y);
}

// ---------------------------------------------------------------------------
// The GPU list
// ---------------------------------------------------------------------------

/// One GPU: its display name and kind.
#[derive(Debug, PartialEq, Eq)]
pub struct GpuInfo {
    pub name: String,
    pub kind: GpuKind,
}

impl Clone for GpuInfo {
    fn clone(&self) -> (r: Self)
        ensures
            r.name@ == self.name@,
            r.kind == self.kind,
    {
        GpuInfo { name: self.name.clone(), kind: self.kind }
    }
}

pub open spec fn gpu_view(g: GpuInfo) -> (Seq<char>, GpuKind) {
    (g.name@, g.kind)
}

pub open spec fn gpu_views(s: Seq<GpuInfo>) -> Seq<(Seq<char>, GpuKind)> {
    s.map_values(|g: GpuInfo| gpu_view(g))
}

pub open spec fn is_discrete(g: (Seq<char>, GpuKind)) -> bool {
    g.1 == GpuKind::Discrete
}

/// The GPUs with the discrete ones first, each group in its original order (what a
/// stable sort by "discrete before integrated" gives).
pub open spec fn discrete_first(s: Seq<(Seq<char>, GpuKind)>) -> Seq<(Seq<char>, GpuKind)> {
    s.filter(|g: (Seq<char>, GpuKind)| is_discrete(g)) + s.filter(
        |g: (Seq<char>, GpuKind)| !is_discrete(g),
    )
}

/// The entry for a GPU from its raw description.
pub open spec fn gpu_entry(raw: Seq<char>) -> (Seq<char>, GpuKind) {
    (gpu_name_spec(raw), kind_of_lower(lowercase(gpu_name_spec(raw))))
}

pub open spec fn string_views(v: Seq<String>) -> Seq<Seq<char>> {
    v.map_values(|s: String| s@)
}

/// The GPU list for the given raw descriptions, discrete GPUs first.
pub open spec fn gpu_list_spec(raw: Seq<Seq<char>>) -> Seq<(Seq<char>, GpuKind)> {
    discrete_first(raw.map_values(|r: Seq<char>| gpu_entry(r)))
}

/// The GPUs reordered so that discrete ones come first; within each kind the
/// order stays.
pub fn order_gpus(gpus: &Vec<GpuInfo>) -> (r: Vec<GpuInfo>)
    ensures
        gpu_views(r@) == discrete_first(gpu_views(gpus@)),
{
    let ghost s = gpu_views(gpus@);
    let ghost pd = |g: (Seq<char>, GpuKind)| is_discrete(g);
    let ghost pi = |g: (Seq<char>, GpuKind)| !is_discrete(g);
    let mut disc: Vec<GpuInfo> = Vec::new();
    let mut integ: Vec<GpuInfo> = Vec::new();
    let mut j: usize = 0;
    assert(s.take(0) == Seq::<(Seq<char>, GpuKind)>::empty());
    assert(Seq::<(Seq<char>, GpuKind)>::empty().filter(pd) == Seq::<(Seq<char>, GpuKind)>::empty())
        by {
        reveal(Seq::filter);
    }
    assert(Seq::<(Seq<char>, GpuKind)>::empty().filter(pi) == Seq::<(Seq<char>, GpuKind)>::empty())
        by {
        reveal(Seq::filter);
    }
    while j < gpus.len()
        invariant
            j <= gpus.len(),
            s == gpu_views(gpus@),
            pd == (|g: (Seq<char>, GpuKind)| is_discrete(g)),
            pi == (|g: (Seq<char>, GpuKind)| !is_discrete(g)),
            gpu_views(disc@) == s.take(j as int).filter(pd),
            gpu_views(integ@) == s.take(j as int).filter(pi),
        decreases gpus.len() - j,
    {
        proof {
            assert(s.take(j + 1) == s.take(j as int).push(s[j as int]));
            s.take(j as int).lemma_filter_push(s[j as int], pd);
            s.take(j as int).lemma_filter_push(s[j as int], pi);
        }
        let g = gpus[j].clone();
        assert(gpu_view(g) == s[j as int]);
        match g.kind {
            GpuKind::Discrete => {
                let ghost before = disc@;
                disc.push(g);
                assert(gpu_views(disc@) == gpu_views(before).push(gpu_view(g)));
            },
            GpuKind::Integrated => {
                let ghost before = integ@;
                integ.push(g);
                assert(gpu_views(integ@) == gpu_views(before).push(gpu_view(g)));
            },
        }
        j = j + 1;
    }
    assert(s.take(gpus.len() as int) == s);
    let ghost head = gpu_views(disc@);
    let mut k: usize = 0;
    while k < integ.len()
        invariant
            k <= integ.len(),
            gpu_views(disc@) == head + gpu_views(integ@).take(k as int),
        decreases integ.len() - k,
    {
        let g = integ[k].clone();
        let ghost before = disc@;
        disc.push(g);
        assert(gpu_views(disc@) == gpu_views(before).push(gpu_view(g)));
        assert(gpu_views(integ@).take(k + 1) == gpu_views(integ@).take(k as int).push(
            gpu_view(integ@[k as int]),
        ));
        k = k + 1;
    }
    assert(gpu_views(integ@).take(integ.len() as int) == gpu_views(integ@));
    disc
}

/// The GPU entry for one raw description.
pub fn gpu_info_from_raw(raw: &str) -> (g: GpuInfo)
    ensures
        gpu_view(g) == gpu_entry(raw@),
{
    let name = normalize_gpu_name(raw);
    let kind = classify_gpu_name(name.as_str());
    GpuInfo { name, kind }
}

/// The GPU list for the raw descriptions that a platform probe gave: each name
/// normalized and classified, discrete GPUs first.
pub fn build_gpu_list(raw: &Vec<String>) -> (r: Vec<GpuInfo>)
    ensures
        gpu_views(r@) == gpu_list_spec(string_views(raw@)),
{
    let ghost m = string_views(raw@).map_values(|r: Seq<char>| gpu_entry(r));
    let mut all: Vec<GpuInfo> = Vec::new();
    let mut i: usize = 0;
    while i < raw.len()
        invariant
            i <= raw.len(),
            m == string_views(raw@).map_values(|r: Seq<char>| gpu_entry(r)),
            gpu_views(all@) == m.take(i as int),
        decreases raw.len() - i,
    {
        let g = gpu_info_from_raw(raw[i].as_str());
        let ghost before = all@;
        all.push(g);
        assert(gpu_views(all@) == gpu_views(before).push(gpu_view(g)));
        assert(m.take(i + 1) == m.take(i as int).push(m[i as int]));
        i = i + 1;
    }
    assert(m.take(raw.len() as int) == m);
    order_gpus(&all)
}

/// Reordering puts every GPU in the list exactly as often as before.
pub proof fn lemma_discrete_first_permutes(s: Seq<(Seq<char>, GpuKind)>)
    ensures
        discrete_first(s).to_multiset() == s.to_multiset(),
    decreases s.len(),
{
    broadcast use vstd::multiset::group_multiset_axioms, vstd::seq_lib::to_multiset_build, vstd::seq_lib::lemma_multiset_commutative;

    let pd = |g: (Seq<char>, GpuKind)| is_discrete(g);
    let pi = |g: (Seq<char>, GpuKind)| !is_discrete(g);
    if s.len() == 0 {
        assert(s.filter(pd) == s) by {
            reveal(Seq::filter);
        }
        assert(s.filter(pi) == s) by {
            reveal(Seq::filter);
        }
        assert(discrete_first(s) =~= s);
    } else {
        let p = s.drop_last();
        let x = s.last();
        assert(s == p.push(x));
        lemma_discrete_first_permutes(p);
        p.lemma_filter_push(x, pd);
        p.lemma_filter_push(x, pi);
        assert(discrete_first(p).to_multiset() == p.to_multiset());
        if is_discrete(x) {
            assert(s.filter(pd) == p.filter(pd).push(x));
            assert(s.filter(pi) == p.filter(pi));
        } else {
            assert(s.filter(pd) == p.filter(pd));
            assert(s.filter(pi) == p.filter(pi).push(x));
        }
        assert(discrete_first(s).to_multiset() =~= discrete_first(p).to_multiset().insert(x));
    }
}

/// After reordering, no discrete GPU comes after an integrated one.
pub proof fn lemma_discrete_first_sorted(s: Seq<(Seq<char>, GpuKind)>)
    ensures
        forall|i: int, j: int|
            0 <= i < j < discrete_first(s).len() && !is_discrete(#[trigger] discrete_first(s)[i])
                ==> !is_discrete(#[trigger] discrete_first(s)[j]),
{
    let pd = |g: (Seq<char>, GpuKind)| is_discrete(g);
    let pi = |g: (Seq<char>, GpuKind)| !is_discrete(g);
    let a = s.filter(pd);
    let b = s.filter(pi);
    assert forall|k: int| 0 <= k < a.len() implies is_discrete(#[trigger] a[k]) by {
        s.lemma_filter_pred(pd, k);
    }
    assert forall|k: int| 0 <= k < b.len() implies !is_discrete(#[trigger] b[k]) by {
        s.lemma_filter_pred(pi, k);
    }
}

// ---------------------------------------------------------------------------
// Uptime, memory, CPU and battery lines
// ---------------------------------------------------------------------------

/// Whole days, the hours left over, and the minutes left over after those.
pub open spec fn uptime_parts(secs: nat) -> (nat, nat, nat) {
    (secs / 86400, (secs % 86400) / 3600, (secs % 3600) / 60)
}

/// `{days}d {hours}h {minutes}m`.
pub open spec fn uptime_text(secs: nat) -> Seq<char> {
    let (d, h, m) = uptime_parts(secs);
    decimal(d) + "d "@ + decimal(h) + "h "@ + decimal(m) + "m"@
}

/// The uptime line for a number of seconds, such as `1d 2h 3m`.
pub fn format_uptime(uptime_secs: u64) -> (r: Option<String>)
    ensures
        r matches Some(s) && s@ == uptime_text(uptime_secs as nat),
{
    let days = uptime_secs / 86_400;
    let hours = (uptime_secs % 86_400) / 3_600;
    let minutes = (uptime_secs % 3_600) / 60;
    let mut out: Vec<char> = Vec::new();
    push_decimal(&mut out, days);
    extend_str(&mut out, "d ");
    push_decimal(&mut out, hours);
    extend_str(&mut out, "h ");
    push_decimal(&mut out, minutes);
    extend_str(&mut out, "m");
    Some(string_of(&out))
}

/// The days, hours and minutes of an uptime account for all of it but the
/// seconds of the last, unfinished minute; hours stay under 24 and minutes
/// under 60.
pub proof fn lemma_uptime_parts(secs: nat)
    ensures
        ({
            let (d, h, m) = uptime_parts(secs);
            &&& d * 86400 + h * 3600 + m * 60 <= secs < d * 86400 + h * 3600 + m * 60 + 60
            &&& h < 24
            &&& m < 60
        }),
{
    let (d, h, m) = uptime_parts(secs);
    let r = secs % 86400;
    assert(secs == d * 86400 + r) by (nonlinear_arith)
        requires
            d == secs / 86400,
            r == secs % 86400,
    ;
    assert(r == h * 3600 + r % 3600) by (nonlinear_arith)
        requires
            h == r / 3600,
    ;
    assert(secs % 3600 == r % 3600) by (nonlinear_arith)
        requires
            secs == d * 86400 + r,
            0 <= r,
    {
        assert(d * 86400 == (d * 24) * 3600);
        vstd::arithmetic::div_mod::lemma_mod_multiples_vanish((d * 24) as int, r as int, 3600);
    }
    assert(secs % 3600 == m * 60 + secs % 60) by (nonlinear_arith)
        requires
            m == (secs % 3600) / 60,
    {
        vstd::arithmetic::div_mod::lemma_fundamental_div_mod((secs % 3600) as int, 60);
        vstd::arithmetic::div_mod::lemma_mod_mod(secs as int, 60, 60);
        assert((secs % 3600) % 60 == secs % 60) by {
            vstd::arithmetic::div_mod::lemma_mod_mod(secs as int, 60, 60);
            vstd::arithmetic::div_mod::lemma_mod_breakdown(secs as int, 60, 60);
        }
    }
    assert(h < 24) by (nonlinear_arith)
        requires
            h == r / 3600,
            r < 86400,
    ;
    assert(m < 60) by (nonlinear_arith)
        requires
            m == (secs % 3600) / 60,
            secs % 3600 < 3600,
    ;
}

/// Memory and swap sizes, each in gigabytes with two decimals.
#[derive(Debug)]
pub struct MemoryStats {
    pub total: Option<String>,
    pub used: Option<String>,
    pub swap_total: Option<String>,
    pub swap_used: Option<String>,
}

/// The memory line values for byte counts of memory and swap.
pub fn detect_memory(total: u64, used: u64, swap_total: u64, swap_used: u64) -> (m: MemoryStats)
    ensures
        m.total matches Some(s) && s@ == format_bytes_spec((total / 1024) as nat),
        m.used matches Some(s) && s@ == format_bytes_spec((used / 1024) as nat),
        m.swap_total matches Some(s) && s@ == format_bytes_spec((swap_total / 1024) as nat),
        m.swap_used matches Some(s) && s@ == format_bytes_spec((swap_used / 1024) as nat),
{
    MemoryStats {
        total: Some(format_bytes(total / 1024)),
        used: Some(format_bytes(used / 1024)),
        swap_total: Some(format_bytes(swap_total / 1024)),
        swap_used: Some(format_bytes(swap_used / 1024)),
    }
}

pub open spec fn opt_str_seq(o: Option<&str>) -> Option<Seq<char>> {
    match o {
        Some(s) => Some(s@),
        None => None,
    }
}

/// `{brand} ({cores} cores)`: the brand of the first CPU unless it is missing or
/// blank (then `Unknown`), the physical core count when known, else the number of
/// logical CPUs.
pub open spec fn cpu_text(brand: Option<Seq<char>>, physical: Option<nat>, logical: nat) -> Seq<
    char,
> {
    let b = match brand {
        Some(x) => if trim(x).len() > 0 {
            x
        } else {
            "Unknown"@
        },
        None => "Unknown"@,
    };
    let n = match physical {
        Some(p) => p,
        None => logical,
    };
    b + " ("@ + decimal(n) + " cores)"@
}

/// The CPU line from the first CPU's brand and the core counts.
pub fn detect_cpu(brand: Option<&str>, physical_cores: Option<u64>, logical_cores: u64) -> (r:
    Option<String>)
    ensures
        r matches Some(s) && s@ == cpu_text(
            opt_str_seq(brand),
            match physical_cores {
                Some(p) => Some(p as nat),
                None => None,
            },
            logical_cores as nat,
        ),
{
    let mut out: Vec<char> = Vec::new();
    match brand {
        Some(b) => {
            let t = trim_str(b);
            if t.len() > 0 {
                extend_str(&mut out, b);
            } else {
                extend_str(&mut out, "Unknown");
            }
        },
        None => extend_str(&mut out, "Unknown"),
    }
    extend_str(&mut out, " (");
    let n = match physical_cores {
        Some(p) => p,
        None => logical_cores,
    };
    push_decimal(&mut out, n);
    extend_str(&mut out, " cores)");
    Some(string_of(&out))
}

/// The state of a battery, as the battery driver reports it.
#[derive(Clone, Copy, Debug, PartialEq, Eq, Structural)]
pub enum PowerState {
    Unknown,
    Charging,
    Discharging,
    Empty,
    Full,
}

pub open spec fn power_label_spec(state: PowerState) -> Seq<char> {
    match state {
        PowerState::Charging | PowerState::Full => "[AC Connected]"@,
        _ => "[Discharging]"@,
    }
}

/// `{percent}% [AC Connected]` while charging or full, `{percent}% [Discharging]`
/// otherwise.
pub open spec fn battery_text_spec(percent: nat, state: PowerState) -> Seq<char> {
    decimal(percent) + "% "@ + power_label_spec(state)
}

/// The battery line for a charge level, already rounded to a whole percent.
pub fn battery_text(percent: u64, state: PowerState) -> (r: String)
    ensures
        r@ == battery_text_spec(percent as nat, state),
{
    let mut out: Vec<char> = Vec::new();
    push_decimal(&mut out, percent);
    extend_str(&mut out, "% ");
    match state {
        PowerState::Charging | PowerState::Full => extend_str(&mut out, "[AC Connected]"),
        _ => extend_str(&mut out, "[Discharging]"),
    }
    string_of(&out)
}

/// The battery line on a platform without a battery probe: none.
pub fn detect_battery() -> (r: Option<String>)
    ensures
        r is None,
{
    None
}


// ---------------------------------------------------------------------------
// Distribution, storage and the whole summary
// ---------------------------------------------------------------------------

/// The name of the running system and the id under which its logo is found.
#[derive(Debug, PartialEq, Eq)]
pub struct DistroInfo {
    pub name: String,
    pub id: String,
}

/// Whether a version text is `unknown` in any ASCII case.
pub open spec fn is_unknown_version(v: Seq<char>) -> bool {
    ascii_lower(v) == "unknown"@
}

/// `{os_type} {version}`, or the OS type alone when the version is empty or
/// unknown.
pub open spec fn os_name_spec(os_type: Seq<char>, version: Seq<char>) -> Seq<char> {
    let v = if is_unknown_version(version) {
        Seq::<char>::empty()
    } else {
        version
    };
    if v.len() == 0 {
        os_type
    } else {
        os_type + " "@ + v
    }
}

/// The OS name shown for an OS type and version.
pub fn os_name(os_type: &str, version: &str) -> (r: String)
    ensures
        r@ == os_name_spec(os_type@, version@),
{
    let v = chars_of(version);
    let lower = ascii_lowercase(&v);
    let unknown = eq_str(&lower, "unknown");
    if unknown || v.len() == 0 {
        os_type.to_owned()
    } else {
        let mut out = chars_of(os_type);
        extend_str(&mut out, " ");
        extend_chars(&mut out, &v);
        string_of(&out)
    }
}

/// The lower-case OS type with spaces turned into underscores.
pub open spec fn generic_id_spec(os_type: Seq<char>) -> Seq<char> {
    lowercase(os_type).map_values(|c: char| if c == ' ' { '_' } else { c })
}

/// The distribution on a platform without its own probe: named after the OS type
/// and version, with the lower-case OS type as logo id.
pub fn detect_distro(os_type: &str, version: &str) -> (d: DistroInfo)
    ensures
        d.name@ == os_name_spec(os_type@, version@),
        d.id@ == generic_id_spec(os_type@),
{
    let name = os_name(os_type, version);
    let lower = lowercase_chars(&chars_of(os_type));
    let mut id: Vec<char> = Vec::new();
    let mut i: usize = 0;
    while i < lower.len()
        invariant
            i <= lower.len(),
            id@ == lower@.take(i as int).map_values(|c: char| if c == ' ' { '_' } else { c }),
        decreases lower.len() - i,
    {
        let c = lower[i];
        id.push(if c == ' ' { '_' } else { c });
        assert(lower@.take(i + 1) == lower@.take(i as int).push(c));
        i = i + 1;
    }
    assert(lower@.take(lower.len() as int) == lower@);
    DistroInfo { name, id: string_of(&id) }
}

/// One mounted volume.
#[derive(Debug, PartialEq, Eq)]
pub struct StorageInfo {
    pub name: String,
    pub total: String,
    pub used: String,
    pub percent: u8,
    pub fs_type: String,
    pub readonly: bool,
}

/// Everything the summary shows.
#[derive(Debug, PartialEq, Eq)]
pub struct SystemInfo {
    pub distro: String,
    pub distro_id: String,
    pub kernel: String,
    pub cpu: Option<String>,
    pub cpu_max_frequency: Option<String>,
    pub gpus: Vec<GpuInfo>,
    pub total_memory: Option<String>,
    pub used_memory: Option<String>,
    pub total_swap: Option<String>,
    pub used_swap: Option<String>,
    pub uptime: Option<String>,
    pub local_ip: Option<String>,
    pub battery: Option<String>,
    pub storage: Vec<StorageInfo>,
    pub username: Option<String>,
    pub hostname: Option<String>,
}

/// Which probes to run for a configuration.
#[derive(Debug)]
pub struct ReadingPlan {
    pub cpu: bool,
    pub memory: bool,
    pub uptime: bool,
    pub gpu: bool,
    pub local_ip: bool,
    pub battery: bool,
    pub storage: bool,
}

/// The probes that a configuration asks for: each line that is shown, and the
/// memory probe when either memory or swap is shown.
pub fn reading_plan(config: &Config) -> (p: ReadingPlan)
    ensures
        p.cpu == shown(config.show_cpu),
        p.memory == (shown(config.show_memory) || shown(config.show_swap)),
        p.uptime == shown(config.show_uptime),
        p.gpu == shown(config.show_gpu),
        p.local_ip == shown(config.show_local_ip),
        p.battery == shown(config.show_battery),
        p.storage == shown(config.show_storage),
{
    ReadingPlan {
        cpu: is_shown(config.show_cpu),
        memory: is_shown(config.show_memory) || is_shown(config.show_swap),
        uptime: is_shown(config.show_uptime),
        gpu: is_shown(config.show_gpu),
        local_ip: is_shown(config.show_local_ip),
        battery: is_shown(config.show_battery),
        storage: is_shown(config.show_storage),
    }
}

/// What the probes gave. A probe that was not run, or failed, gave `None` or an
/// empty list.
#[derive(Debug)]
pub struct Readings {
    pub distro: DistroInfo,
    pub kernel: String,
    pub cpu: Option<String>,
    pub cpu_max_frequency: Option<String>,
    pub memory: Option<MemoryStats>,
    pub uptime_secs: Option<u64>,
    pub gpu_names: Vec<String>,
    pub local_ip: Option<String>,
    pub battery: Option<String>,
    pub storage: Vec<StorageInfo>,
    pub username: Option<String>,
    pub hostname: Option<String>,
}

pub open spec fn gated<T>(show: bool, value: Option<T>) -> Option<T> {
    if show {
        value
    } else {
        None
    }
}

pub open spec fn memory_field(m: Option<MemoryStats>, which: nat) -> Option<String> {
    match m {
        Some(s) => if which == 0 {
            s.total
        } else if which == 1 {
            s.used
        } else if which == 2 {
            s.swap_total
        } else {
            s.swap_used
        },
        None => None,
    }
}

/// The summary from what the probes gave: each line kept only when the
/// configuration shows it, the uptime written out, and the GPU list built from
/// the raw names with discrete GPUs first.
pub fn assemble_system_info(config: &Config, readings: Readings) -> (info: SystemInfo)
    ensures
        info.distro == readings.distro.name,
        info.distro_id == readings.distro.id,
        info.kernel == readings.kernel,
        info.cpu == gated(shown(config.show_cpu), readings.cpu),
        info.cpu_max_frequency == gated(shown(config.show_cpu), readings.cpu_max_frequency),
        gpu_views(info.gpus@) == (if shown(config.show_gpu) {
            gpu_list_spec(string_views(readings.gpu_names@))
        } else {
            Seq::empty()
        }),
        info.total_memory == gated(shown(config.show_memory), memory_field(readings.memory, 0)),
        info.used_memory == gated(shown(config.show_memory), memory_field(readings.memory, 1)),
        info.total_swap == gated(shown(config.show_swap), memory_field(readings.memory, 2)),
        info.used_swap == gated(shown(config.show_swap), memory_field(readings.memory, 3)),
        match info.uptime {
            Some(u) => shown(config.show_uptime) && (readings.uptime_secs matches Some(s)
                && u@ == uptime_text(s as nat)),
            None => !shown(config.show_uptime) || readings.uptime_secs is None,
        },
        info.local_ip == gated(shown(config.show_local_ip), readings.local_ip),
        info.battery == gated(shown(config.show_battery), readings.battery),
        info.storage@ == (if shown(config.show_storage) {
            readings.storage@
        } else {
            Seq::empty()
        }),
        info.username == readings.username,
        info.hostname == readings.hostname,
{
    let show_cpu = is_shown(config.show_cpu);
    let show_memory = is_shown(config.show_memory);
    let show_swap = is_shown(config.show_swap);
    let show_uptime = is_shown(config.show_uptime);
    let show_gpu = is_shown(config.show_gpu);
    let show_local_ip = is_shown(config.show_local_ip);
    let show_battery = is_shown(config.show_battery);
    let show_storage = is_shown(config.show_storage);
    let Readings {
        distro,
        kernel,
        cpu,
        cpu_max_frequency,
        memory,
        uptime_secs,
        gpu_names,
        local_ip,
        battery,
        storage,
        username,
        hostname,
    } = readings;
    let (mem_total, mem_used, swap_total, swap_used) = match memory {
        Some(m) => (m.total, m.used, m.swap_total, m.swap_used),
        None => (None, None, None, None),
    };
    let uptime = if show_uptime {
        match uptime_secs {
            Some(s) => format_uptime(s),
            None => None,
        }
    } else {
        None
    };
    let gpus = if show_gpu {
        build_gpu_list(&gpu_names)
    } else {
        Vec::new()
    };
    SystemInfo {
        distro: distro.name,
        distro_id: distro.id,
        kernel,
        cpu: if show_cpu { cpu } else { None },
        cpu_max_frequency: if show_cpu { cpu_max_frequency } else { None },
        gpus,
        total_memory: if show_memory { mem_total } else { None },
        used_memory: if show_memory { mem_used } else { None },
        total_swap: if show_swap { swap_total } else { None },
        used_swap: if show_swap { swap_used } else { None },
        uptime,
        local_ip: if show_local_ip { local_ip } else { None },
        battery: if show_battery { battery } else { None },
        storage: if show_storage { storage } else { Vec::new() },
        username,
        hostname,
    }
}


/// The CPU clock on a platform without its own probe: the clock in megahertz that
/// the system reports, as gigahertz; none when it reports 0.
pub fn detect_cpu_max_frequency(freq_mhz: u64) -> (r: Option<String>)
    ensures
        if freq_mhz == 0 {
            r is None
        } else {
            r matches Some(s) && s@ == ghz_text_spec(freq_mhz as nat, 1000)
        },
{
    if freq_mhz == 0 {
        None
    } else {
        Some(format_ghz(freq_mhz, 1000))
    }
}


// ---------------------------------------------------------------------------
// Which GPU probe to run next
// ---------------------------------------------------------------------------

/// The GPU probes, in the order a platform tries them: `lspci`, then an OpenGL
/// context, then Vulkan (Linux and others); the accelerator registry, then
/// `ioreg`, then `system_profiler` (macOS).
#[derive(Clone, Copy, Debug, PartialEq, Eq, Structural)]
pub enum GpuProbe {
    Lspci,
    OpenGl,
    Vulkan,
    IoKit,
    Ioreg,
    SystemProfiler,
}

/// What to do after a probe: run another, or stop with these descriptions.
#[derive(Debug)]
pub enum GpuStep {
    Run(GpuProbe),
    Done(Vec<String>),
}

/// The step after `probe` found `found` (as strings): the first probe that finds
/// something decides; the registry's names are joined by `, `; when nothing is
/// found the list stays empty, except on macOS where the GPU is `Unknown`.
pub open spec fn gpu_step_spec(probe: GpuProbe, found: Seq<Seq<char>>) -> (Option<GpuProbe>, Seq<Seq<char>>) {
    match probe {
        GpuProbe::Lspci => if found.len() > 0 {
            (None, found)
        } else {
            (Some(GpuProbe::OpenGl), Seq::empty())
        },
        GpuProbe::OpenGl => if found.len() > 0 {
            (None, found)
        } else {
            (Some(GpuProbe::Vulkan), Seq::empty())
        },
        GpuProbe::Vulkan => (None, found),
        GpuProbe::IoKit => if found.len() > 0 {
            (None, seq![join_with(found, ", "@)])
        } else {
            (Some(GpuProbe::Ioreg), Seq::empty())
        },
        GpuProbe::Ioreg => if found.len() > 0 {
            (None, found)
        } else {
            (Some(GpuProbe::SystemProfiler), Seq::empty())
        },
        GpuProbe::SystemProfiler => if found.len() > 0 {
            (None, found)
        } else {
            (None, seq!["Unknown"@])
        },
    }
}

pub open spec fn gpu_step_view(s: GpuStep) -> (Option<GpuProbe>, Seq<Seq<char>>) {
    match s {
        GpuStep::Run(p) => (Some(p), Seq::empty()),
        GpuStep::Done(v) => (None, string_views(v@)),
    }
}

/// The decision after each GPU probe.
pub fn next_gpu_step(probe: GpuProbe, found: Vec<String>) -> (s: GpuStep)
    ensures
        gpu_step_view(s) == gpu_step_spec(probe, string_views(found@)),
{
    match probe {
        GpuProbe::Lspci => if found.len() > 0 {
            GpuStep::Done(found)
        } else {
            GpuStep::Run(GpuProbe::OpenGl)
        },
        GpuProbe::OpenGl => if found.len() > 0 {
            GpuStep::Done(found)
        } else {
            GpuStep::Run(GpuProbe::Vulkan)
        },
        GpuProbe::Vulkan => GpuStep::Done(found),
        GpuProbe::IoKit => if found.len() > 0 {
            let joined = crate::macos::join_gpu_names(&found);
            let v = vec![joined];
            assert(string_views(v@) == seq![joined@]);
            GpuStep::Done(v)
        } else {
            GpuStep::Run(GpuProbe::Ioreg)
        },
        GpuProbe::Ioreg => if found.len() > 0 {
            GpuStep::Done(found)
        } else {
            GpuStep::Run(GpuProbe::SystemProfiler)
        },
        GpuProbe::SystemProfiler => if found.len() > 0 {
            GpuStep::Done(found)
        } else {
            let v = vec!["Unknown".to_owned()];
            assert(string_views(v@) == seq!["Unknown"@]);
            GpuStep::Done(v)
        },
    }
}

} // verus!
