//! Linux: the distribution from `os-release`, Proxmox detection, the logo id, the
//! root file system type and the GPU list from `lspci`.
use vstd::prelude::*;
use crate::config::opt_view;
use crate::storage::{
    calc_percent, df_line_spec, format_bytes, format_bytes_spec, format_ghz, ghz_text_spec,
    parse_df_line_chars, percent_spec,
};
use crate::system::{os_name, os_name_spec, DistroInfo, StorageInfo};
use crate::text::{
    ascii_lowercase, chars_of, contains_seq, contains_str, eq_str, extend_chars, extend_str,
    find_first, find_str, has_prefix, has_word, is_ascii_alnum, is_ascii_alphanumeric,
    lemma_find_first, lemma_split_words_empty, lines, lines_of, lossy_string, lowercase, lowercase_chars, no_ascii_upper, slice_chars,
    split_nonempty, split_pieces, split_words, split, strip_char, strip_char_both, string_of, trim,
    trim_chars, trim_str, utf8_lossy, views, Sep, sorted_unique, strictly_sorted,
    lemma_split_pieces_nonempty, strings_of, string_seq_views,
};

verus! {

// ---------------------------------------------------------------------------
// os-release
// ---------------------------------------------------------------------------

/// The `KEY=value` pairs of an `os-release` file, in file order.
#[derive(Debug)]
pub struct ReleaseInfo {
    pub entries: Vec<(String, String)>,
}

pub open spec fn entry_views(e: Seq<(String, String)>) -> Seq<(Seq<char>, Seq<char>)> {
    e.map_values(|p: (String, String)| (p.0@, p.1@))
}

impl View for ReleaseInfo {
    type V = Seq<(Seq<char>, Seq<char>)>;

    open spec fn view(&self) -> Seq<(Seq<char>, Seq<char>)> {
        entry_views(self.entries@)
    }
}

/// The value of `key`: that of its last line, as a map filled line by line keeps.
pub open spec fn lookup(e: Seq<(Seq<char>, Seq<char>)>, key: Seq<char>) -> Option<Seq<char>>
    decreases e.len(),
{
    if e.len() == 0 {
        None
    } else if e.last().0 == key {
        Some(e.last().1)
    } else {
        lookup(e.drop_last(), key)
    }
}

impl ReleaseInfo {
    /// The value of `key`, if the file sets it.
    pub fn get(&self, key: &str) -> (r: Option<String>)
        ensures
            opt_view(r) == lookup(self@, key@),
    {
        let ghost e = self@;
        let mut i: usize = self.entries.len();
        assert(e.take(i as int) == e);
        while i > 0
            invariant
                i <= self.entries.len(),
                e == self@,
                lookup(e, key@) == lookup(e.take(i as int), key@),
            decreases i,
        {
            let (k, v) = &self.entries[i - 1];
            assert(e.take(i as int).drop_last() == e.take(i - 1));
            assert(e.take(i as int).last() == (k@, v@));
            if eq_str(&chars_of(k.as_str()), key) {
                return Some(v.clone());
            }
            i = i - 1;
        }
        None
    }
}

/// A value with surrounding white space removed and, when it is quoted, its
/// quotes.
pub open spec fn value_spec(v: Seq<char>) -> Seq<char> {
    let t = trim(v);
    if t.len() >= 2 && t[0] == '"' && t.last() == '"' {
        t.subrange(1, t.len() - 1)
    } else {
        t
    }
}

/// A value of an `os-release` line without white space and quotes around it.
pub fn trimmed_value(value: &Vec<char>) -> (r: Vec<char>)
    ensures
        r@ == value_spec(value@),
{
    let t = trim_chars(value);
    if t.len() >= 2 && t[0] == '"' && t[t.len() - 1] == '"' {
        slice_chars(&t, 1, t.len() - 1)
    } else {
        t
    }
}

/// The pair that one line sets: blank lines, comments and lines without `=` set
/// none; the key is what comes before the first `=`.
pub open spec fn line_entry(line: Seq<char>) -> Option<(Seq<char>, Seq<char>)> {
    let t = trim(line);
    if t.len() == 0 || t[0] == '#' {
        None
    } else {
        match find_first(t, "="@) {
            Some(i) => Some((t.take(i), value_spec(t.skip(i + 1)))),
            None => None,
        }
    }
}

pub open spec fn entries_of(ls: Seq<Seq<char>>) -> Seq<(Seq<char>, Seq<char>)>
    decreases ls.len(),
{
    if ls.len() == 0 {
        Seq::empty()
    } else {
        let e = entries_of(ls.drop_last());
        match line_entry(ls.last()) {
            Some(p) => e.push(p),
            None => e,
        }
    }
}

/// The pairs of a file's text; `None` when it sets none.
pub open spec fn release_spec(content: Seq<char>) -> Option<Seq<(Seq<char>, Seq<char>)>> {
    let e = entries_of(lines_of(content));
    if e.len() == 0 {
        None
    } else {
        Some(e)
    }
}

/// The `KEY=value` pairs of an `os-release` text.
pub fn parse_key_values(content: &str) -> (r: Option<ReleaseInfo>)
    ensures
        match r {
            Some(info) => release_spec(content@) == Some(info@),
            None => release_spec(content@) is None,
        },
{
    let ls = lines(&chars_of(content));
    let ghost lv = views(ls@);
    let mut entries: Vec<(String, String)> = Vec::new();
    let mut i: usize = 0;
    proof {
        reveal_strlit("=");
    }
    while i < ls.len()
        invariant
            i <= ls.len(),
            lv == views(ls@),
            lv == lines_of(content@),
            entry_views(entries@) == entries_of(lv.take(i as int)),
        decreases ls.len() - i,
    {
        assert(lv.take(i + 1).drop_last() == lv.take(i as int));
        assert(lv.take(i + 1).last() == ls@[i as int]@);
        let t = trim_chars(&ls[i]);
        if t.len() > 0 && t[0] != '#' {
            proof {
                reveal_strlit("=");
                lemma_find_first(t@, "="@);
            }
            match find_str(&t, "=") {
                Some(k) => {
                    let key = slice_chars(&t, 0, k);
                    let rest = slice_chars(&t, k + 1, t.len());
                    assert(rest@ == t@.skip(k + 1));
                    let value = trimmed_value(&rest);
                    let ghost before = entries@;
                    entries.push((string_of(&key), string_of(&value)));
                    assert(entry_views(entries@) == entry_views(before).push((key@, value@)));
                },
                None => {},
            }
        }
        i = i + 1;
    }
    assert(lv.take(ls.len() as int) == lv);
    if entries.len() == 0 {
        None
    } else {
        Some(ReleaseInfo { entries })
    }
}

// ---------------------------------------------------------------------------
// Logo ids
// ---------------------------------------------------------------------------

/// One step of building a logo id: ASCII letters and digits are kept; a space,
/// `-`, `_` or `.` becomes one `_` unless the id is empty or already ends with a
/// separator; everything else is dropped.
pub open spec fn id_step(acc: (Seq<char>, bool), ch: char) -> (Seq<char>, bool) {
    let (out, last_sep) = acc;
    if is_ascii_alnum(ch) {
        (out.push(ch), false)
    } else if ch == ' ' || ch == '-' || ch == '_' || ch == '.' {
        if !last_sep && out.len() > 0 {
            (out.push('_'), true)
        } else {
            (out, last_sep)
        }
    } else {
        (out, last_sep)
    }
}

pub open spec fn id_fold(s: Seq<char>) -> (Seq<char>, bool)
    decreases s.len(),
{
    if s.len() == 0 {
        (Seq::empty(), false)
    } else {
        id_step(id_fold(s.drop_last()), s.last())
    }
}

/// The logo id for a name: its trimmed lower-case form folded by `id_step`,
/// without `_` at either end; `unknown` when nothing is left.
pub open spec fn logo_id_spec(raw: Seq<char>) -> Seq<char> {
    let n = strip_char(id_fold(lowercase(trim(raw))).0, '_');
    if n.len() == 0 {
        "unknown"@
    } else {
        n
    }
}

/// The logo id for a distribution name or id, such as `linux_mint` for
/// `Linux Mint`.
pub fn normalize_logo_id(raw: &str) -> (r: String)
    ensures
        r@ == logo_id_spec(raw@),
        is_logo_id(r@),
{
    let t = trim_str(raw);
    let lower = lowercase_chars(&t);
    let mut out: Vec<char> = Vec::new();
    let mut last_sep = false;
    let mut i: usize = 0;
    while i < lower.len()
        invariant
            i <= lower.len(),
            (out@, last_sep) == id_fold(lower@.take(i as int)),
        decreases lower.len() - i,
    {
        let ch = lower[i];
        assert(lower@.take(i + 1).drop_last() == lower@.take(i as int));
        if is_ascii_alphanumeric(ch) {
            out.push(ch);
            last_sep = false;
        } else if ch == ' ' || ch == '-' || ch == '_' || ch == '.' {
            if !last_sep && out.len() > 0 {
                out.push('_');
                last_sep = true;
            }
        }
        i = i + 1;
    }
    assert(lower@.take(lower.len() as int) == lower@);
    proof {
        lemma_logo_id_shape(raw@);
    }
    let n = strip_char_both(&out, '_');
    if n.len() == 0 {
        "unknown".to_owned()
    } else {
        string_of(&n)
    }
}

/// A character of a logo id: a lower-case ASCII letter, a digit or `_`.
pub open spec fn is_id_char(c: char) -> bool {
    ('a' <= c <= 'z') || ('0' <= c <= '9') || c == '_'
}

/// A logo id: nonempty, of lower-case ASCII letters, digits and `_`, with no `_`
/// at either end and never two in a row.
pub open spec fn is_logo_id(s: Seq<char>) -> bool {
    &&& s.len() > 0
    &&& forall|i: int| 0 <= i < s.len() ==> is_id_char(#[trigger] s[i])
    &&& s[0] != '_'
    &&& s.last() != '_'
    &&& forall|i: int| 0 <= i < s.len() - 1 ==> !(#[trigger] s[i] == '_' && s[i + 1] == '_')
}

pub open spec fn fold_shape(o: Seq<char>, last_sep: bool) -> bool {
    &&& forall|i: int| 0 <= i < o.len() ==> is_id_char(#[trigger] o[i])
    &&& forall|i: int| 0 <= i < o.len() - 1 ==> !(#[trigger] o[i] == '_' && o[i + 1] == '_')
    &&& (o.len() > 0 ==> o[0] != '_')
    &&& (last_sep <==> (o.len() > 0 && o.last() == '_'))
}

proof fn lemma_id_fold_shape(s: Seq<char>)
    requires
        no_ascii_upper(s),
    ensures
        fold_shape(id_fold(s).0, id_fold(s).1),
    decreases s.len(),
{
    if s.len() > 0 {
        let p = s.drop_last();
        assert forall|i: int| 0 <= i < p.len() implies !('A' <= #[trigger] p[i] <= 'Z') by {
            assert(p[i] == s[i]);
        }
        lemma_id_fold_shape(p);
        assert(!('A' <= s[s.len() - 1] <= 'Z'));
        let (o, l) = id_fold(p);
        let (o2, l2) = id_fold(s);
        assert(o2.len() == o.len() || o2 == o.push(o2.last()));
        if o2.len() > o.len() {
            assert forall|i: int| 0 <= i < o2.len() - 1 implies !(#[trigger] o2[i] == '_' && o2[i + 1]
                == '_') by {
                if i < o.len() - 1 {
                    assert(o2[i] == o[i] && o2[i + 1] == o[i + 1]);
                }
            }
            assert forall|i: int| 0 <= i < o2.len() implies is_id_char(#[trigger] o2[i]) by {
                if i < o.len() {
                    assert(o2[i] == o[i]);
                }
            }
        }
    }
}

proof fn lemma_strip_keeps_shape(s: Seq<char>)
    requires
        forall|i: int| 0 <= i < s.len() ==> is_id_char(#[trigger] s[i]),
        forall|i: int| 0 <= i < s.len() - 1 ==> !(#[trigger] s[i] == '_' && s[i + 1] == '_'),
    ensures
        strip_char(s, '_').len() > 0 ==> is_logo_id(strip_char(s, '_')),
    decreases s.len(),
{
    if s.len() > 0 && s[0] == '_' {
        let t = s.drop_first();
        assert forall|i: int| 0 <= i < t.len() - 1 implies !(#[trigger] t[i] == '_' && t[i + 1] == '_')
            by {
            assert(t[i] == s[i + 1] && t[i + 1] == s[i + 2]);
        }
        assert forall|i: int| 0 <= i < t.len() implies is_id_char(#[trigger] t[i]) by {
            assert(t[i] == s[i + 1]);
        }
        lemma_strip_keeps_shape(t);
    } else if s.len() > 0 && s.last() == '_' {
        let t = s.drop_last();
        assert forall|i: int| 0 <= i < t.len() - 1 implies !(#[trigger] t[i] == '_' && t[i + 1] == '_')
            by {
            assert(t[i] == s[i] && t[i + 1] == s[i + 1]);
        }
        assert forall|i: int| 0 <= i < t.len() implies is_id_char(#[trigger] t[i]) by {
            assert(t[i] == s[i]);
        }
        lemma_strip_keeps_shape(t);
    }
}

proof fn lemma_unknown_is_logo_id()
    ensures
        is_logo_id("unknown"@),
{
    reveal_strlit("unknown");
    let u = "unknown"@;
    assert(u.len() == 7);
    assert forall|i: int| 0 <= i < u.len() implies is_id_char(#[trigger] u[i]) by {}
}

proof fn lemma_proxmox_is_logo_id()
    ensures
        is_logo_id("proxmox"@),
{
    reveal_strlit("proxmox");
    let u = "proxmox"@;
    assert(u.len() == 7);
    assert forall|i: int| 0 <= i < u.len() implies is_id_char(#[trigger] u[i]) by {}
}

/// The logo id of a name whose lower-case form has no ASCII capital is nonempty,
/// made of lower-case ASCII letters, digits and single `_` between them.
proof fn lemma_logo_id_shape(raw: Seq<char>)
    requires
        no_ascii_upper(lowercase(trim(raw))),
    ensures
        is_logo_id(logo_id_spec(raw)),
{
    let f = id_fold(lowercase(trim(raw)));
    lemma_id_fold_shape(lowercase(trim(raw)));
    lemma_strip_keeps_shape(f.0);
    lemma_unknown_is_logo_id();
}


// ---------------------------------------------------------------------------
// The distribution
// ---------------------------------------------------------------------------

pub open spec fn words_of(o: Option<Seq<char>>) -> Seq<Seq<char>> {
    match o {
        Some(v) => split_words(v, Sep::Whitespace),
        None => Seq::empty(),
    }
}

/// Whether the system is Proxmox VE: its id or one of its `ID_LIKE` words is
/// `pve` or `proxmox`, or a Proxmox file (`pveversion`, `/etc/pve`) exists.
pub open spec fn looks_like_proxmox(e: Seq<(Seq<char>, Seq<char>)>, markers: bool) -> bool {
    ||| lookup(e, "ID"@) == Some("pve"@)
    ||| lookup(e, "ID"@) == Some("proxmox"@)
    ||| words_of(lookup(e, "ID_LIKE"@)).contains("proxmox"@)
    ||| words_of(lookup(e, "ID_LIKE"@)).contains("pve"@)
    ||| markers
}

/// The trimmed `VERSION_ID`, unless it is missing or blank.
pub open spec fn release_version(e: Seq<(Seq<char>, Seq<char>)>) -> Option<Seq<char>> {
    match lookup(e, "VERSION_ID"@) {
        Some(v) => if trim(v).len() > 0 {
            Some(trim(v))
        } else {
            None
        },
        None => None,
    }
}

/// The version in a `pveversion` line such as `pve-manager/8.1.4/...`: the part
/// after the first `/` of its first word, trimmed, unless blank.
pub open spec fn pve_line_version(line: Seq<char>) -> Option<Seq<char>> {
    let w = split_words(line, Sep::Whitespace);
    if w.len() == 0 {
        None
    } else {
        let parts = split_pieces(w[0], Sep::Char('/'));
        if parts.len() < 2 {
            None
        } else if trim(parts[1]).len() > 0 {
            Some(trim(parts[1]))
        } else {
            None
        }
    }
}

/// The version of the first line that has one.
pub open spec fn first_pve_version(ls: Seq<Seq<char>>) -> Option<Seq<char>>
    decreases ls.len(),
{
    if ls.len() == 0 {
        None
    } else {
        match pve_line_version(ls[0]) {
            Some(v) => Some(v),
            None => first_pve_version(ls.drop_first()),
        }
    }
}

/// The version that `pveversion` printed, when it ran.
pub open spec fn pveversion_spec(out: Option<Seq<u8>>) -> Option<Seq<char>> {
    match out {
        Some(b) => first_pve_version(lines_of(utf8_lossy(b))),
        None => None,
    }
}

/// The Proxmox version: from `os-release`, else from `pveversion`.
pub open spec fn proxmox_version_spec(
    e: Seq<(Seq<char>, Seq<char>)>,
    out: Option<Seq<u8>>,
) -> Option<Seq<char>> {
    match release_version(e) {
        Some(v) => Some(v),
        None => pveversion_spec(out),
    }
}

pub open spec fn proxmox_name(v: Option<Seq<char>>) -> Seq<char> {
    match v {
        Some(x) => "Proxmox VE "@ + x,
        None => "Proxmox VE"@,
    }
}

/// Whether Proxmox detection has to run `pveversion`: the system looks like
/// Proxmox and `os-release` gives no version.
pub fn needs_pveversion(release: &ReleaseInfo, proxmox_markers: bool) -> (r: bool)
    ensures
        r == (looks_like_proxmox(release@, proxmox_markers) && release_version(release@) is None),
{
    looks_proxmox(release, proxmox_markers) && version_from_release(release).is_none()
}

fn looks_proxmox(release: &ReleaseInfo, markers: bool) -> (r: bool)
    ensures
        r == looks_like_proxmox(release@, markers),
{
    let id = release.get("ID");
    let id_is = match &id {
        Some(v) => {
            let vc = chars_of(v.as_str());
            eq_str(&vc, "pve") || eq_str(&vc, "proxmox")
        },
        None => false,
    };
    if id_is {
        return true;
    }
    let like = match release.get("ID_LIKE") {
        Some(v) => chars_of(v.as_str()),
        None => Vec::new(),
    };
    assert(like@ == match lookup(release@, "ID_LIKE"@) {
        Some(v) => v,
        None => Seq::<char>::empty(),
    });
    let words = split_nonempty(&like, Sep::Whitespace);
    proof {
        lemma_split_words_empty(Sep::Whitespace);
    }
    has_word(&words, "proxmox") || has_word(&words, "pve") || markers
}

fn version_from_release(release: &ReleaseInfo) -> (r: Option<Vec<char>>)
    ensures
        match r {
            Some(v) => release_version(release@) == Some(v@),
            None => release_version(release@) is None,
        },
{
    match release.get("VERSION_ID") {
        Some(v) => {
            let t = trim_str(v.as_str());
            if t.len() > 0 {
                Some(t)
            } else {
                None
            }
        },
        None => None,
    }
}

fn pve_version_of_line(line: &Vec<char>) -> (r: Option<Vec<char>>)
    ensures
        match r {
            Some(v) => pve_line_version(line@) == Some(v@),
            None => pve_line_version(line@) is None,
        },
{
    let w = split_nonempty(line, Sep::Whitespace);
    if w.len() == 0 {
        return None;
    }
    assert(w@[0]@ == views(w@)[0]);
    let parts = split(&w[0], Sep::Char('/'));
    if parts.len() < 2 {
        return None;
    }
    assert(parts@[1]@ == views(parts@)[1]);
    let t = trim_chars(&parts[1]);
    if t.len() > 0 {
        Some(t)
    } else {
        None
    }
}

/// The Proxmox version that `pveversion` printed.
pub fn pveversion_from_output(stdout: &[u8]) -> (r: Option<String>)
    ensures
        opt_view(r) == pveversion_spec(Some(stdout@)),
{
    let text = lossy_string(stdout);
    let ls = lines(&chars_of(text.as_str()));
    let ghost lv = views(ls@);
    let mut i: usize = 0;
    assert(lv.skip(0) == lv);
    while i < ls.len()
        invariant
            i <= ls.len(),
            lv == views(ls@),
            lv == lines_of(utf8_lossy(stdout@)),
            first_pve_version(lv) == first_pve_version(lv.skip(i as int)),
        decreases ls.len() - i,
    {
        assert(lv.skip(i as int)[0] == ls@[i as int]@);
        assert(lv.skip(i as int).drop_first() == lv.skip(i + 1));
        match pve_version_of_line(&ls[i]) {
            Some(v) => {
                return Some(string_of(&v));
            },
            None => {},
        }
        i = i + 1;
    }
    None
}

/// The Proxmox distribution, if the system is Proxmox VE: named `Proxmox VE` with
/// its version when one is known, with the logo id `proxmox`. `pveversion_stdout`
/// is what `pveversion` printed, if it ran; it is read only when `os-release`
/// gives no version.
pub fn detect_proxmox(
    release: &ReleaseInfo,
    proxmox_markers: bool,
    pveversion_stdout: Option<&[u8]>,
) -> (r: Option<DistroInfo>)
    ensures
        match r {
            Some(d) => looks_like_proxmox(release@, proxmox_markers) && d.name@ == proxmox_name(
                proxmox_version_spec(
                    release@,
                    match pveversion_stdout {
                        Some(b) => Some(b@),
                        None => None,
                    },
                ),
            ) && d.id@ == "proxmox"@,
            None => !looks_like_proxmox(release@, proxmox_markers),
        },
{
    if !looks_proxmox(release, proxmox_markers) {
        return None;
    }
    let version: Option<Vec<char>> = match version_from_release(release) {
        Some(v) => Some(v),
        None => match pveversion_stdout {
            Some(b) => match pveversion_from_output(b) {
                Some(s) => Some(chars_of(s.as_str())),
                None => None,
            },
            None => None,
        },
    };
    let name = match version {
        Some(v) => {
            let mut out = chars_of("Proxmox VE ");
            extend_chars(&mut out, &v);
            string_of(&out)
        },
        None => "Proxmox VE".to_owned(),
    };
    Some(DistroInfo { name, id: "proxmox".to_owned() })
}

/// `PRETTY_NAME`, else `NAME`, else `Linux`.
pub open spec fn release_name(e: Seq<(Seq<char>, Seq<char>)>) -> Seq<char> {
    match lookup(e, "PRETTY_NAME"@) {
        Some(n) => n,
        None => match lookup(e, "NAME"@) {
            Some(n) => n,
            None => "Linux"@,
        },
    }
}

/// The release name followed by ` ({variant})` when `VARIANT` is set, not blank,
/// and not already part of the name (compared in lower case).
pub open spec fn name_with_variant(e: Seq<(Seq<char>, Seq<char>)>) -> Seq<char> {
    let name = release_name(e);
    match lookup(e, "VARIANT"@) {
        Some(v) => {
            let t = trim(v);
            if t.len() > 0 && !contains_seq(lowercase(name), lowercase(t)) {
                name + " ("@ + t + ")"@
            } else {
                name
            }
        },
        None => name,
    }
}

/// The variant is named once: when `VARIANT` is missing or blank, or the release
/// name (`PRETTY_NAME`, else `NAME`, else `Linux`) already contains it (compared
/// in lower case), the distribution name is the release name unchanged; otherwise
/// it is the release name followed by the trimmed variant in parentheses.
pub proof fn lemma_variant_named_once(e: Seq<(Seq<char>, Seq<char>)>)
    ensures
        ({
            let name = match lookup(e, "PRETTY_NAME"@) {
                Some(n) => n,
                None => match lookup(e, "NAME"@) {
                    Some(n) => n,
                    None => "Linux"@,
                },
            };
            match lookup(e, "VARIANT"@) {
                Some(v) => if trim(v).len() == 0 || contains_seq(lowercase(name), lowercase(trim(v))) {
                    name_with_variant(e) == name
                } else {
                    name_with_variant(e) == name + " ("@ + trim(v) + ")"@
                },
                None => name_with_variant(e) == name,
            }
        }),
{
}

/// The logo id of the first word whose id is not empty.
pub open spec fn first_like_id(words: Seq<Seq<char>>) -> Option<Seq<char>>
    decreases words.len(),
{
    if words.len() == 0 {
        None
    } else if logo_id_spec(words[0]).len() > 0 {
        Some(logo_id_spec(words[0]))
    } else {
        first_like_id(words.drop_first())
    }
}

/// The logo id: from `ID`, else from the first word of `ID_LIKE`, else from the
/// name.
pub open spec fn release_id(e: Seq<(Seq<char>, Seq<char>)>, name: Seq<char>) -> Seq<char> {
    let from_id = match lookup(e, "ID"@) {
        Some(raw) => if logo_id_spec(raw).len() > 0 {
            Some(logo_id_spec(raw))
        } else {
            None
        },
        None => None,
    };
    match from_id {
        Some(x) => x,
        None => match lookup(e, "ID_LIKE"@) {
            Some(like) => match first_like_id(split_words(like, Sep::Whitespace)) {
                Some(x) => x,
                None => logo_id_spec(name),
            },
            None => logo_id_spec(name),
        },
    }
}

/// Where the logo id comes from: `ID` when it is set; otherwise the first word of
/// `ID_LIKE` when it has one; otherwise the distribution name.
pub proof fn lemma_release_id_source(e: Seq<(Seq<char>, Seq<char>)>, name: Seq<char>)
    ensures
        match lookup(e, "ID"@) {
            Some(raw) => release_id(e, name) == logo_id_spec(raw),
            None => match lookup(e, "ID_LIKE"@) {
                Some(like) => if split_words(like, Sep::Whitespace).len() > 0 {
                    release_id(e, name) == logo_id_spec(split_words(like, Sep::Whitespace)[0])
                } else {
                    release_id(e, name) == logo_id_spec(name)
                },
                None => release_id(e, name) == logo_id_spec(name),
            },
        },
{
    reveal_strlit("unknown");
    match lookup(e, "ID"@) {
        Some(raw) => {
            assert(logo_id_spec(raw).len() > 0);
        },
        None => match lookup(e, "ID_LIKE"@) {
            Some(like) => {
                let w = split_words(like, Sep::Whitespace);
                if w.len() > 0 {
                    assert(logo_id_spec(w[0]).len() > 0);
                } else {
                    assert(first_like_id(w) is None);
                }
            },
            None => {},
        },
    }
}

/// The distribution that `os-release` describes.
pub fn build_distro_from_release(release: &ReleaseInfo) -> (d: DistroInfo)
    ensures
        d.name@ == name_with_variant(release@),
        d.id@ == release_id(release@, name_with_variant(release@)),
        is_logo_id(d.id@),
{
    let mut name: Vec<char> = match release.get("PRETTY_NAME") {
        Some(n) => chars_of(n.as_str()),
        None => match release.get("NAME") {
            Some(n) => chars_of(n.as_str()),
            None => chars_of("Linux"),
        },
    };
    match release.get("VARIANT") {
        Some(v) => {
            let t = trim_str(v.as_str());
            if t.len() > 0 {
                let ln = lowercase_chars(&name);
                let lt = lowercase_chars(&t);
                let lts = string_of(&lt);
                if !contains_str(&ln, lts.as_str()) {
                    extend_str(&mut name, " (");
                    extend_chars(&mut name, &t);
                    extend_str(&mut name, ")");
                }
            }
        },
        None => {},
    }
    let name_s = string_of(&name);
    let from_id: Option<String> = match release.get("ID") {
        Some(raw) => {
            let n = normalize_logo_id(raw.as_str());
            if !n.as_str().is_empty() {
                Some(n)
            } else {
                None
            }
        },
        None => None,
    };
    let id = match from_id {
        Some(x) => x,
        None => match release.get("ID_LIKE") {
            Some(like) => {
                let words = split_nonempty(&chars_of(like.as_str()), Sep::Whitespace);
                let ghost wv = views(words@);
                let mut found: Option<String> = None;
                let mut i: usize = 0;
                assert(wv.skip(0) == wv);
                while i < words.len() && found.is_none()
                    invariant
                        i <= words.len(),
                        wv == views(words@),
                        found is None ==> first_like_id(wv) == first_like_id(wv.skip(i as int)),
                        found matches Some(f) ==> first_like_id(wv) == Some(f@) && is_logo_id(f@),
                    decreases words.len() - i,
                {
                    assert(wv.skip(i as int)[0] == words@[i as int]@);
                    assert(wv.skip(i as int).drop_first() == wv.skip(i + 1));
                    let wi = string_of(&words[i]);
                    let cand = normalize_logo_id(wi.as_str());
                    assert(cand@ == logo_id_spec(wv.skip(i as int)[0]));
                    if !cand.as_str().is_empty() {
                        assert(first_like_id(wv.skip(i as int)) == Some(cand@));
                        found = Some(cand);
                    }
                    i = i + 1;
                }
                match found {
                    Some(f) => f,
                    None => {
                        assert(wv.skip(i as int).len() == 0);
                        normalize_logo_id(name_s.as_str())
                    },
                }
            },
            None => normalize_logo_id(name_s.as_str()),
        },
    };
    DistroInfo { name: name_s, id }
}

/// The distribution from the OS type and version when there is no `os-release`:
/// named after them, with the logo id of the OS type.
pub fn fallback_distro_from_os_info(os_type: &str, version: &str) -> (d: DistroInfo)
    ensures
        d.name@ == os_name_spec(os_type@, version@),
        d.id@ == logo_id_spec(os_type@),
        is_logo_id(d.id@),
{
    DistroInfo { name: os_name(os_type, version), id: normalize_logo_id(os_type) }
}

/// The Linux distribution: Proxmox VE when it looks like it, else what
/// `os-release` describes, else the OS type and version.
pub fn detect_distro(
    release: Option<&ReleaseInfo>,
    proxmox_markers: bool,
    pveversion_stdout: Option<&[u8]>,
    os_type: &str,
    os_version: &str,
) -> (d: DistroInfo)
    ensures
        match release {
            Some(rel) => if looks_like_proxmox(rel@, proxmox_markers) {
                d.name@ == proxmox_name(
                    proxmox_version_spec(
                        rel@,
                        match pveversion_stdout {
                            Some(b) => Some(b@),
                            None => None,
                        },
                    ),
                ) && d.id@ == "proxmox"@
            } else {
                d.name@ == name_with_variant(rel@) && d.id@ == release_id(
                    rel@,
                    name_with_variant(rel@),
                )
            },
            None => d.name@ == os_name_spec(os_type@, os_version@) && d.id@ == logo_id_spec(
                os_type@,
            ),
        },
        is_logo_id(d.id@),
{
    proof {
        lemma_proxmox_is_logo_id();
    }
    match release {
        Some(rel) => match detect_proxmox(rel, proxmox_markers, pveversion_stdout) {
            Some(p) => p,
            None => build_distro_from_release(rel),
        },
        None => fallback_distro_from_os_info(os_type, os_version),
    }
}


// ---------------------------------------------------------------------------
// Mounts and GPUs
// ---------------------------------------------------------------------------

/// The file system type of the first `/proc/mounts` line that mounts `/`.
pub open spec fn root_fs_spec(ls: Seq<Seq<char>>) -> Option<Seq<char>>
    decreases ls.len(),
{
    if ls.len() == 0 {
        None
    } else {
        let w = split_words(ls[0], Sep::Whitespace);
        if w.len() >= 3 && w[1] == "/"@ {
            Some(w[2])
        } else {
            root_fs_spec(ls.drop_first())
        }
    }
}

/// The root file system type from the text of `/proc/mounts`.
pub fn root_fs_type(mounts: &str) -> (r: Option<String>)
    ensures
        opt_view(r) == root_fs_spec(lines_of(mounts@)),
{
    let ls = lines(&chars_of(mounts));
    let ghost lv = views(ls@);
    let mut i: usize = 0;
    assert(lv.skip(0) == lv);
    while i < ls.len()
        invariant
            i <= ls.len(),
            lv == views(ls@),
            lv == lines_of(mounts@),
            root_fs_spec(lv) == root_fs_spec(lv.skip(i as int)),
        decreases ls.len() - i,
    {
        assert(lv.skip(i as int)[0] == ls@[i as int]@);
        assert(lv.skip(i as int).drop_first() == lv.skip(i + 1));
        let w = split_nonempty(&ls[i], Sep::Whitespace);
        assert(w.len() >= 3 ==> w@[1]@ == views(w@)[1]);
        if w.len() >= 3 && eq_str(&w[1], "/") {
            assert(w@[2]@ == views(w@)[2]);
            return Some(string_of(&w[2]));
        }
        i = i + 1;
    }
    None
}

/// Whether an `lspci` line describes a display controller.
pub open spec fn is_gpu_line(line: Seq<char>) -> bool {
    contains_seq(line, " VGA "@) || contains_seq(line, "3D controller"@)
}

/// The device name of an `lspci` line: the trimmed text after its last `:`.
pub open spec fn lspci_device(line: Seq<char>) -> Seq<char> {
    trim(split_pieces(line, Sep::Char(':')).last())
}

/// The device names of the display-controller lines, nonempty ones only, in
/// line order.
pub open spec fn lspci_candidates(ls: Seq<Seq<char>>) -> Seq<Seq<char>>
    decreases ls.len(),
{
    if ls.len() == 0 {
        Seq::empty()
    } else {
        let c = lspci_candidates(ls.drop_last());
        let l = ls.last();
        if is_gpu_line(l) && lspci_device(l).len() > 0 {
            c.push(lspci_device(l))
        } else {
            c
        }
    }
}

/// The GPU names in `lspci` output, sorted and each once.
pub fn gpu_names_from_lspci(stdout: &[u8]) -> (r: Vec<String>)
    ensures
        strictly_sorted(string_seq_views(r@)),
        forall|x: Seq<char>|
            string_seq_views(r@).contains(x) <==> lspci_candidates(
                lines_of(utf8_lossy(stdout@)),
            ).contains(x),
{
    let text = lossy_string(stdout);
    let ls = lines(&chars_of(text.as_str()));
    let ghost lv = views(ls@);
    let mut cands: Vec<Vec<char>> = Vec::new();
    let mut i: usize = 0;
    while i < ls.len()
        invariant
            i <= ls.len(),
            lv == views(ls@),
            views(cands@) == lspci_candidates(lv.take(i as int)),
        decreases ls.len() - i,
    {
        assert(lv.take(i + 1).drop_last() == lv.take(i as int));
        assert(lv.take(i + 1).last() == ls@[i as int]@);
        let line = &ls[i];
        if contains_str(line, " VGA ") || contains_str(line, "3D controller") {
            let pieces = split(line, Sep::Char(':'));
            proof {
                lemma_split_pieces_nonempty(line@, Sep::Char(':'));
            }
            let last = &pieces[pieces.len() - 1];
            assert(last@ == views(pieces@).last());
            let name = trim_chars(last);
            if name.len() > 0 {
                let ghost before = cands@;
                cands.push(name);
                assert(views(cands@) == views(before).push(name@));
            }
        }
        i = i + 1;
    }
    assert(lv.take(ls.len() as int) == lv);
    let sorted = sorted_unique(&cands);
    strings_of(&sorted)
}


// ---------------------------------------------------------------------------
// Storage
// ---------------------------------------------------------------------------

/// The lines of a command's output after its header line.
pub open spec fn body_lines(stdout: Seq<u8>) -> Seq<Seq<char>> {
    let ls = lines_of(utf8_lossy(stdout));
    if ls.len() == 0 {
        ls
    } else {
        ls.skip(1)
    }
}

/// The sizes on the first `df` line that has them.
pub open spec fn first_df_sizes(ls: Seq<Seq<char>>) -> Option<(u64, u64)>
    decreases ls.len(),
{
    if ls.len() == 0 {
        None
    } else {
        match df_line_spec(ls[0]) {
            Some(p) => Some(p),
            None => first_df_sizes(ls.drop_first()),
        }
    }
}

/// The entry for the root volume with the given sizes in kilobytes.
pub open spec fn root_entry_ok(e: StorageInfo, total: nat, used: nat, fs: Seq<char>) -> bool {
    &&& e.name@ == "/"@
    &&& e.total@ == format_bytes_spec(total)
    &&& e.used@ == format_bytes_spec(used)
    &&& e.percent == percent_spec(used, total)
    &&& e.fs_type@ == fs
    &&& !e.readonly
}

pub fn root_entry(total_kb: u64, used_kb: u64, fs_type: &str) -> (e: StorageInfo)
    ensures
        root_entry_ok(e, total_kb as nat, used_kb as nat, fs_type@),
{
    StorageInfo {
        name: "/".to_owned(),
        total: format_bytes(total_kb),
        used: format_bytes(used_kb),
        percent: calc_percent(used_kb, total_kb),
        fs_type: fs_type.to_owned(),
        readonly: false,
    }
}

/// The root volume from the output of `df -k /` (when it ran) and the root file
/// system type (`unknown` when it could not be read): one entry from the first
/// line after the header that has sizes, or none.
pub fn collect(df_stdout: Option<&[u8]>, root_fs: Option<&str>) -> (r: Vec<StorageInfo>)
    ensures
        match df_stdout {
            Some(out) => match first_df_sizes(body_lines(out@)) {
                Some((t, u)) => r.len() == 1 && root_entry_ok(
                    r[0],
                    t as nat,
                    u as nat,
                    match root_fs {
                        Some(f) => f@,
                        None => "unknown"@,
                    },
                ),
                None => r.len() == 0,
            },
            None => r.len() == 0,
        },
{
    let fs_type: &str = match root_fs {
        Some(f) => f,
        None => "unknown",
    };
    let mut storage: Vec<StorageInfo> = Vec::new();
    match df_stdout {
        Some(out) => {
            let text = lossy_string(out);
            let ls = lines(&chars_of(text.as_str()));
            let ghost lv = views(ls@);
            if ls.len() > 0 {
                let mut i: usize = 1;
                assert(lv.skip(1).skip(0) == lv.skip(1));
                while i < ls.len()
                    invariant
                        1 <= i <= ls.len(),
                        lv == views(ls@),
                        lv == lines_of(utf8_lossy(out@)),
                        storage.len() == 0,
                        df_stdout == Some(out),
                        first_df_sizes(lv.skip(1)) == first_df_sizes(lv.skip(i as int)),
                        fs_type@ == match root_fs {
                            Some(f) => f@,
                            None => "unknown"@,
                        },
                    decreases ls.len() - i,
                {
                    assert(lv.skip(i as int)[0] == ls@[i as int]@);
                    assert(lv.skip(i as int).drop_first() == lv.skip(i + 1));
                    match parse_df_line_chars(&ls[i]) {
                        Some((total_kb, used_kb)) => {
                            assert(first_df_sizes(lv.skip(i as int)) == Some((total_kb, used_kb)));
                            assert(body_lines(out@) == lv.skip(1));
                            let e = root_entry(total_kb, used_kb, fs_type);
                            storage.push(e);
                            assert(storage@[0] == e);
                            return storage;
                        },
                        None => {},
                    }
                    i = i + 1;
                }
            }
        },
        None => {},
    }
    storage
}


// ---------------------------------------------------------------------------
// CPU clock
// ---------------------------------------------------------------------------

/// The kilohertz in the text of `cpuinfo_max_freq`, if it is a number.
pub fn parse_cpufreq(contents: &str) -> (r: Option<u64>)
    ensures
        match r {
            Some(v) => crate::text::parse_unsigned(trim(contents@), 10, 0xffff_ffff_ffff_ffff)
                == Some(v as nat),
            None => crate::text::parse_unsigned(trim(contents@), 10, 0xffff_ffff_ffff_ffff) is None,
        },
{
    let t = trim_str(contents);
    crate::text::parse_uint(&t, 10, 0xffff_ffff_ffff_ffff)
}

/// The maximum CPU clock: from `cpufreq` in kilohertz when known, else from
/// `lscpu` in megahertz.
pub fn detect_cpu_max_frequency(cpufreq_khz: Option<u64>, lscpu_mhz: Option<u64>) -> (r: Option<
    String,
>)
    ensures
        match cpufreq_khz {
            Some(k) => r matches Some(s) && s@ == ghz_text_spec(k as nat, 1_000_000),
            None => match lscpu_mhz {
                Some(m) => r matches Some(s) && s@ == ghz_text_spec(m as nat, 1000),
                None => r is None,
            },
        },
{
    match cpufreq_khz {
        Some(k) => Some(format_ghz(k, 1_000_000)),
        None => match lscpu_mhz {
            Some(m) => Some(format_ghz(m, 1000)),
            None => None,
        },
    }
}

} // verus!
