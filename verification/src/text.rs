//! Character-sequence utilities: the string operations that the rest of the
//! library is written with, each stated over `Seq<char>`.
use vstd::prelude::*;

verus! {

/// Appends one character to a `String` (std `String::push`): the string grows by
/// exactly that character.
#[verifier::external_body]
pub(crate) fn push_char(s: &mut String, c: char)
    ensures
        final(s)@ == old(s)@.push(c),
{
    s.push(c);
}

/// The characters of a string slice, in order.
pub fn chars_of(s: &str) -> (v: Vec<char>)
    ensures
        v@ == s@,
{
    let mut v: Vec<char> = Vec::new();
    for c in it: s.chars()
        invariant
            v@ == it.seq().take(it.index() as int),
            it.seq() == s@,
    {
        v.push(c);
    }
    v
}

/// A `String` holding the given characters.
pub fn string_of(v: &Vec<char>) -> (s: String)
    ensures
        s@ == v@,
{
    let mut s = String::new();
    let mut i: usize = 0;
    while i < v.len()
        invariant
            i <= v.len(),
            s@ == v@.take(i as int),
        decreases v.len() - i,
    {
        push_char(&mut s, v[i]);
        assert(v@.take(i + 1) == v@.take(i as int).push(v@[i as int]));
        i = i + 1;
    }
    assert(v@.take(v.len() as int) == v@);
    s
}

/// Appends all characters of `src` to `dst`.
pub fn extend_chars(dst: &mut Vec<char>, src: &Vec<char>)
    ensures
        final(dst)@ == old(dst)@ + src@,
{
    let mut i: usize = 0;
    while i < src.len()
        invariant
            i <= src.len(),
            dst@ == old(dst)@ + src@.take(i as int),
        decreases src.len() - i,
    {
        dst.push(src[i]);
        assert(src@.take(i + 1) == src@.take(i as int).push(src@[i as int]));
        i = i + 1;
    }
    assert(src@.take(src.len() as int) == src@);
}

/// Appends the characters of a string slice to `dst`.
pub fn extend_str(dst: &mut Vec<char>, s: &str)
    ensures
        final(dst)@ == old(dst)@ + s@,
{
    let v = chars_of(s);
    extend_chars(dst, &v);
}

/// A copy of `v[start..end]`.
pub fn slice_chars(v: &Vec<char>, start: usize, end: usize) -> (r: Vec<char>)
    requires
        start <= end <= v.len(),
    ensures
        r@ == v@.subrange(start as int, end as int),
{
    let mut r: Vec<char> = Vec::new();
    let mut i = start;
    while i < end
        invariant
            start <= i <= end <= v.len(),
            r@ == v@.subrange(start as int, i as int),
        decreases end - i,
    {
        r.push(v[i]);
        assert(v@.subrange(start as int, i + 1) == v@.subrange(start as int, i as int).push(
            v@[i as int],
        ));
        i = i + 1;
    }
    r
}

/// Whether two character vectors hold the same characters.
pub fn chars_eq(a: &Vec<char>, b: &Vec<char>) -> (r: bool)
    ensures
        r == (a@ == b@),
{
    if a.len() != b.len() {
        return false;
    }
    let mut i: usize = 0;
    while i < a.len()
        invariant
            a.len() == b.len(),
            i <= a.len(),
            forall|j: int| 0 <= j < i ==> a@[j] == b@[j],
        decreases a.len() - i,
    {
        if a[i] != b[i] {
            return false;
        }
        i = i + 1;
    }
    assert(a@ =~= b@);
    true
}

/// Whether the characters equal those of a string slice.
pub fn eq_str(a: &Vec<char>, s: &str) -> (r: bool)
    ensures
        r == (a@ == s@),
{
    let b = chars_of(s);
    chars_eq(a, &b)
}

// ---------------------------------------------------------------------------
// Character classes
// ---------------------------------------------------------------------------

/// The Unicode `White_Space` property, which `char::is_whitespace` tests.
pub open spec fn is_white_space(c: char) -> bool {
    ||| '\u{9}' <= c <= '\u{d}'
    ||| c == ' '
    ||| c == '\u{85}'
    ||| c == '\u{a0}'
    ||| c == '\u{1680}'
    ||| '\u{2000}' <= c <= '\u{200a}'
    ||| c == '\u{2028}'
    ||| c == '\u{2029}'
    ||| c == '\u{202f}'
    ||| c == '\u{205f}'
    ||| c == '\u{3000}'
}

/// Whether `c` has the Unicode `White_Space` property.
pub fn is_whitespace(c: char) -> (r: bool)
    ensures
        r == is_white_space(c),
{
    ('\u{9}' <= c && c <= '\u{d}') || c == ' ' || c == '\u{85}' || c == '\u{a0}' || c
        == '\u{1680}' || ('\u{2000}' <= c && c <= '\u{200a}') || c == '\u{2028}' || c
        == '\u{2029}' || c == '\u{202f}' || c == '\u{205f}' || c == '\u{3000}'
}

pub open spec fn is_digit(c: char) -> bool {
    '0' <= c <= '9'
}

pub open spec fn is_ascii_alnum(c: char) -> bool {
    ||| '0' <= c <= '9'
    ||| 'a' <= c <= 'z'
    ||| 'A' <= c <= 'Z'
}

/// The value of `c` as a digit in the given radix (2 to 36), if it is one.
pub open spec fn digit_value(c: char, radix: nat) -> Option<nat> {
    let v: int = if '0' <= c <= '9' {
        c as int - '0' as int
    } else if 'a' <= c <= 'z' {
        c as int - 'a' as int + 10
    } else if 'A' <= c <= 'Z' {
        c as int - 'A' as int + 10
    } else {
        radix as int
    };
    if v < radix {
        Some(v as nat)
    } else {
        None
    }
}

pub fn is_ascii_alphanumeric(c: char) -> (r: bool)
    ensures
        r == is_ascii_alnum(c),
{
    ('0' <= c && c <= '9') || ('a' <= c && c <= 'z') || ('A' <= c && c <= 'Z')
}

pub fn char_digit_value(c: char, radix: u32) -> (r: Option<u32>)
    requires
        2 <= radix <= 36,
    ensures
        match r {
            Some(v) => digit_value(c, radix as nat) == Some(v as nat),
            None => digit_value(c, radix as nat) is None,
        },
{
    let v: u32 = if '0' <= c && c <= '9' {
        (c as u32) - ('0' as u32)
    } else if 'a' <= c && c <= 'z' {
        (c as u32) - ('a' as u32) + 10
    } else if 'A' <= c && c <= 'Z' {
        (c as u32) - ('A' as u32) + 10
    } else {
        radix
    };
    if v < radix {
        Some(v)
    } else {
        None
    }
}

// ---------------------------------------------------------------------------
// Trimming
// ---------------------------------------------------------------------------

/// `s` without its leading white space.
pub open spec fn trim_start(s: Seq<char>) -> Seq<char>
    decreases s.len(),
{
    if s.len() > 0 && is_white_space(s[0]) {
        trim_start(s.drop_first())
    } else {
        s
    }
}

/// `s` without its trailing white space.
pub open spec fn trim_end(s: Seq<char>) -> Seq<char>
    decreases s.len(),
{
    if s.len() > 0 && is_white_space(s.last()) {
        trim_end(s.drop_last())
    } else {
        s
    }
}

/// `s` without leading and trailing white space (what `str::trim` gives).
pub open spec fn trim(s: Seq<char>) -> Seq<char> {
    trim_end(trim_start(s))
}

proof fn lemma_trim_start_skip(s: Seq<char>, i: int)
    requires
        0 <= i <= s.len(),
        forall|j: int| 0 <= j < i ==> is_white_space(#[trigger] s[j]),
    ensures
        trim_start(s) == trim_start(s.subrange(i, s.len() as int)),
    decreases i,
{
    if i > 0 {
        assert(s.drop_first().subrange(i - 1, s.drop_first().len() as int) == s.subrange(
            i,
            s.len() as int,
        ));
        assert(is_white_space(s[0]));
        lemma_trim_start_skip(s.drop_first(), i - 1);
    } else {
        assert(s.subrange(0, s.len() as int) == s);
    }
}

proof fn lemma_trim_end_skip(s: Seq<char>, i: int)
    requires
        0 <= i <= s.len(),
        forall|j: int| i <= j < s.len() ==> is_white_space(#[trigger] s[j]),
    ensures
        trim_end(s) == trim_end(s.subrange(0, i)),
    decreases s.len() - i,
{
    if i < s.len() {
        assert(s.drop_last().subrange(0, i) == s.subrange(0, i));
        assert(is_white_space(s.last()));
        lemma_trim_end_skip(s.drop_last(), i);
    } else {
        assert(s.subrange(0, i) == s);
    }
}

/// The characters of `v` without leading and trailing white space.
pub fn trim_chars(v: &Vec<char>) -> (r: Vec<char>)
    ensures
        r@ == trim(v@),
{
    let mut i: usize = 0;
    while i < v.len() && is_whitespace(v[i])
        invariant
            i <= v.len(),
            forall|j: int| 0 <= j < i ==> is_white_space(#[trigger] v@[j]),
        decreases v.len() - i,
    {
        i = i + 1;
    }
    proof {
        lemma_trim_start_skip(v@, i as int);
    }
    let ghost rest = v@.subrange(i as int, v@.len() as int);
    assert(trim_start(rest) == rest);
    let mut j: usize = v.len();
    while j > i && is_whitespace(v[j - 1])
        invariant
            i <= j <= v.len(),
            forall|k: int| j <= k < v.len() ==> is_white_space(#[trigger] v@[k]),
        decreases j,
    {
        j = j - 1;
    }
    proof {
        let t = rest;
        assert forall|k: int| (j - i) <= k < t.len() implies is_white_space(#[trigger] t[k]) by {
            assert(t[k] == v@[k + i]);
        }
        lemma_trim_end_skip(t, j - i);
        assert(t.subrange(0, j - i) == v@.subrange(i as int, j as int));
        let u = t.subrange(0, j - i);
        if u.len() > 0 {
            assert(u.last() == v@[j - 1]);
        }
    }
    slice_chars(v, i, j)
}

/// The characters of a string slice without leading and trailing white space.
pub fn trim_str(s: &str) -> (r: Vec<char>)
    ensures
        r@ == trim(s@),
{
    let v = chars_of(s);
    trim_chars(&v)
}

// ---------------------------------------------------------------------------
// Prefixes, suffixes and search
// ---------------------------------------------------------------------------

pub open spec fn has_prefix(s: Seq<char>, p: Seq<char>) -> bool {
    p.len() <= s.len() && s.subrange(0, p.len() as int) == p
}

pub open spec fn has_suffix(s: Seq<char>, p: Seq<char>) -> bool {
    p.len() <= s.len() && s.subrange(s.len() - p.len(), s.len() as int) == p
}

/// `p` occurs in `s` starting at index `i`.
pub open spec fn occurs_at(s: Seq<char>, p: Seq<char>, i: int) -> bool {
    0 <= i && i + p.len() <= s.len() && s.subrange(i, i + p.len()) == p
}

pub open spec fn contains_seq(s: Seq<char>, p: Seq<char>) -> bool {
    exists|i: int| occurs_at(s, p, i)
}

/// The index of the first occurrence of `p` in `s` (what `str::find` gives, counted
/// in characters).
pub open spec fn find_first(s: Seq<char>, p: Seq<char>) -> Option<int> {
    if contains_seq(s, p) {
        Some(choose|i: int| occurs_at(s, p, i) && forall|j: int| 0 <= j < i ==> !occurs_at(s, p, j))
    } else {
        None
    }
}

/// The index of the last occurrence of `c` in `s`.
pub open spec fn find_last_char(s: Seq<char>, c: char) -> Option<int> {
    if s.contains(c) {
        Some(choose|i: int| 0 <= i < s.len() && s[i] == c && forall|j: int| i < j < s.len() ==> s[j] != c)
    } else {
        None
    }
}

proof fn lemma_first_occurrence_exists(s: Seq<char>, p: Seq<char>, k: int)
    requires
        occurs_at(s, p, k),
    ensures
        exists|i: int| occurs_at(s, p, i) && forall|j: int| 0 <= j < i ==> !occurs_at(s, p, j),
    decreases k,
{
    if exists|j: int| 0 <= j < k && occurs_at(s, p, j) {
        let j = choose|j: int| 0 <= j < k && occurs_at(s, p, j);
        lemma_first_occurrence_exists(s, p, j);
    } else {
        assert(occurs_at(s, p, k) && forall|j: int| 0 <= j < k ==> !occurs_at(s, p, j));
    }
}

/// `find_first` gives the first occurrence, or `None` when there is none.
pub proof fn lemma_find_first(s: Seq<char>, p: Seq<char>)
    ensures
        match find_first(s, p) {
            Some(i) => occurs_at(s, p, i) && i + p.len() <= s.len() && 0 <= i
                && forall|j: int| 0 <= j < i ==> !occurs_at(s, p, j),
            None => forall|j: int| !occurs_at(s, p, j),
        },
{
    if contains_seq(s, p) {
        let k = choose|k: int| occurs_at(s, p, k);
        lemma_first_occurrence_exists(s, p, k);
    }
}

proof fn lemma_last_occurrence_exists(s: Seq<char>, c: char, k: int)
    requires
        0 <= k < s.len(),
        s[k] == c,
    ensures
        exists|i: int| 0 <= i < s.len() && s[i] == c && forall|j: int| i < j < s.len() ==> s[j] != c,
    decreases s.len() - k,
{
    if exists|j: int| k < j < s.len() && s[j] == c {
        let j = choose|j: int| k < j < s.len() && s[j] == c;
        lemma_last_occurrence_exists(s, c, j);
    } else {
        assert(0 <= k < s.len() && s[k] == c && forall|j: int| k < j < s.len() ==> s[j] != c);
    }
}

/// `find_last_char` gives the last occurrence of `c`, or `None` when there is none.
pub proof fn lemma_find_last_char(s: Seq<char>, c: char)
    ensures
        match find_last_char(s, c) {
            Some(i) => 0 <= i < s.len() && s[i] == c && forall|j: int| i < j < s.len() ==> s[j] != c,
            None => !s.contains(c),
        },
{
    if s.contains(c) {
        let k = choose|k: int| 0 <= k < s.len() && s[k] == c;
        lemma_last_occurrence_exists(s, c, k);
    }
}

pub fn starts_with(s: &Vec<char>, p: &Vec<char>) -> (r: bool)
    ensures
        r == has_prefix(s@, p@),
{
    if p.len() > s.len() {
        return false;
    }
    let mut i: usize = 0;
    while i < p.len()
        invariant
            p.len() <= s.len(),
            i <= p.len(),
            forall|j: int| 0 <= j < i ==> s@[j] == p@[j],
        decreases p.len() - i,
    {
        if s[i] != p[i] {
            assert(s@.subrange(0, p@.len() as int)[i as int] != p@[i as int]);
            return false;
        }
        i = i + 1;
    }
    assert(s@.subrange(0, p@.len() as int) =~= p@);
    true
}

pub fn starts_with_str(s: &Vec<char>, p: &str) -> (r: bool)
    ensures
        r == has_prefix(s@, p@),
{
    let pv = chars_of(p);
    starts_with(s, &pv)
}

/// Whether `p` occurs in `s` at index `i`.
pub fn matches_at(s: &Vec<char>, p: &Vec<char>, i: usize) -> (r: bool)
    ensures
        r == occurs_at(s@, p@, i as int),
{
    if i > s.len() || p.len() > s.len() - i {
        return false;
    }
    let mut k: usize = 0;
    while k < p.len()
        invariant
            i + p.len() <= s.len(),
            k <= p.len(),
            forall|j: int| 0 <= j < k ==> s@[i + j] == p@[j],
        decreases p.len() - k,
    {
        if s[i + k] != p[k] {
            assert(s@.subrange(i as int, i + p@.len())[k as int] != p@[k as int]);
            return false;
        }
        k = k + 1;
    }
    assert(s@.subrange(i as int, i + p@.len()) =~= p@);
    true
}

pub fn ends_with_str(s: &Vec<char>, p: &str) -> (r: bool)
    ensures
        r == has_suffix(s@, p@),
{
    let pv = chars_of(p);
    if pv.len() > s.len() {
        return false;
    }
    matches_at(s, &pv, s.len() - pv.len())
}

/// The index of the first occurrence of `p` in `s`.
pub fn find(s: &Vec<char>, p: &Vec<char>) -> (r: Option<usize>)
    ensures
        match r {
            Some(i) => find_first(s@, p@) == Some(i as int),
            None => find_first(s@, p@) is None,
        },
{
    let mut i: usize = 0;
    loop
        invariant
            i <= s.len(),
            forall|j: int| 0 <= j < i ==> !occurs_at(s@, p@, j),
        ensures
            forall|j: int| 0 <= j <= s.len() ==> !occurs_at(s@, p@, j),
        decreases s.len() - i,
    {
        if matches_at(s, p, i) {
            assert(contains_seq(s@, p@));
            let ghost c = choose|k: int|
                occurs_at(s@, p@, k) && forall|j: int| 0 <= j < k ==> !occurs_at(s@, p@, j);
            assert(occurs_at(s@, p@, c) && forall|j: int| 0 <= j < c ==> !occurs_at(s@, p@, j)) by {
                assert(occurs_at(s@, p@, i as int) && forall|j: int| 0 <= j < i ==> !occurs_at(s@, p@, j));
            }
            assert(c == i) by {
                if c < i {
                } else if c > i {
                    assert(!occurs_at(s@, p@, i as int));
                }
            }
            return Some(i);
        }
        if i == s.len() {
            break;
        }
        i = i + 1;
    }
    assert(!contains_seq(s@, p@)) by {
        assert forall|k: int| !occurs_at(s@, p@, k) by {
            if 0 <= k <= s.len() {
            }
        }
    }
    None
}

pub fn find_str(s: &Vec<char>, p: &str) -> (r: Option<usize>)
    ensures
        match r {
            Some(i) => find_first(s@, p@) == Some(i as int),
            None => find_first(s@, p@) is None,
        },
{
    let pv = chars_of(p);
    find(s, &pv)
}

pub fn contains_str(s: &Vec<char>, p: &str) -> (r: bool)
    ensures
        r == contains_seq(s@, p@),
{
    match find_str(s, p) {
        Some(_) => true,
        None => false,
    }
}

pub fn contains_char(s: &Vec<char>, c: char) -> (r: bool)
    ensures
        r == s@.contains(c),
{
    let mut i: usize = 0;
    while i < s.len()
        invariant
            i <= s.len(),
            forall|j: int| 0 <= j < i ==> s@[j] != c,
        decreases s.len() - i,
    {
        if s[i] == c {
            return true;
        }
        i = i + 1;
    }
    false
}

/// The index of the last occurrence of `c` in `s`.
pub fn rfind_char(s: &Vec<char>, c: char) -> (r: Option<usize>)
    ensures
        match r {
            Some(i) => find_last_char(s@, c) == Some(i as int),
            None => find_last_char(s@, c) is None,
        },
{
    let mut i: usize = s.len();
    while i > 0
        invariant
            i <= s.len(),
            forall|j: int| i <= j < s.len() ==> s@[j] != c,
        decreases i,
    {
        if s[i - 1] == c {
            let ghost k = choose|k: int|
                0 <= k < s@.len() && s@[k] == c && forall|j: int| k < j < s@.len() ==> s@[j] != c;
            assert(s@.contains(c)) by {
                assert(s@[i - 1] == c);
            }
            assert(0 <= k < s@.len() && s@[k] == c && forall|j: int| k < j < s@.len() ==> s@[j] != c) by {
                assert(s@[i - 1] == c);
            }
            assert(k == i - 1);
            return Some(i - 1);
        }
        i = i - 1;
    }
    None
}

// ---------------------------------------------------------------------------
// Lower case
// ---------------------------------------------------------------------------

/// What `str::to_lowercase` gives for the given characters (Unicode lower case).
pub uninterp spec fn lowercase(s: Seq<char>) -> Seq<char>;

pub open spec fn ascii_lower_char(c: char) -> char {
    if 'A' <= c <= 'Z' {
        ((c as u32) + 32) as char
    } else {
        c
    }
}

pub open spec fn ascii_lower(s: Seq<char>) -> Seq<char> {
    s.map_values(|c: char| ascii_lower_char(c))
}

/// No character is an ASCII capital letter `A`..`Z`.
pub open spec fn no_ascii_upper(s: Seq<char>) -> bool {
    forall|i: int| 0 <= i < s.len() ==> !('A' <= #[trigger] s[i] <= 'Z')
}

/// std `str::to_lowercase`. The result is named `lowercase`; the facts stated
/// beside it are that on ASCII input each letter `A`..`Z` becomes `a`..`z` and every
/// other character stays, and that no character of the result is an ASCII capital
/// (Unicode lower case maps `A`..`Z` to `a`..`z` and never yields them). What
/// Unicode lower case gives for other characters is left to the name.
#[verifier::external_body]
pub(crate) fn str_to_lowercase(s: &str) -> (r: String)
    ensures
        r@ == lowercase(s@),
        vstd::utf8::is_ascii_chars(s@) ==> r@ == ascii_lower(s@),
        no_ascii_upper(r@),
{
    s.to_lowercase()
}

/// What `str::to_uppercase` gives for the given characters (Unicode upper case).
pub uninterp spec fn uppercase(s: Seq<char>) -> Seq<char>;

pub open spec fn ascii_upper_char(c: char) -> char {
    if 'a' <= c <= 'z' {
        ((c as u32) - 32) as char
    } else {
        c
    }
}

pub open spec fn ascii_upper(s: Seq<char>) -> Seq<char> {
    s.map_values(|c: char| ascii_upper_char(c))
}

/// std `str::to_uppercase`. The result is named `uppercase`; the one fact stated
/// beside it is that on ASCII input each letter `a`..`z` becomes `A`..`Z` and every
/// other character stays.
#[verifier::external_body]
pub(crate) fn str_to_uppercase(s: &str) -> (r: String)
    ensures
        r@ == uppercase(s@),
        vstd::utf8::is_ascii_chars(s@) ==> r@ == ascii_upper(s@),
{
    s.to_uppercase()
}

/// The characters with ASCII letters in lower case (what
/// `to_ascii_lowercase` gives).
pub fn ascii_lowercase(v: &Vec<char>) -> (r: Vec<char>)
    ensures
        r@ == ascii_lower(v@),
{
    let mut r: Vec<char> = Vec::new();
    let mut i: usize = 0;
    while i < v.len()
        invariant
            i <= v.len(),
            r@ == ascii_lower(v@.take(i as int)),
        decreases v.len() - i,
    {
        let c = v[i];
        let l = if 'A' <= c && c <= 'Z' {
            ((c as u8) + 32) as char
        } else {
            c
        };
        assert(l == ascii_lower_char(c)) by {
            if 'A' <= c && c <= 'Z' {
                assert((c as u8) as u32 == c as u32);
            }
        }
        r.push(l);
        assert(v@.take(i + 1) == v@.take(i as int).push(c));
        assert(ascii_lower(v@.take(i + 1)) == ascii_lower(v@.take(i as int)).push(l));
        i = i + 1;
    }
    assert(v@.take(v.len() as int) == v@);
    r
}

/// The lower-case form of the given characters.
pub fn lowercase_chars(v: &Vec<char>) -> (r: Vec<char>)
    ensures
        r@ == lowercase(v@),
        vstd::utf8::is_ascii_chars(v@) ==> r@ == ascii_lower(v@),
        no_ascii_upper(r@),
{
    let s = string_of(v);
    let l = str_to_lowercase(s.as_str());
    chars_of(l.as_str())
}

// ---------------------------------------------------------------------------
// Decimal numbers
// ---------------------------------------------------------------------------

pub open spec fn digit_char(d: nat) -> char {
    ((d + 48) as u32) as char
}

/// The decimal representation of `n`, without leading zeros.
pub open spec fn decimal(n: nat) -> Seq<char>
    decreases n,
{
    if n < 10 {
        seq![digit_char(n)]
    } else {
        decimal(n / 10).push(digit_char(n % 10))
    }
}

fn digit_to_char(d: u64) -> (c: char)
    requires
        d < 10,
    ensures
        c == digit_char(d as nat),
{
    let b: u8 = (d as u8) + 48;
    b as char
}

/// Appends the decimal representation of `n`.
pub fn push_decimal(out: &mut Vec<char>, n: u64)
    ensures
        final(out)@ == old(out)@ + decimal(n as nat),
    decreases n,
{
    if n >= 10 {
        push_decimal(out, n / 10);
    }
    let c = digit_to_char(n % 10);
    out.push(c);
    if n >= 10 {
        assert(old(out)@ + decimal(n as nat) == old(out)@ + decimal((n / 10) as nat) + seq![c]);
    } else {
        assert(decimal(n as nat) == seq![c]);
    }
}

/// Appends the decimal representation of a 128-bit `n`.
pub fn push_decimal_wide(out: &mut Vec<char>, n: u128)
    ensures
        final(out)@ == old(out)@ + decimal(n as nat),
    decreases n,
{
    if n >= 10 {
        push_decimal_wide(out, n / 10);
    }
    let d = (n % 10) as u64;
    let c = digit_to_char(d);
    out.push(c);
    if n >= 10 {
        assert(old(out)@ + decimal(n as nat) == old(out)@ + decimal((n / 10) as nat) + seq![c]);
    } else {
        assert(decimal(n as nat) == seq![c]);
    }
}

// ---------------------------------------------------------------------------
// Integer parsing
// ---------------------------------------------------------------------------

/// The value of a nonempty run of digits in the given radix, or `None` when some
/// character is not such a digit.
pub open spec fn digits_value(d: Seq<char>, radix: nat) -> Option<nat>
    decreases d.len(),
{
    if d.len() == 0 {
        Some(0)
    } else {
        match (digits_value(d.drop_last(), radix), digit_value(d.last(), radix)) {
            (Some(a), Some(b)) => Some(a * radix + b),
            _ => None,
        }
    }
}

/// What `from_str_radix` gives for an unsigned type whose largest value is `max`:
/// an optional `+` followed by at least one digit, with a value of at most `max`.
pub open spec fn parse_unsigned(s: Seq<char>, radix: nat, max: nat) -> Option<nat> {
    let d = if s.len() > 0 && s[0] == '+' {
        s.drop_first()
    } else {
        s
    };
    if d.len() == 0 {
        None
    } else {
        match digits_value(d, radix) {
            Some(v) => if v <= max {
                Some(v)
            } else {
                None
            },
            None => None,
        }
    }
}

/// What `str::parse::<i32>` gives: an optional sign followed by at least one
/// decimal digit, with the value in the range of `i32`.
pub open spec fn parse_i32(s: Seq<char>) -> Option<int> {
    if s.len() > 0 && s[0] == '-' {
        match parse_unsigned(s.drop_first(), 10, 0x8000_0000) {
            Some(v) => if s.len() > 1 && s[1] != '+' {
                Some(-v)
            } else {
                None
            },
            None => None,
        }
    } else {
        match parse_unsigned(s, 10, 0x7fff_ffff) {
            Some(v) => Some(v as int),
            None => None,
        }
    }
}

proof fn lemma_digits_value_grows(d: Seq<char>, radix: nat, k: int)
    requires
        0 <= k <= d.len(),
        radix >= 1,
        digits_value(d.take(k), radix) is Some,
        digits_value(d, radix) is Some,
    ensures
        digits_value(d, radix)->0 >= digits_value(d.take(k), radix)->0,
    decreases d.len(),
{
    if k < d.len() {
        let a = digits_value(d.drop_last(), radix)->0;
        let b = digit_value(d.last(), radix)->0;
        assert(d.drop_last().take(k) == d.take(k));
        lemma_digits_value_grows(d.drop_last(), radix, k);
        assert(a * radix >= a) by (nonlinear_arith)
            requires
                radix >= 1,
        ;
    } else {
        assert(d.take(k) == d);
    }
}

proof fn lemma_digits_value_prefix_none(d: Seq<char>, radix: nat, k: int)
    requires
        0 <= k <= d.len(),
        digits_value(d.take(k), radix) is None,
    ensures
        digits_value(d, radix) is None,
    decreases d.len(),
{
    if k < d.len() {
        assert(d.drop_last().take(k) == d.take(k));
        lemma_digits_value_prefix_none(d.drop_last(), radix, k);
    } else {
        assert(d.take(k) == d);
    }
}

/// The value of the digits `d` if it is at most `max`.
fn digits_upto(d: &Vec<char>, start: usize, radix: u32, max: u64) -> (r: Option<u64>)
    requires
        2 <= radix <= 36,
        start <= d.len(),
    ensures
        ({
            let ds = d@.subrange(start as int, d@.len() as int);
            match r {
                Some(v) => digits_value(ds, radix as nat) == Some(v as nat) && v <= max,
                None => digits_value(ds, radix as nat) is None || digits_value(ds, radix as nat)->0 > max,
            }
        }),
{
    let ghost ds = d@.subrange(start as int, d@.len() as int);
    let mut acc: u64 = 0;
    let mut i = start;
    assert(ds.take(0) == Seq::<char>::empty());
    while i < d.len()
        invariant
            start <= i <= d.len(),
            2 <= radix <= 36,
            ds == d@.subrange(start as int, d@.len() as int),
            digits_value(ds.take(i - start), radix as nat) == Some(acc as nat),
            acc <= max,
        decreases d.len() - i,
    {
        let k = i - start;
        assert(ds.take(k + 1).drop_last() == ds.take(k as int));
        assert(ds.take(k + 1).last() == d@[i as int]);
        match char_digit_value(d[i], radix) {
            None => {
                proof {
                    lemma_digits_value_prefix_none(ds, radix as nat, k + 1);
                }
                return None;
            },
            Some(dv) => {
                assert((acc as u128) * (radix as u128) <= 0xffff_ffff_ffff_ffffu128 * 36) by (nonlinear_arith)
                    requires
                        acc <= 0xffff_ffff_ffff_ffffu64,
                        radix <= 36,
                ;
                let next: u128 = (acc as u128) * (radix as u128) + (dv as u128);
                if next > max as u128 {
                    proof {
                        if digits_value(ds, radix as nat) is Some {
                            lemma_digits_value_grows(ds, radix as nat, k + 1);
                        }
                    }
                    return None;
                }
                acc = next as u64;
            },
        }
        i = i + 1;
    }
    assert(ds.take(d.len() - start) == ds);
    Some(acc)
}

/// Parses an unsigned integer as `from_str_radix` does for a type whose largest
/// value is `max`.
pub fn parse_uint(s: &Vec<char>, radix: u32, max: u64) -> (r: Option<u64>)
    requires
        2 <= radix <= 36,
    ensures
        match r {
            Some(v) => parse_unsigned(s@, radix as nat, max as nat) == Some(v as nat),
            None => parse_unsigned(s@, radix as nat, max as nat) is None,
        },
{
    let start: usize = if s.len() > 0 && s[0] == '+' {
        1
    } else {
        0
    };
    proof {
        if start == 1 {
            assert(s@.drop_first() == s@.subrange(1, s@.len() as int));
        } else {
            assert(s@ == s@.subrange(0, s@.len() as int));
        }
    }
    if start == s.len() {
        return None;
    }
    digits_upto(s, start, radix, max)
}

/// Parses a decimal `i32` as `str::parse::<i32>` does.
pub fn parse_int32(s: &Vec<char>) -> (r: Option<i32>)
    ensures
        match r {
            Some(v) => parse_i32(s@) == Some(v as int),
            None => parse_i32(s@) is None,
        },
{
    if s.len() > 0 && s[0] == '-' {
        let rest = slice_chars(s, 1, s.len());
        assert(rest@ == s@.drop_first());
        if s.len() > 1 && s[1] == '+' {
            return None;
        }
        match parse_uint(&rest, 10, 0x8000_0000) {
            Some(v) => {
                if v == 0x8000_0000 {
                    Some(-2147483648i32)
                } else {
                    Some(-(v as i32))
                }
            },
            None => None,
        }
    } else {
        match parse_uint(s, 10, 0x7fff_ffff) {
            Some(v) => Some(v as i32),
            None => None,
        }
    }
}

// ---------------------------------------------------------------------------
// UTF-8 lengths
// ---------------------------------------------------------------------------

/// The number of bytes of the UTF-8 encoding of `c`.
pub open spec fn utf8_width(c: char) -> nat {
    if (c as u32) < 0x80 {
        1
    } else if (c as u32) < 0x800 {
        2
    } else if (c as u32) < 0x10000 {
        3
    } else {
        4
    }
}

/// The number of bytes of the UTF-8 encoding of `s` (what `str::len` gives).
pub open spec fn byte_len(s: Seq<char>) -> nat
    decreases s.len(),
{
    if s.len() == 0 {
        0
    } else {
        byte_len(s.drop_last()) + utf8_width(s.last())
    }
}

pub fn char_width(c: char) -> (r: u128)
    ensures
        r == utf8_width(c),
{
    let u = c as u32;
    if u < 0x80 {
        1
    } else if u < 0x800 {
        2
    } else if u < 0x10000 {
        3
    } else {
        4
    }
}

pub proof fn lemma_byte_len_bound(s: Seq<char>)
    ensures
        byte_len(s) <= 4 * s.len(),
    decreases s.len(),
{
    if s.len() > 0 {
        lemma_byte_len_bound(s.drop_last());
    }
}

/// The number of bytes of the UTF-8 encoding of the characters.
pub fn byte_length(v: &Vec<char>) -> (r: u128)
    ensures
        r == byte_len(v@),
{
    let mut total: u128 = 0;
    let mut i: usize = 0;
    while i < v.len()
        invariant
            i <= v.len(),
            total == byte_len(v@.take(i as int)),
        decreases v.len() - i,
    {
        proof {
            assert(v@.take(i + 1).drop_last() == v@.take(i as int));
            lemma_byte_len_bound(v@.take(i as int));
        }
        total = total + char_width(v[i]);
        i = i + 1;
    }
    assert(v@.take(v.len() as int) == v@);
    total
}

// ---------------------------------------------------------------------------
// Splitting
// ---------------------------------------------------------------------------

/// The separators by which text is split.
#[derive(Clone, Copy)]
pub enum Sep {
    /// White space, as `split_whitespace` splits.
    Whitespace,
    /// `,` or white space.
    CommaOrWhitespace,
    /// White space or `+`.
    WhitespaceOrPlus,
    /// `;`, `,` or white space.
    SemicolonCommaOrWhitespace,
    /// Anything but an ASCII letter or digit.
    NotAlphanumeric,
    /// One given character.
    Char(char),
}

pub open spec fn is_sep(k: Sep, c: char) -> bool {
    match k {
        Sep::Whitespace => is_white_space(c),
        Sep::CommaOrWhitespace => c == ',' || is_white_space(c),
        Sep::WhitespaceOrPlus => is_white_space(c) || c == '+',
        Sep::SemicolonCommaOrWhitespace => c == ';' || c == ',' || is_white_space(c),
        Sep::NotAlphanumeric => !is_ascii_alnum(c),
        Sep::Char(x) => c == x,
    }
}

pub fn sep_test(k: Sep, c: char) -> (r: bool)
    ensures
        r == is_sep(k, c),
{
    match k {
        Sep::Whitespace => is_whitespace(c),
        Sep::CommaOrWhitespace => c == ',' || is_whitespace(c),
        Sep::WhitespaceOrPlus => is_whitespace(c) || c == '+',
        Sep::SemicolonCommaOrWhitespace => c == ';' || c == ',' || is_whitespace(c),
        Sep::NotAlphanumeric => !is_ascii_alphanumeric(c),
        Sep::Char(x) => c == x,
    }
}

/// The pieces of `s` between separators, empty pieces included (what `str::split`
/// gives).
pub open spec fn split_pieces(s: Seq<char>, k: Sep) -> Seq<Seq<char>>
    decreases s.len(),
{
    if s.len() == 0 {
        seq![Seq::<char>::empty()]
    } else {
        let p = split_pieces(s.drop_last(), k);
        if is_sep(k, s.last()) {
            p.push(Seq::<char>::empty())
        } else {
            p.update(p.len() - 1, p.last().push(s.last()))
        }
    }
}

pub open spec fn is_nonempty(p: Seq<char>) -> bool {
    p.len() > 0
}

/// The nonempty pieces of `s` between separators.
pub open spec fn split_words(s: Seq<char>, k: Sep) -> Seq<Seq<char>> {
    split_pieces(s, k).filter(|p: Seq<char>| is_nonempty(p))
}

pub open spec fn views(v: Seq<Vec<char>>) -> Seq<Seq<char>> {
    v.map_values(|x: Vec<char>| x@)
}

pub proof fn lemma_split_pieces_nonempty(s: Seq<char>, k: Sep)
    ensures
        split_pieces(s, k).len() >= 1,
    decreases s.len(),
{
    if s.len() > 0 {
        lemma_split_pieces_nonempty(s.drop_last(), k);
    }
}

/// Empty text has no words.
pub proof fn lemma_split_words_empty(k: Sep)
    ensures
        split_words(Seq::<char>::empty(), k).len() == 0,
{
    let e = Seq::<char>::empty();
    assert(split_pieces(e, k) == Seq::<Seq<char>>::empty().push(e));
    Seq::<Seq<char>>::empty().lemma_filter_push(e, |p: Seq<char>| is_nonempty(p));
    assert(Seq::<Seq<char>>::empty().filter(|p: Seq<char>| is_nonempty(p)) == Seq::<Seq<char>>::empty())
        by {
        reveal(Seq::filter);
    }
}

/// The pieces of `v` between separators, empty pieces included.
pub fn split(v: &Vec<char>, k: Sep) -> (r: Vec<Vec<char>>)
    ensures
        views(r@) == split_pieces(v@, k),
{
    let mut pieces: Vec<Vec<char>> = Vec::new();
    let mut cur: Vec<char> = Vec::new();
    let mut i: usize = 0;
    assert(v@.take(0) == Seq::<char>::empty());
    assert(views(pieces@).push(cur@) == split_pieces(v@.take(0), k));
    while i < v.len()
        invariant
            i <= v.len(),
            views(pieces@).push(cur@) == split_pieces(v@.take(i as int), k),
        decreases v.len() - i,
    {
        let c = v[i];
        proof {
            assert(v@.take(i + 1).drop_last() == v@.take(i as int));
            assert(v@.take(i + 1).last() == c);
        }
        if sep_test(k, c) {
            let ghost old_pieces = pieces@;
            let done = cur;
            pieces.push(done);
            cur = Vec::new();
            assert(views(pieces@) == views(old_pieces).push(done@));
        } else {
            let ghost old_cur = cur@;
            cur.push(c);
            assert(views(pieces@).push(cur@) == views(pieces@).push(old_cur).update(
                views(pieces@).len() as int,
                old_cur.push(c),
            ));
        }
        i = i + 1;
    }
    let ghost before = pieces@;
    pieces.push(cur);
    assert(views(pieces@) == views(before).push(cur@));
    assert(v@.take(v.len() as int) == v@);
    pieces
}

/// The nonempty pieces of `v` between separators.
pub fn split_nonempty(v: &Vec<char>, k: Sep) -> (r: Vec<Vec<char>>)
    ensures
        views(r@) == split_words(v@, k),
{
    let all = split(v, k);
    let mut out: Vec<Vec<char>> = Vec::new();
    let mut j: usize = 0;
    let ghost pred = |p: Seq<char>| is_nonempty(p);
    assert(views(all@).take(0) == Seq::<Seq<char>>::empty());
    assert(Seq::<Seq<char>>::empty().filter(pred) == Seq::<Seq<char>>::empty()) by {
        reveal(Seq::filter);
    }
    while j < all.len()
        invariant
            j <= all.len(),
            views(out@) == views(all@).take(j as int).filter(pred),
            pred == (|p: Seq<char>| is_nonempty(p)),
        decreases all.len() - j,
    {
        proof {
            assert(views(all@).take(j + 1) == views(all@).take(j as int).push(all@[j as int]@));
            views(all@).take(j as int).lemma_filter_push(all@[j as int]@, pred);
        }
        if all[j].len() > 0 {
            let ghost before = out@;
            out.push(all[j].clone());
            assert(views(out@) == views(before).push(all@[j as int]@));
        }
        j = j + 1;
    }
    assert(views(all@).take(all.len() as int) == views(all@));
    out
}

/// `p` without a final `\r`.
pub open spec fn strip_cr(p: Seq<char>) -> Seq<char> {
    if p.len() > 0 && p.last() == '\r' {
        p.drop_last()
    } else {
        p
    }
}

/// The lines of `s`, as `str::lines` gives them: split at `\n`, a `\r` before a
/// `\n` dropped, and no empty last line after a final `\n`.
pub open spec fn lines_of(s: Seq<char>) -> Seq<Seq<char>> {
    let raw = split_pieces(s, Sep::Char('\n'));
    let body = if s.len() == 0 || s.last() == '\n' {
        raw.drop_last()
    } else {
        raw
    };
    Seq::new(
        body.len(),
        |i: int|
            if i < raw.len() - 1 {
                strip_cr(body[i])
            } else {
                body[i]
            },
    )
}

pub open spec fn is_newline_terminated(s: Seq<char>) -> bool {
    s.len() == 0 || s.last() == '\n'
}

/// The lines of `v`.
pub fn lines(v: &Vec<char>) -> (r: Vec<Vec<char>>)
    ensures
        views(r@) == lines_of(v@),
{
    let raw = split(v, Sep::Char('\n'));
    proof {
        lemma_split_pieces_nonempty(v@, Sep::Char('\n'));
    }
    let n = if v.len() == 0 || v[v.len() - 1] == '\n' {
        raw.len() - 1
    } else {
        raw.len()
    };
    let ghost body = if v@.len() == 0 || v@.last() == '\n' {
        views(raw@).drop_last()
    } else {
        views(raw@)
    };
    let mut out: Vec<Vec<char>> = Vec::new();
    let mut i: usize = 0;
    while i < n
        invariant
            i <= n,
            n == body.len(),
            n <= raw.len(),
            body.len() <= views(raw@).len(),
            forall|j: int| 0 <= j < body.len() ==> body[j] == raw@[j]@,
            views(out@).len() == i,
            forall|j: int|
                0 <= j < i ==> #[trigger] views(out@)[j] == (if j < raw.len() - 1 {
                    strip_cr(body[j])
                } else {
                    body[j]
                }),
        decreases n - i,
    {
        let piece = &raw[i];
        let mut line = piece.clone();
        if i + 1 < raw.len() && line.len() > 0 && line[line.len() - 1] == '\r' {
            line.pop();
            assert(line@ == piece@.drop_last());
        }
        let ghost before = out@;
        out.push(line);
        assert(views(out@) == views(before).push(line@));
        i = i + 1;
    }
    assert(views(out@) =~= lines_of(v@));
    out
}

pub proof fn lemma_byte_len_take_step(s: Seq<char>, i: int)
    requires
        0 <= i < s.len(),
    ensures
        byte_len(s.take(i + 1)) == byte_len(s.take(i)) + utf8_width(s[i]),
{
    assert(s.take(i + 1).drop_last() == s.take(i));
}

pub proof fn lemma_byte_len_take_increasing(s: Seq<char>, i: int, j: int)
    requires
        0 <= i < j <= s.len(),
    ensures
        byte_len(s.take(i)) < byte_len(s.take(j)),
    decreases j - i,
{
    lemma_byte_len_take_step(s, j - 1);
    if i < j - 1 {
        lemma_byte_len_take_increasing(s, i, j - 1);
    }
}

/// The index of the character that starts at byte `k` of the UTF-8 encoding of `s`
/// (`s.len()` for the end), or `None` when byte `k` is inside a character or past
/// the end.
pub open spec fn char_index_at_byte(s: Seq<char>, k: nat) -> Option<int> {
    if exists|i: int| 0 <= i <= s.len() && byte_len(s.take(i)) == k {
        Some(choose|i: int| 0 <= i <= s.len() && byte_len(s.take(i)) == k)
    } else {
        None
    }
}

pub fn index_at_byte(v: &Vec<char>, k: u128) -> (r: Option<usize>)
    ensures
        match r {
            Some(i) => char_index_at_byte(v@, k as nat) == Some(i as int),
            None => char_index_at_byte(v@, k as nat) is None,
        },
{
    let mut total: u128 = 0;
    let mut i: usize = 0;
    assert(v@.take(0) == Seq::<char>::empty());
    loop
        invariant
            i <= v.len(),
            total == byte_len(v@.take(i as int)),
            total <= k,
            forall|j: int| 0 <= j < i ==> byte_len(v@.take(j)) < k,
        decreases v.len() - i,
    {
        if total == k {
            proof {
                let c = choose|c: int| 0 <= c <= v@.len() && byte_len(v@.take(c)) == k;
                assert(0 <= c <= v@.len() && byte_len(v@.take(c)) == k) by {
                    assert(byte_len(v@.take(i as int)) == k);
                }
                if c < i {
                    assert(byte_len(v@.take(c)) < k);
                } else if c > i {
                    lemma_byte_len_take_increasing(v@, i as int, c);
                }
            }
            return Some(i);
        }
        if i == v.len() {
            proof {
                assert forall|j: int| 0 <= j <= v@.len() implies byte_len(v@.take(j)) != k by {
                    if j < i {
                    }
                }
            }
            return None;
        }
        proof {
            lemma_byte_len_take_step(v@, i as int);
            lemma_byte_len_bound(v@.take(i as int));
        }
        let next = total + char_width(v[i]);
        if next > k {
            proof {
                assert forall|j: int| 0 <= j <= v@.len() implies byte_len(v@.take(j)) != k by {
                    if j > i {
                        if j > i + 1 {
                            lemma_byte_len_take_increasing(v@, i + 1, j);
                        }
                    }
                }
            }
            return None;
        }
        total = next;
        i = i + 1;
    }
}

// ---------------------------------------------------------------------------
// Decoding bytes
// ---------------------------------------------------------------------------

/// std `str::from_utf8`: a string exactly when the bytes are valid UTF-8, and then
/// the characters they encode.
#[verifier::external_body]
pub(crate) fn utf8_str(bytes: &[u8]) -> (r: Option<&str>)
    ensures
        r is Some == vstd::utf8::valid_utf8(bytes@),
        r matches Some(s) ==> s@ == vstd::utf8::decode_utf8(bytes@),
{
    std::str::from_utf8(bytes).ok()
}

/// What `String::from_utf8_lossy` gives for the bytes: the decoded text, each
/// invalid sequence replaced by U+FFFD.
pub uninterp spec fn utf8_lossy(bytes: Seq<u8>) -> Seq<char>;

/// std `String::from_utf8_lossy`. Its result is named `utf8_lossy`; the one fact
/// stated beside it is that valid UTF-8 is decoded unchanged. Which characters
/// replace invalid sequences is left to the name.
#[verifier::external_body]
pub(crate) fn lossy_string(bytes: &[u8]) -> (r: String)
    ensures
        r@ == utf8_lossy(bytes@),
        vstd::utf8::valid_utf8(bytes@) ==> r@ == vstd::utf8::decode_utf8(bytes@),
{
    String::from_utf8_lossy(bytes).into_owned()
}

// ---------------------------------------------------------------------------
// Joining, cutting and removing
// ---------------------------------------------------------------------------

/// The pieces joined by `sep`.
pub open spec fn join_with(segs: Seq<Seq<char>>, sep: Seq<char>) -> Seq<char>
    decreases segs.len(),
{
    if segs.len() == 0 {
        Seq::empty()
    } else if segs.len() == 1 {
        segs[0]
    } else {
        join_with(segs.drop_last(), sep) + sep + segs.last()
    }
}

pub fn join(segs: &Vec<Vec<char>>, sep: &str) -> (r: Vec<char>)
    ensures
        r@ == join_with(views(segs@), sep@),
{
    let sepv = chars_of(sep);
    let mut r: Vec<char> = Vec::new();
    let mut i: usize = 0;
    while i < segs.len()
        invariant
            i <= segs.len(),
            sepv@ == sep@,
            r@ == join_with(views(segs@).take(i as int), sep@),
        decreases segs.len() - i,
    {
        assert(views(segs@).take(i + 1).drop_last() == views(segs@).take(i as int));
        assert(views(segs@).take(i + 1).last() == segs@[i as int]@);
        if i > 0 {
            extend_chars(&mut r, &sepv);
        } else {
            assert(views(segs@).take(1) == seq![segs@[0]@]);
        }
        extend_chars(&mut r, &segs[i]);
        i = i + 1;
    }
    assert(views(segs@).take(segs.len() as int) == views(segs@));
    r
}

/// The part of `s` before the first occurrence of `p` (all of `s` when there is
/// none): what `s.split(p).next()` gives.
pub open spec fn before_first(s: Seq<char>, p: Seq<char>) -> Seq<char> {
    match find_first(s, p) {
        Some(i) => s.take(i),
        None => s,
    }
}

pub fn before_first_str(s: &Vec<char>, p: &str) -> (r: Vec<char>)
    ensures
        r@ == before_first(s@, p@),
{
    proof {
        lemma_find_first(s@, p@);
    }
    match find_str(s, p) {
        Some(i) => slice_chars(s, 0, i),
        None => s.clone(),
    }
}

/// `s` with every occurrence of the nonempty `p` removed, left to right (what
/// `s.replace(p, "")` gives).
pub open spec fn remove_all(s: Seq<char>, p: Seq<char>) -> Seq<char>
    decreases s.len(),
{
    if p.len() == 0 {
        s
    } else {
        match find_first(s, p) {
            Some(i) => if 0 <= i && i + p.len() <= s.len() {
                s.take(i) + remove_all(s.skip(i + p.len()), p)
            } else {
                s
            },
            None => s,
        }
    }
}

#[verifier::rlimit(40)]
pub fn remove_all_str(s: &Vec<char>, p: &str) -> (r: Vec<char>)
    requires
        p@.len() > 0,
    ensures
        r@ == remove_all(s@, p@),
{
    let pv = chars_of(p);
    let mut out: Vec<char> = Vec::new();
    let mut rest: Vec<char> = s.clone();
    while rest.len() > 0
        invariant
            pv@ == p@,
            p@.len() > 0,
            out@ + remove_all(rest@, p@) == remove_all(s@, p@),
        decreases rest.len(),
    {
        proof {
            lemma_find_first(rest@, p@);
        }
        match find(&rest, &pv) {
            Some(i) => {
                let head = slice_chars(&rest, 0, i);
                let tail = slice_chars(&rest, i + pv.len(), rest.len());
                assert(tail@ == rest@.skip(i + p@.len()));
                extend_chars(&mut out, &head);
                rest = tail;
            },
            None => {
                extend_chars(&mut out, &rest);
                rest = Vec::new();
                assert(remove_all(rest@, p@) == Seq::<char>::empty()) by {
                    assert(!contains_seq(rest@, p@)) by {
                        assert forall|k: int| !occurs_at(rest@, p@, k) by {}
                    }
                }
            },
        }
    }
    assert(remove_all(rest@, p@) == rest@) by {
        assert(!contains_seq(rest@, p@)) by {
            assert forall|k: int| !occurs_at(rest@, p@, k) by {}
        }
    }
    assert(out@ + Seq::<char>::empty() == out@);
    out
}

/// `s` without leading and trailing copies of `c` (what `trim_matches(c)` gives).
pub open spec fn strip_char(s: Seq<char>, c: char) -> Seq<char>
    decreases s.len(),
{
    if s.len() > 0 && s[0] == c {
        strip_char(s.drop_first(), c)
    } else if s.len() > 0 && s.last() == c {
        strip_char(s.drop_last(), c)
    } else {
        s
    }
}

pub fn strip_char_both(s: &Vec<char>, c: char) -> (r: Vec<char>)
    ensures
        r@ == strip_char(s@, c),
{
    let mut cur = s.clone();
    while cur.len() > 0 && (cur[0] == c || cur[cur.len() - 1] == c)
        invariant
            strip_char(cur@, c) == strip_char(s@, c),
        decreases cur.len(),
    {
        if cur[0] == c {
            let n = cur.len();
            let next = slice_chars(&cur, 1, n);
            assert(next@ == cur@.drop_first());
            cur = next;
        } else {
            let ghost before = cur@;
            cur.pop();
            assert(cur@ == before.drop_last());
        }
    }
    cur
}

/// Whether `words` holds a word equal to `w`.
pub fn has_word(words: &Vec<Vec<char>>, w: &str) -> (r: bool)
    ensures
        r == views(words@).contains(w@),
{
    let wv = chars_of(w);
    let mut i: usize = 0;
    while i < words.len()
        invariant
            i <= words.len(),
            wv@ == w@,
            forall|j: int| 0 <= j < i ==> views(words@)[j] != w@,
        decreases words.len() - i,
    {
        if chars_eq(&words[i], &wv) {
            assert(views(words@)[i as int] == w@);
            return true;
        }
        i = i + 1;
    }
    false
}


// ---------------------------------------------------------------------------
// Ordered sets of strings
// ---------------------------------------------------------------------------

/// Lexicographic order of character sequences, by code point (the order of
/// `String`, whose UTF-8 bytes compare the same way).
pub open spec fn lex_lt(a: Seq<char>, b: Seq<char>) -> bool
    decreases a.len(),
{
    if a.len() == 0 {
        b.len() > 0
    } else if b.len() == 0 {
        false
    } else if a[0] != b[0] {
        a[0] < b[0]
    } else {
        lex_lt(a.drop_first(), b.drop_first())
    }
}

pub proof fn lemma_lex_irreflexive(a: Seq<char>)
    ensures
        !lex_lt(a, a),
    decreases a.len(),
{
    if a.len() > 0 {
        lemma_lex_irreflexive(a.drop_first());
    }
}

pub proof fn lemma_lex_transitive(a: Seq<char>, b: Seq<char>, c: Seq<char>)
    requires
        lex_lt(a, b),
        lex_lt(b, c),
    ensures
        lex_lt(a, c),
    decreases a.len(),
{
    if a.len() > 0 && b.len() > 0 && c.len() > 0 && a[0] == b[0] && b[0] == c[0] {
        lemma_lex_transitive(a.drop_first(), b.drop_first(), c.drop_first());
    }
}

pub proof fn lemma_lex_total(a: Seq<char>, b: Seq<char>)
    ensures
        a == b || lex_lt(a, b) || lex_lt(b, a),
    decreases a.len(),
{
    if a.len() > 0 && b.len() > 0 {
        if a[0] == b[0] {
            lemma_lex_total(a.drop_first(), b.drop_first());
            if a.drop_first() == b.drop_first() {
                assert(a == seq![a[0]] + a.drop_first());
                assert(b == seq![b[0]] + b.drop_first());
            }
        }
    } else if a.len() == 0 && b.len() == 0 {
        assert(a == b);
    }
}

/// Whether `a` comes before `b`.
pub fn lex_less(a: &Vec<char>, b: &Vec<char>) -> (r: bool)
    ensures
        r == lex_lt(a@, b@),
{
    let mut i: usize = 0;
    assert(a@.skip(0) == a@ && b@.skip(0) == b@);
    while i < a.len() && i < b.len() && a[i] == b[i]
        invariant
            i <= a.len(),
            i <= b.len(),
            lex_lt(a@, b@) == lex_lt(a@.skip(i as int), b@.skip(i as int)),
        decreases a.len() - i,
    {
        assert(a@.skip(i as int).drop_first() == a@.skip(i + 1));
        assert(b@.skip(i as int).drop_first() == b@.skip(i + 1));
        i = i + 1;
    }
    if i == a.len() {
        i < b.len()
    } else if i == b.len() {
        false
    } else {
        assert(a@.skip(i as int)[0] == a@[i as int]);
        assert(b@.skip(i as int)[0] == b@[i as int]);
        a[i] < b[i]
    }
}

proof fn lemma_insert_contains(s: Seq<Seq<char>>, p: int, x: Seq<char>, y: Seq<char>)
    requires
        0 <= p <= s.len(),
    ensures
        s.insert(p, x).contains(y) <==> (s.contains(y) || y == x),
{
    let n = s.insert(p, x);
    if n.contains(y) {
        let k = choose|k: int| 0 <= k < n.len() && n[k] == y;
        if k < p {
            assert(s[k] == y);
        } else if k > p {
            assert(s[k - 1] == y);
        }
    }
    if s.contains(y) {
        let k = choose|k: int| 0 <= k < s.len() && s[k] == y;
        if k < p {
            assert(n[k] == y);
        } else {
            assert(n[k + 1] == y);
        }
    }
    if y == x {
        assert(n[p] == y);
    }
}

proof fn lemma_push_contains(s: Seq<Seq<char>>, x: Seq<char>, y: Seq<char>)
    ensures
        s.push(x).contains(y) <==> (s.contains(y) || y == x),
{
    let n = s.push(x);
    if n.contains(y) {
        let k = choose|k: int| 0 <= k < n.len() && n[k] == y;
        if k < s.len() {
            assert(s[k] == y);
        }
    }
    if s.contains(y) {
        let k = choose|k: int| 0 <= k < s.len() && s[k] == y;
        assert(n[k] == y);
    }
    if y == x {
        assert(n[s.len() as int] == y);
    }
}

/// Strictly increasing in lexicographic order: sorted, with nothing twice.
pub open spec fn strictly_sorted(s: Seq<Seq<char>>) -> bool {
    forall|i: int, j: int| 0 <= i < j < s.len() ==> lex_lt(#[trigger] s[i], #[trigger] s[j])
}

/// The distinct items, sorted (what collecting them into a `BTreeSet<String>` and
/// back gives).
pub fn sorted_unique(items: &Vec<Vec<char>>) -> (r: Vec<Vec<char>>)
    ensures
        strictly_sorted(views(r@)),
        forall|x: Seq<char>| views(r@).contains(x) <==> views(items@).contains(x),
{
    let mut out: Vec<Vec<char>> = Vec::new();
    let mut i: usize = 0;
    while i < items.len()
        invariant
            i <= items.len(),
            strictly_sorted(views(out@)),
            forall|x: Seq<char>| views(out@).contains(x) <==> views(items@).take(i as int).contains(x),
        decreases items.len() - i,
    {
        let x = &items[i];
        let ghost ov = views(out@);
        let mut p: usize = 0;
        while p < out.len() && lex_less(&out[p], x)
            invariant
                p <= out.len(),
                ov == views(out@),
                forall|j: int| 0 <= j < p ==> lex_lt(#[trigger] ov[j], x@),
            decreases out.len() - p,
        {
            p = p + 1;
        }
        assert(views(items@).take(i + 1) == views(items@).take(i as int).push(x@));
        let dup = p < out.len() && chars_eq(&out[p], x);
        if !dup {
            proof {
                if p < out.len() {
                    lemma_lex_total(ov[p as int], x@);
                    assert(lex_lt(x@, ov[p as int]));
                }
                assert forall|j: int| p <= j < ov.len() implies lex_lt(x@, #[trigger] ov[j]) by {
                    if j > p {
                        lemma_lex_transitive(x@, ov[p as int], ov[j]);
                    }
                }
            }
            out.insert(p, x.clone());
            proof {
                let nv = views(out@);
                assert(nv == ov.insert(p as int, x@));
                assert forall|a: int, b: int| 0 <= a < b < nv.len() implies lex_lt(
                    #[trigger] nv[a],
                    #[trigger] nv[b],
                ) by {
                    if b < p {
                    } else if b == p {
                    } else if a < p {
                        lemma_lex_transitive(nv[a], x@, nv[b]);
                    } else if a == p {
                    } else {
                    }
                }
                assert forall|y: Seq<char>| nv.contains(y) <==> views(items@).take(i + 1).contains(y)
                    by {
                    lemma_insert_contains(ov, p as int, x@, y);
                    lemma_push_contains(views(items@).take(i as int), x@, y);
                }
            }
        } else {
            proof {
                assert(ov[p as int] == x@);
                assert forall|y: Seq<char>| ov.contains(y) <==> views(items@).take(i + 1).contains(y)
                    by {
                    lemma_push_contains(views(items@).take(i as int), x@, y);
                }
            }
        }
        i = i + 1;
    }
    assert(views(items@).take(items.len() as int) == views(items@));
    out
}


pub open spec fn string_seq_views(v: Seq<String>) -> Seq<Seq<char>> {
    v.map_values(|s: String| s@)
}

/// The character vectors as `String`s.
pub fn strings_of(v: &Vec<Vec<char>>) -> (r: Vec<String>)
    ensures
        string_seq_views(r@) == views(v@),
{
    let mut r: Vec<String> = Vec::new();
    let mut i: usize = 0;
    while i < v.len()
        invariant
            i <= v.len(),
            string_seq_views(r@) == views(v@).take(i as int),
        decreases v.len() - i,
    {
        let s = string_of(&v[i]);
        let ghost before = r@;
        r.push(s);
        assert(string_seq_views(r@) == string_seq_views(before).push(s@));
        assert(views(v@).take(i + 1) == views(v@).take(i as int).push(v@[i as int]@));
        i = i + 1;
    }
    assert(views(v@).take(v.len() as int) == views(v@));
    r
}

} // verus!
