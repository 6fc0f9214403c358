//! Disk sizes: how kilobyte counts are printed and how `df` lines are read.
use vstd::prelude::*;
use crate::text::{
    chars_of, decimal, extend_str, parse_uint, parse_unsigned, push_decimal, push_decimal_wide,
    split_nonempty, split_words, string_of, views, Sep,
};

verus! {

pub open spec fn pow2(n: nat) -> nat
    decreases n,
{
    if n == 0 {
        1
    } else {
        2 * pow2((n - 1) as nat)
    }
}

/// `x / d` rounded to the nearest integer, ties to the even one.
pub open spec fn round_half_even(x: nat, d: nat) -> nat
    recommends
        d > 0,
{
    let q = x / d;
    let r = x % d;
    if 2 * r > d || (2 * r == d && q % 2 == 1) {
        q + 1
    } else {
        q
    }
}

/// `2^53`: below it every integer is a double.
pub open spec fn two_53() -> nat {
    0x20_0000_0000_0000
}

/// How many low bits of `k` a double cannot hold: `k` is halved until it is below
/// `2^53`.
pub open spec fn f64_shift(k: nat) -> nat
    decreases k,
{
    if k < two_53() {
        0
    } else {
        1 + f64_shift(k / 2)
    }
}

/// The value of `k as f64`: `k` rounded to the nearest double, ties to even.
pub open spec fn u64_as_f64(k: nat) -> nat {
    let d = pow2(f64_shift(k));
    round_half_even(k, d) * d
}

/// Two decimal digits.
pub open spec fn two_digits(m: nat) -> Seq<char> {
    seq![crate::text::digit_char(m / 10), crate::text::digit_char(m % 10)]
}

/// `n / 100` with two decimals.
pub open spec fn hundredths(n: nat) -> Seq<char> {
    decimal(n / 100) + seq!['.'] + two_digits(n % 100)
}

/// A kilobyte count in gigabytes with two decimals and ` GB`, as `format!("{:.2}
/// GB", kb as f64 / 1024.0 / 1024.0)` prints it: the double nearest `kb`, divided
/// by `2^20`, rounded to two decimals with ties to even.
pub open spec fn format_bytes_spec(kb: nat) -> Seq<char> {
    hundredths(round_half_even(u64_as_f64(kb) * 100, pow2(20))) + " GB"@
}

fn rhe(x: u128, d: u128) -> (r: u128)
    requires
        d > 0,
        x / d < 0xffff_ffff_ffff_ffff_ffff_ffff_ffff_fff0u128,
    ensures
        r == round_half_even(x as nat, d as nat),
{
    let q = x / d;
    let r = x % d;
    if (r > d - r) || (r == d - r && q % 2 == 1) {
        q + 1
    } else {
        q
    }
}

proof fn lemma_pow2_20()
    ensures
        pow2(20) == 0x10_0000,
{
    reveal_with_fuel(pow2, 21);
}

fn push_two_digits(out: &mut Vec<char>, m: u64)
    requires
        m < 100,
    ensures
        final(out)@ == old(out)@ + two_digits(m as nat),
{
    let a: u8 = (m / 10) as u8 + 48;
    let b: u8 = (m % 10) as u8 + 48;
    out.push(a as char);
    out.push(b as char);
}

/// The value of `k as f64`.
fn f64_value(k: u64) -> (f: u128)
    ensures
        f == u64_as_f64(k as nat),
        f <= 0x2_0000_0000_0000_0000u128,
        k > 0 ==> f > 0,
{
    let mut t: u128 = k as u128;
    let mut d: u128 = 1;
    let ghost mut e: nat = 0;
    while t >= 0x20_0000_0000_0000
        invariant
            d == pow2(e),
            d >= 1,
            t == (k as nat) / (d as nat),
            f64_shift(k as nat) == e + f64_shift(t as nat),
            d <= k as u128 + 1,
            d > 1 ==> t >= 0x10_0000_0000_0000,
        decreases t,
    {
        proof {
            vstd::arithmetic::div_mod::lemma_div_denominator(k as int, d as int, 2);
            assert(t as nat / 2 == (k as nat) / ((d * 2) as nat));
            assert(d * 2 <= k as u128 + 1) by {
                vstd::arithmetic::div_mod::lemma_fundamental_div_mod(k as int, d as int);
                assert(d * t <= k) by (nonlinear_arith)
                    requires
                        t >= 0x20_0000_0000_0000,
                        (k as int) == (d as int) * (t as int) + (k as int) % (d as int),
                        (k as int) % (d as int) >= 0,
                ;
                assert(d * 2 <= d * t) by (nonlinear_arith)
                    requires
                        t >= 2,
                        d >= 1,
                ;
            }
        }
        t = t / 2;
        d = d * 2;
        proof {
            e = e + 1;
        }
    }
    assert(f64_shift(k as nat) == e);
    let m = rhe(k as u128, d);
    proof {
        let q = (k as int) / (d as int);
        vstd::arithmetic::div_mod::lemma_fundamental_div_mod(k as int, d as int);
        assert(m <= q + 1);
        assert(q * d <= k) by (nonlinear_arith)
            requires
                (k as int) == (d as int) * q + (k as int) % (d as int),
                (k as int) % (d as int) >= 0,
        ;
        assert(m * d <= 0x2_0000_0000_0000_0000u128) by (nonlinear_arith)
            requires
                m <= q + 1,
                q * d <= k,
                d <= k as u128 + 1,
                k <= 0xffff_ffff_ffff_ffffu64,
                d >= 1,
        ;
        if k > 0 {
            if d == 1 {
                assert(m == k) by {
                    assert((k as nat) / 1 == k);
                    assert((k as nat) % 1 == 0);
                }
            } else {
                assert(q >= 1);
            }
            assert(m * d >= 1) by (nonlinear_arith)
                requires
                    m >= 1,
                    d >= 1,
            ;
        }
    }
    m * d
}

/// A kilobyte count in gigabytes, with two decimals: `1048576` is `1.00 GB`.
pub fn format_bytes(kb: u64) -> (r: String)
    ensures
        r@ == format_bytes_spec(kb as nat),
{
    let f = f64_value(kb);
    let scaled = f * 100;
    proof {
        lemma_pow2_20();
    }
    let n = rhe(scaled, 0x10_0000);
    assert(n < 0x10_0000_0000_0000_0000u128);
    let n64 = n as u64;
    let mut out: Vec<char> = Vec::new();
    push_decimal(&mut out, n64 / 100);
    out.push('.');
    push_two_digits(&mut out, n64 % 100);
    extend_str(&mut out, " GB");
    string_of(&out)
}

// ---------------------------------------------------------------------------
// Percentages, as the floating-point computation rounds them
// ---------------------------------------------------------------------------

/// `a · 2^k` reaches `2^52 · b`: the quotient `a / b · 2^k` is at least `2^52`.
pub open spec fn binade_ok(a: nat, b: nat, k: int) -> bool {
    if k >= 0 {
        a * pow2(k as nat) >= pow2(52) * b
    } else {
        a >= pow2(52) * b * pow2((-k) as nat)
    }
}

/// The first `k`, counting up from the given one, at which `a / b · 2^k` reaches
/// `2^52` (`k` itself once it passes 117).
pub open spec fn binade_from(a: nat, b: nat, k: int) -> int
    decreases 117 - k,
{
    if k >= 117 || binade_ok(a, b, k) {
        k
    } else {
        binade_from(a, b, k + 1)
    }
}

/// The scale of the double nearest `a / b` (for `a, b` between 1 and `2^65`):
/// `a / b · 2^k` lies in `[2^52, 2^53)`. No `k` below -16 can reach `2^52`.
pub open spec fn quotient_exp(a: nat, b: nat) -> int {
    binade_from(a, b, -16)
}

/// The significand of the double nearest `a / b`: `a / b · 2^k` rounded to an
/// integer, ties to even.
pub open spec fn quotient_mantissa(a: nat, b: nat) -> nat {
    let k = quotient_exp(a, b);
    if k >= 0 {
        round_half_even(a * pow2(k as nat), b)
    } else {
        round_half_even(a, b * pow2((-k) as nat))
    }
}

/// How many bits the product `100 · m` of a significand `m` in `[2^52, 2^53]`
/// exceeds 53 by.
pub open spec fn product_shift(m: nat) -> nat {
    if 100 * m < pow2(59) {
        6
    } else {
        7
    }
}

/// `x / d` rounded to the nearest integer, ties up.
pub open spec fn round_half_up(x: nat, d: nat) -> nat {
    if 2 * (x % d) >= d {
        x / d + 1
    } else {
        x / d
    }
}

/// What `((used as f64 / total as f64) * 100.0).round() as u8` gives: both counts
/// rounded to doubles, their quotient rounded to a double, that times 100 rounded
/// to a double (ties to even each time), then rounded half away from zero to an
/// integer and capped at 255; 0 for a total of 0.
pub open spec fn percent_spec(used: nat, total: nat) -> nat {
    let a = u64_as_f64(used);
    let b = u64_as_f64(total);
    if total == 0 || a == 0 {
        0
    } else {
        let k = quotient_exp(a, b);
        let m = quotient_mantissa(a, b);
        let s = product_shift(m);
        let m2 = round_half_even(100 * m, pow2(s));
        let e = s - k;
        let v = if e >= 0 {
            m2 * pow2(e as nat)
        } else {
            round_half_up(m2, pow2((-e) as nat))
        };
        if v > 255 {
            255
        } else {
            v
        }
    }
}

proof fn lemma_pow2_add(x: nat, y: nat)
    ensures
        pow2(x + y) == pow2(x) * pow2(y),
    decreases x,
{
    if x > 0 {
        let x1 = (x - 1) as nat;
        lemma_pow2_add(x1, y);
        assert(x1 + y + 1 == x + y);
        assert(pow2(x + y) == 2 * pow2(x1 + y));
        assert(pow2(x) == 2 * pow2(x1));
        assert(pow2(x) * pow2(y) == 2 * (pow2(x1) * pow2(y))) by (nonlinear_arith)
            requires
                pow2(x) == 2 * pow2(x1),
        ;
    } else {
        assert(pow2(x) == 1);
        assert(pow2(x) * pow2(y) == pow2(y)) by (nonlinear_arith)
            requires
                pow2(x) == 1,
        ;
    }
}

proof fn lemma_pow2_pos(n: nat)
    ensures
        pow2(n) >= 1,
    decreases n,
{
    if n > 0 {
        lemma_pow2_pos((n - 1) as nat);
    }
}

proof fn lemma_pow2_mono(x: nat, y: nat)
    requires
        x <= y,
    ensures
        pow2(x) <= pow2(y),
    decreases y,
{
    lemma_pow2_pos(y);
    if x < y {
        lemma_pow2_mono(x, (y - 1) as nat);
    }
}

/// The powers of two that the percentage computation needs.
proof fn lemma_pow2_consts()
    ensures
        pow2(0) == 1,
        pow2(1) == 2,
        pow2(6) == 64,
        pow2(7) == 128,
        pow2(13) == 0x2000,
        pow2(16) == 0x1_0000,
        pow2(32) == 0x1_0000_0000,
        pow2(52) == 0x10_0000_0000_0000,
        pow2(64) == 0x1_0000_0000_0000_0000,
        pow2(59) == 0x800_0000_0000_0000,
        pow2(65) == 0x2_0000_0000_0000_0000,
        pow2(127) == 0x8000_0000_0000_0000_0000_0000_0000_0000,
{
    reveal_with_fuel(pow2, 17);
    lemma_pow2_add(16, 16);
    let p16 = pow2(16);
    assert(pow2(32) == 0x1_0000_0000) by (nonlinear_arith)
        requires
            pow2(32) == p16 * p16,
            p16 == 0x1_0000,
    ;
    lemma_pow2_add(16, 4);
    let p4 = pow2(4);
    assert(pow2(20) == 0x10_0000) by (nonlinear_arith)
        requires
            pow2(20) == p16 * p4,
            p16 == 0x1_0000,
            p4 == 16,
    ;
    lemma_pow2_add(32, 20);
    let p32 = pow2(32);
    let p20 = pow2(20);
    assert(pow2(52) == 0x10_0000_0000_0000) by (nonlinear_arith)
        requires
            pow2(52) == p32 * p20,
            p32 == 0x1_0000_0000,
            p20 == 0x10_0000,
    ;
    lemma_pow2_add(52, 7);
    let p52 = pow2(52);
    let p7 = pow2(7);
    assert(pow2(59) == 0x800_0000_0000_0000) by (nonlinear_arith)
        requires
            pow2(59) == p52 * p7,
            p52 == 0x10_0000_0000_0000,
            p7 == 128,
    ;
    lemma_pow2_add(32, 32);
    assert(pow2(64) == 0x1_0000_0000_0000_0000) by (nonlinear_arith)
        requires
            pow2(64) == p32 * p32,
            p32 == 0x1_0000_0000,
    ;
    lemma_pow2_add(64, 1);
    let p64 = pow2(64);
    assert(pow2(65) == 0x2_0000_0000_0000_0000) by (nonlinear_arith)
        requires
            pow2(65) == p64 * 2,
            p64 == 0x1_0000_0000_0000_0000,
    ;
    lemma_pow2_add(16, 15);
    let p15 = pow2(15);
    assert(pow2(31) == 0x8000_0000) by (nonlinear_arith)
        requires
            pow2(31) == p16 * p15,
            p16 == 0x1_0000,
            p15 == 0x8000,
    ;
    lemma_pow2_add(32, 31);
    let p31 = pow2(31);
    assert(pow2(63) == 0x8000_0000_0000_0000) by (nonlinear_arith)
        requires
            pow2(63) == p32 * p31,
            p32 == 0x1_0000_0000,
            p31 == 0x8000_0000,
    ;
    lemma_pow2_add(64, 63);
    let p63 = pow2(63);
    assert(pow2(127) == 0x8000_0000_0000_0000_0000_0000_0000_0000) by (nonlinear_arith)
        requires
            pow2(127) == p64 * p63,
            p64 == 0x1_0000_0000_0000_0000,
            p63 == 0x8000_0000_0000_0000,
    ;
}

/// The exec value of `2^n`.
fn pow2_exec(n: u32) -> (r: u128)
    requires
        n < 128,
    ensures
        r == pow2(n as nat),
        r >= 1,
{
    proof {
        lemma_pow2_consts();
    }
    let mut r: u128 = 1;
    let mut i: u32 = 0;
    while i < n
        invariant
            i <= n < 128,
            r == pow2(i as nat),
            pow2(127) == 0x8000_0000_0000_0000_0000_0000_0000_0000,
        decreases n - i,
    {
        proof {
            lemma_pow2_consts();
            lemma_pow2_mono(i as nat, 126);
            lemma_pow2_add(126, 1);
        }
        r = r * 2;
        i = i + 1;
    }
    proof {
        lemma_pow2_pos(n as nat);
    }
    r
}

proof fn lemma_ge_div(a: nat, c: nat, b: nat)
    requires
        c > 0,
    ensures
        a >= c * b <==> a / c >= b,
{
    let q = a / c;
    let r = a % c;
    vstd::arithmetic::div_mod::lemma_fundamental_div_mod(a as int, c as int);
    vstd::arithmetic::div_mod::lemma_mod_pos_bound(a as int, c as int);
    if q >= b {
        assert(a >= c * b) by (nonlinear_arith)
            requires
                q >= b,
                c > 0,
                a == c * q + r,
                r >= 0,
        ;
    } else {
        assert(a < c * b) by (nonlinear_arith)
            requires
                q + 1 <= b,
                c > 0,
                a == c * q + r,
                r < c,
        ;
    }
}

/// Below scale 52 the test is `a / 2^(52 - k) >= b`.
proof fn lemma_binade_low(a: nat, b: nat, k: int)
    requires
        k < 52,
    ensures
        binade_ok(a, b, k) <==> a / pow2((52 - k) as nat) >= b,
{
    let d = (52 - k) as nat;
    lemma_pow2_pos(d);
    lemma_ge_div(a, pow2(d), b);
    if k >= 0 {
        let kk = k as nat;
        lemma_pow2_add(kk, d);
        assert(kk + d == 52);
        lemma_pow2_pos(kk);
        let p = pow2(kk);
        let q = pow2(d);
        assert(pow2(52) * b == p * (q * b)) by (nonlinear_arith)
            requires
                pow2(52) == p * q,
        ;
        assert(a * p >= p * (q * b) <==> a >= q * b) by (nonlinear_arith)
            requires
                p >= 1,
        ;
    } else {
        let j = (-k) as nat;
        lemma_pow2_add(52, j);
        assert(52 + j == d);
        let q = pow2(d);
        assert(pow2(52) * b * pow2(j) == q * b) by (nonlinear_arith)
            requires
                q == pow2(52) * pow2(j),
        ;
    }
}

/// From scale 52 up the test is `a · 2^(k - 52) >= b`.
proof fn lemma_binade_high(a: nat, b: nat, k: int)
    requires
        k >= 52,
    ensures
        binade_ok(a, b, k) <==> a * pow2((k - 52) as nat) >= b,
{
    let j = (k - 52) as nat;
    lemma_pow2_add(j, 52);
    assert(j + 52 == k);
    lemma_pow2_pos(52);
    let p = pow2(52);
    let q = pow2(j);
    assert(a * pow2(k as nat) == (a * q) * p) by (nonlinear_arith)
        requires
            pow2(k as nat) == q * p,
    ;
    assert((a * q) * p >= p * b <==> a * q >= b) by (nonlinear_arith)
        requires
            p >= 1,
    ;
}

/// Whether `a / b · 2^k` reaches `2^52`, for the scales that the search visits.
fn binade_test(a: u128, b: u128, k: i32) -> (r: bool)
    requires
        1 <= a <= 0x2_0000_0000_0000_0000u128,
        1 <= b <= 0x2_0000_0000_0000_0000u128,
        -16 <= k <= 117,
        k > 52 ==> !binade_ok(a as nat, b as nat, k - 1),
    ensures
        r == binade_ok(a as nat, b as nat, k as int),
{
    proof {
        lemma_pow2_consts();
    }
    if k < 52 {
        let n: u32 = (52 - k) as u32;
        assert(n as nat == (52 - k) as nat);
        proof {
            lemma_binade_low(a as nat, b as nat, k as int);
        }
        let d = pow2_exec(n);
        a / d >= b
    } else {
        let n: u32 = (k - 52) as u32;
        assert(n as nat == (k - 52) as nat);
        proof {
            lemma_binade_high(a as nat, b as nat, k as int);
            if k > 52 {
                let j = (k - 53) as nat;
                lemma_binade_high(a as nat, b as nat, k - 1);
                lemma_pow2_add(j, 1);
                assert(j + 1 == n);
                let q = pow2(j);
                assert(a * pow2(n as nat) < 0x4_0000_0000_0000_0000u128) by (nonlinear_arith)
                    requires
                        a * q < b,
                        pow2(n as nat) == q * 2,
                        b <= 0x2_0000_0000_0000_0000u128,
                ;
            }
        }
        let d = pow2_exec(n);
        a * d >= b
    }
}

/// The scale of the double nearest `a / b`.
fn find_binade(a: u128, b: u128) -> (k: i32)
    requires
        1 <= a <= 0x2_0000_0000_0000_0000u128,
        1 <= b <= 0x2_0000_0000_0000_0000u128,
    ensures
        k as int == quotient_exp(a as nat, b as nat),
        -16 <= k <= 117,
        binade_ok(a as nat, b as nat, k as int),
        k > -16 ==> !binade_ok(a as nat, b as nat, k - 1),
{
    let ghost an = a as nat;
    let ghost bn = b as nat;
    proof {
        lemma_pow2_consts();
        lemma_binade_high(an, bn, 117);
        assert(pow2(65) <= an * pow2(65)) by (nonlinear_arith)
            requires
                an >= 1,
        ;
    }
    let mut k: i32 = -16;
    let mut ok = false;
    while !ok
        invariant
            -16 <= k <= 117,
            an == a,
            bn == b,
            1 <= a <= 0x2_0000_0000_0000_0000u128,
            1 <= b <= 0x2_0000_0000_0000_0000u128,
            binade_ok(an, bn, 117),
            ok ==> binade_ok(an, bn, k as int),
            ok ==> binade_from(an, bn, -16) == k,
            !ok ==> binade_from(an, bn, -16) == binade_from(an, bn, k as int),
            k > -16 ==> !binade_ok(an, bn, k - 1),
        decreases 117 - k + (if ok {
            0int
        } else {
            1int
        }),
    {
        if binade_test(a, b, k) {
            ok = true;
        } else {
            assert(k < 117);
            k = k + 1;
        }
    }
    k
}

/// The rounded quotient is at least `2^52` once `a / b · 2^k` is.
proof fn lemma_quotient_mantissa_low(a: nat, b: nat, k: int)
    requires
        b >= 1,
        binade_ok(a, b, k),
        k == quotient_exp(a, b),
    ensures
        quotient_mantissa(a, b) >= pow2(52),
{
    lemma_pow2_pos(52);
    let p = pow2(52);
    if k >= 0 {
        let x = a * pow2(k as nat);
        lemma_ge_div(x, b, p);
        assert(x >= b * p) by (nonlinear_arith)
            requires
                x >= p * b,
        ;
    } else {
        let q = pow2((-k) as nat);
        let d = b * q;
        lemma_pow2_pos((-k) as nat);
        assert(d >= 1) by (nonlinear_arith)
            requires
                b >= 1,
                q >= 1,
                d == b * q,
        ;
        lemma_ge_div(a, d, p);
        assert(a >= d * p) by (nonlinear_arith)
            requires
                a >= p * b * q,
                d == b * q,
        ;
    }
}

/// The significand of the double nearest `a / b`, at scale `k`.
fn quotient_significand(a: u128, b: u128, k: i32) -> (m: u128)
    requires
        1 <= a <= 0x2_0000_0000_0000_0000u128,
        1 <= b <= 0x2_0000_0000_0000_0000u128,
        k as int == quotient_exp(a as nat, b as nat),
        -16 <= k <= 117,
        binade_ok(a as nat, b as nat, k as int),
        k > -16 ==> !binade_ok(a as nat, b as nat, k - 1),
    ensures
        m == quotient_mantissa(a as nat, b as nat),
        0x10_0000_0000_0000 <= m <= 0x100_0000_0000_0000_0000_0000_0000_0000u128,
{
    proof {
        lemma_pow2_consts();
        lemma_quotient_mantissa_low(a as nat, b as nat, k as int);
    }
    if k >= 0 {
        let n = k as u32;
        assert(n as nat == k as nat);
        proof {
            if k >= 1 {
                let j = (k - 1) as nat;
                assert(!binade_ok(a as nat, b as nat, k - 1));
                assert(!(a * pow2(j) >= pow2(52) * b));
                lemma_pow2_add(j, 1);
                assert(j + 1 == n);
                let q = pow2(j);
                let pn = pow2(n as nat);
                assert(a * pn < 0x80_0000_0000_0000_0000_0000_0000_0000u128) by (nonlinear_arith)
                    requires
                        a * q < 0x10_0000_0000_0000 * b,
                        pn == q * 2,
                        b <= 0x2_0000_0000_0000_0000u128,
                ;
            } else {
                assert(pow2(n as nat) == 1);
                assert(a * pow2(n as nat) == a) by (nonlinear_arith)
                    requires
                        pow2(n as nat) == 1,
                ;
            }
            assert(a * pow2(n as nat) < 0x80_0000_0000_0000_0000_0000_0000_0000u128);
        }
        let d = pow2_exec(n);
        assert(a * d < 0x80_0000_0000_0000_0000_0000_0000_0000u128);
        let num = a * d;
        rhe(num, b)
    } else {
        let n = (-k) as u32;
        assert(n as nat == (-k) as nat);
        proof {
            lemma_pow2_mono(n as nat, 16);
            assert(b * pow2(n as nat) <= 0x2_0000_0000_0000_0000u128 * 0x1_0000) by (nonlinear_arith)
                requires
                    b <= 0x2_0000_0000_0000_0000u128,
                    pow2(n as nat) <= 0x1_0000,
            ;
        }
        let d = pow2_exec(n);
        assert(b * d >= 1) by (nonlinear_arith)
            requires
                b >= 1,
                d >= 1,
        ;
        rhe(a, b * d)
    }
}

/// The used share of a total in whole percent, as the floating-point formula of
/// `percent_spec` rounds it; 0 when the total is 0.
pub fn calc_percent(used: u64, total: u64) -> (p: u8)
    ensures
        p == percent_spec(used as nat, total as nat),
{
    if total == 0 {
        return 0;
    }
    let a = f64_value(used);
    let b = f64_value(total);
    if a == 0 {
        return 0;
    }
    let k = find_binade(a, b);
    let m = quotient_significand(a, b, k);
    proof {
        lemma_pow2_consts();
    }
    let prod = m * 100;
    let s: u32 = if prod < 0x800_0000_0000_0000 {
        6
    } else {
        7
    };
    assert(s == product_shift(m as nat));
    let m2 = rhe(prod, pow2_exec(s));
    let e: i32 = (s as i32) - k;
    if e >= 0 {
        proof {
            let pn = prod as nat;
            let ds = pow2(s as nat);
            assert(pn >= ds * 256) by (nonlinear_arith)
                requires
                    pn == m * 100,
                    m >= 0x10_0000_0000_0000,
                    ds <= 128,
            ;
            lemma_ge_div(pn, ds, 256);
            assert(m2 >= pn / ds);
            assert(m2 >= 256);
            lemma_pow2_pos(e as nat);
            assert(m2 * pow2(e as nat) >= 256) by (nonlinear_arith)
                requires
                    m2 >= 256,
                    pow2(e as nat) >= 1,
            ;
        }
        255
    } else {
        let n = (-e) as u32;
        assert(n as nat == (-e) as nat);
        let d = pow2_exec(n);
        let q = m2 / d;
        let r = m2 % d;
        let v = if r >= d - r {
            q + 1
        } else {
            q
        };
        if v > 255 {
            255
        } else {
            v as u8
        }
    }
}

/// What `format!("{:.2}GHz", count as f64 / per_ghz as f64)` prints: both counts
/// rounded to doubles, their quotient rounded to a double (ties to even), and that
/// double's exact value rounded to two decimals (ties to even).
pub open spec fn ghz_text_spec(count: nat, per_ghz: nat) -> Seq<char> {
    let a = u64_as_f64(count);
    let b = u64_as_f64(per_ghz);
    let h: nat = if a == 0 {
        0
    } else {
        let k = quotient_exp(a, b);
        let m = quotient_mantissa(a, b);
        if k >= 0 {
            round_half_even(100 * m, pow2(k as nat))
        } else {
            100 * m * pow2((-k) as nat)
        }
    };
    hundredths(h) + "GHz"@
}

/// Below scale 0 the significand stays within `2^53`.
proof fn lemma_mantissa_upper_neg(a: nat, b: nat, k: int)
    requires
        1 <= a <= 0x2_0000_0000_0000_0000,
        b >= 1,
        k < 0,
        -16 <= k,
        binade_ok(a, b, k),
        k > -16 ==> !binade_ok(a, b, k - 1),
        k == quotient_exp(a, b),
    ensures
        quotient_mantissa(a, b) <= 0x20_0000_0000_0000,
{
    lemma_pow2_consts();
    let j = (-k) as nat;
    let p = pow2(j);
    lemma_pow2_pos(j);
    let den = b * p;
    assert(den >= 1) by (nonlinear_arith)
        requires
            b >= 1,
            p >= 1,
            den == b * p,
    ;
    if k == -16 {
        assert(p == 0x1_0000);
        assert(a >= 0x10_0000_0000_0000 * b * 0x1_0000);
        assert(0x10_0000_0000_0000 * b * 0x1_0000 >= 0x10_0000_0000_0000 * 0x1_0000) by (nonlinear_arith)
            requires
                b >= 1,
        ;
        assert(false);
    }
    lemma_pow2_add(j, 1);
    assert(j + 1 == (-(k - 1)) as nat);
    let p1 = pow2(j + 1);
    assert(a < 0x10_0000_0000_0000 * b * p1);
    assert(a < 0x20_0000_0000_0000 * den) by (nonlinear_arith)
        requires
            a < 0x10_0000_0000_0000 * b * p1,
            p1 == p * 2,
            den == b * p,
    ;
    lemma_ge_div(a, den, 0x20_0000_0000_0000);
    assert(a / den < 0x20_0000_0000_0000) by (nonlinear_arith)
        requires
            a < den * 0x20_0000_0000_0000,
            a >= den * 0x20_0000_0000_0000 <==> a / den >= 0x20_0000_0000_0000,
    ;
}

/// A clock rate in gigahertz with two decimals, from a count of units of which
/// `per_ghz` make a gigahertz (`1000` for megahertz, `1_000_000` for kilohertz).
pub fn format_ghz(count: u64, per_ghz: u64) -> (r: String)
    requires
        per_ghz >= 1,
    ensures
        r@ == ghz_text_spec(count as nat, per_ghz as nat),
{
    let a = f64_value(count);
    let b = f64_value(per_ghz);
    let h: u128 = if a == 0 {
        0
    } else {
        let k = find_binade(a, b);
        let m = quotient_significand(a, b, k);
        proof {
            lemma_pow2_consts();
        }
        if k >= 0 {
            let d = pow2_exec(k as u32);
            assert(d as nat == pow2(k as nat));
            rhe(m * 100, d)
        } else {
            let n = (-k) as u32;
            assert(n as nat == (-k) as nat);
            proof {
                lemma_mantissa_upper_neg(a as nat, b as nat, k as int);
                lemma_pow2_mono(n as nat, 16);
                assert(m * 100 * pow2(n as nat) <= 0x20_0000_0000_0000u128 * 100 * 0x1_0000)
                    by (nonlinear_arith)
                    requires
                        m <= 0x20_0000_0000_0000u128,
                        pow2(n as nat) <= 0x1_0000,
                ;
            }
            let d = pow2_exec(n);
            m * 100 * d
        }
    };
    let mut out: Vec<char> = Vec::new();
    push_decimal_wide(&mut out, h / 100);
    out.push('.');
    push_two_digits(&mut out, (h % 100) as u64);
    extend_str(&mut out, "GHz");
    string_of(&out)
}

/// The total and used kilobytes of a `df -k` line: the second and fourth
/// white-space-separated columns are the total and the available space, and the
/// used space is their difference (zero if the available space is larger).
pub open spec fn df_line_spec(line: Seq<char>) -> Option<(u64, u64)> {
    let cols = split_words(line, Sep::Whitespace);
    if cols.len() < 4 {
        None
    } else {
        match (
            parse_unsigned(cols[1], 10, 0xffff_ffff_ffff_ffff),
            parse_unsigned(cols[3], 10, 0xffff_ffff_ffff_ffff),
        ) {
            (Some(total), Some(avail)) => Some(
                (
                    total as u64,
                    if avail > total {
                        0u64
                    } else {
                        (total - avail) as u64
                    },
                ),
            ),
            _ => None,
        }
    }
}

pub fn parse_df_line_chars(line: &Vec<char>) -> (r: Option<(u64, u64)>)
    ensures
        r == df_line_spec(line@),
{
    let cols = split_nonempty(line, Sep::Whitespace);
    if cols.len() < 4 {
        return None;
    }
    assert(cols@[1]@ == views(cols@)[1]);
    assert(cols@[3]@ == views(cols@)[3]);
    let total = match parse_uint(&cols[1], 10, 0xffff_ffff_ffff_ffff) {
        Some(v) => v,
        None => return None,
    };
    let avail = match parse_uint(&cols[3], 10, 0xffff_ffff_ffff_ffff) {
        Some(v) => v,
        None => return None,
    };
    Some((total, total.saturating_sub(avail)))
}

/// The total and used kilobytes of a `df -k` line.
pub fn parse_df_line(line: &str) -> (r: Option<(u64, u64)>)
    ensures
        r == df_line_spec(line@),
{
    let v = chars_of(line);
    parse_df_line_chars(&v)
}


/// The used space that a `df` line gives never exceeds the total.
pub proof fn lemma_df_used_within_total(line: Seq<char>)
    ensures
        df_line_spec(line) matches Some((t, u)) ==> u <= t,
{
}


// ---------------------------------------------------------------------------
// The percentage stays within 100 when the used part is within the total
// ---------------------------------------------------------------------------

/// Rounding `x / d` to an integer, either way, gives at most `c` when `x` is at
/// most `c · d`.
proof fn lemma_round_at_most(x: nat, d: nat, c: nat)
    requires
        d > 0,
        x <= c * d,
    ensures
        round_half_even(x, d) <= c,
        round_half_up(x, d) <= c,
{
    let q = x / d;
    let r = x % d;
    vstd::arithmetic::div_mod::lemma_fundamental_div_mod(x as int, d as int);
    vstd::arithmetic::div_mod::lemma_mod_pos_bound(x as int, d as int);
    assert(q <= c) by (nonlinear_arith)
        requires
            x == d * q + r,
            r >= 0,
            x <= c * d,
            d > 0,
    ;
    if q == c {
        assert(r == 0) by (nonlinear_arith)
            requires
                x == d * q + r,
                q == c,
                x <= c * d,
                r >= 0,
        ;
    }
}

/// Halving `k` as long as it is `2^53` or more leaves a value below `2^53`, and at
/// least `2^52` when it halved at all.
proof fn lemma_shift_range(k: nat)
    ensures
        f64_shift(k) == 0 ==> k < two_53(),
        f64_shift(k) > 0 ==> k / pow2(f64_shift(k)) < two_53() && k / pow2(f64_shift(k))
            >= 0x10_0000_0000_0000,
    decreases k,
{
    if k >= two_53() {
        let h = k / 2;
        lemma_shift_range(h);
        let s = f64_shift(k);
        assert(s == 1 + f64_shift(h));
        lemma_pow2_pos(f64_shift(h));
        vstd::arithmetic::div_mod::lemma_div_denominator(k as int, 2, pow2(f64_shift(h)) as int);
        assert(pow2(s) == 2 * pow2(f64_shift(h)));
    }
}

proof fn lemma_shift_mono(x: nat, y: nat)
    requires
        x <= y,
    ensures
        f64_shift(x) <= f64_shift(y),
    decreases y,
{
    if x >= two_53() {
        lemma_shift_mono(x / 2, y / 2);
    }
}

proof fn lemma_rhe_mono(x: nat, y: nat, d: nat)
    requires
        x <= y,
        d > 0,
    ensures
        round_half_even(x, d) <= round_half_even(y, d),
{
    vstd::arithmetic::div_mod::lemma_fundamental_div_mod(x as int, d as int);
    vstd::arithmetic::div_mod::lemma_fundamental_div_mod(y as int, d as int);
    vstd::arithmetic::div_mod::lemma_mod_pos_bound(x as int, d as int);
    vstd::arithmetic::div_mod::lemma_mod_pos_bound(y as int, d as int);
    vstd::arithmetic::div_mod::lemma_div_is_ordered(x as int, y as int, d as int);
    let qx = x / d;
    let qy = y / d;
    if qx == qy {
        assert(d * qx == d * qy);
        assert(x % d <= y % d);
    }
}

/// Rounding a count to a double keeps its order.
proof fn lemma_f64_mono(x: nat, y: nat)
    requires
        x <= y,
    ensures
        u64_as_f64(x) <= u64_as_f64(y),
{
    let sx = f64_shift(x);
    let sy = f64_shift(y);
    lemma_shift_mono(x, y);
    lemma_pow2_pos(sx);
    lemma_pow2_pos(sy);
    let dx = pow2(sx);
    let dy = pow2(sy);
    if sx == sy {
        lemma_rhe_mono(x, y, dx);
        let a = round_half_even(x, dx);
        let b = round_half_even(y, dx);
        assert(a * dx <= b * dx) by (nonlinear_arith)
            requires
                a <= b,
                dx >= 1,
        ;
    } else {
        lemma_shift_range(x);
        lemma_shift_range(y);
        let a = round_half_even(x, dx);
        let b = round_half_even(y, dy);
        assert(a <= two_53());
        assert(b >= 0x10_0000_0000_0000);
        lemma_pow2_add(sx, (sy - sx - 1) as nat);
        lemma_pow2_add((sy - 1) as nat, 1);
        lemma_pow2_pos((sy - sx - 1) as nat);
        lemma_pow2_consts();
        let e = pow2((sy - sx - 1) as nat);
        let dy1 = pow2((sy - 1) as nat);
        assert(dy1 == dx * e);
        assert(dy == dy1 * 2);
        assert(a * dx <= b * dy) by (nonlinear_arith)
            requires
                a <= 0x20_0000_0000_0000,
                b >= 0x10_0000_0000_0000,
                dy == dx * e * 2,
                e >= 1,
                dx >= 1,
        ;
    }
}

/// What the search for the quotient's scale finds: the first scale from `k` on
/// that reaches `2^52`, or 117.
proof fn lemma_binade_from(a: nat, b: nat, k: int)
    requires
        k <= 117,
    ensures
        k <= binade_from(a, b, k) <= 117,
        binade_from(a, b, k) < 117 ==> binade_ok(a, b, binade_from(a, b, k)),
        forall|j: int| k <= j < binade_from(a, b, k) ==> !#[trigger] binade_ok(a, b, j),
    decreases 117 - k,
{
    if k < 117 && !binade_ok(a, b, k) {
        lemma_binade_from(a, b, k + 1);
    }
}

/// A count rounded to a double stays within `2^64`.
proof fn lemma_f64_bound(x: nat)
    requires
        x <= 0xffff_ffff_ffff_ffff,
    ensures
        u64_as_f64(x) <= 0x1_0000_0000_0000_0000,
{
    let s = f64_shift(x);
    lemma_shift_range(x);
    lemma_pow2_pos(s);
    lemma_pow2_consts();
    let d = pow2(s);
    let m = round_half_even(x, d);
    assert(m <= x / d + 1);
    if s > 0 {
        vstd::arithmetic::div_mod::lemma_fundamental_div_mod(x as int, d as int);
        vstd::arithmetic::div_mod::lemma_mod_pos_bound(x as int, d as int);
        let q = x / d;
        assert(q * d <= x) by (nonlinear_arith)
            requires
                x == d * q + x % d,
                x % d >= 0,
        ;
        // q is a 53-bit number, so d is below 2^12, and m · d below 2^65
        assert(m * d <= q * d + d) by (nonlinear_arith)
            requires
                m <= q + 1,
                d >= 1,
        ;
        if m <= q {
            assert(m * d <= q * d) by (nonlinear_arith)
                requires
                    m <= q,
                    d >= 1,
            ;
        } else {
            // rounding up reaches at most the next multiple of d, which is at most 2^64
            assert(m == q + 1);
            assert(q + 1 <= two_53());
            assert(q >= 0x10_0000_0000_0000);
            assert(d <= 0x1000) by (nonlinear_arith)
                requires
                    q * d <= x,
                    q >= 0x10_0000_0000_0000,
                    x <= 0xffff_ffff_ffff_ffff,
            ;
            if s > 12 {
                lemma_pow2_mono(13, s);
            }
            lemma_pow2_of_power(s);
            assert((q + 1) * d <= 0x1_0000_0000_0000_0000) by (nonlinear_arith)
                requires
                    q * d <= x,
                    x <= 0xffff_ffff_ffff_ffff,
                    d >= 1,
                    d <= 0x1000,
                    (0x1_0000_0000_0000_0000 as int) % (d as int) == 0,
            {
                vstd::arithmetic::div_mod::lemma_fundamental_div_mod(
                    0x1_0000_0000_0000_0000int,
                    d as int,
                );
            }
        }
    } else {
        assert(d == 1);
        assert(x / 1 == x);
        assert(m * 1 == m);
    }
}

proof fn lemma_pow2_of_power(s: nat)
    requires
        s <= 12,
    ensures
        (0x1_0000_0000_0000_0000 as int) % (pow2(s) as int) == 0,
{
    lemma_pow2_add((64 - s) as nat, s);
    assert((64 - s) as nat + s == 64);
    lemma_pow2_consts();
    lemma_pow2_pos(s);
    vstd::arithmetic::div_mod::lemma_mod_multiples_basic(pow2((64 - s) as nat) as int, pow2(s) as int);
}

/// The percentage is at most 100 whenever the used part is at most the total.
pub proof fn lemma_percent_at_most_100(used: nat, total: nat)
    requires
        used <= total <= 0xffff_ffff_ffff_ffff,
    ensures
        percent_spec(used, total) <= 100,
{
    let a = u64_as_f64(used);
    let b = u64_as_f64(total);
    if total == 0 || a == 0 {
        return;
    }
    lemma_f64_mono(used, total);
    lemma_f64_mono(1, total);
    lemma_f64_bound(total);
    assert(u64_as_f64(1) == 1) by {
        assert(f64_shift(1) == 0);
        assert(pow2(0) == 1);
        assert(1nat / 1nat == 1);
        assert(1nat % 1nat == 0);
        assert(round_half_even(1, 1) == 1);
        let d = pow2(f64_shift(1));
        assert(d == 1);
        assert(round_half_even(1, d) * d == 1) by (nonlinear_arith)
            requires
                d == 1,
                round_half_even(1, 1) == 1,
        ;
    }
    lemma_pow2_consts();
    lemma_binade_from(a, b, -16);
    let k = quotient_exp(a, b);
    // a / b reaches 2^52 at scale 117 at the latest
    lemma_binade_high(a, b, 117);
    lemma_pow2_add(13, 52);
    assert(pow2(65) <= a * pow2(65)) by (nonlinear_arith)
        requires
            a >= 1,
    ;
    assert(binade_ok(a, b, k));
    // below scale 52 a / b would exceed 1
    if k < 52 {
        lemma_binade_low(a, b, k);
        let d = pow2((52 - k) as nat);
        lemma_pow2_mono(1, (52 - k) as nat);
        assert(a / d >= b);
        vstd::arithmetic::div_mod::lemma_div_is_ordered_by_denominator(a as int, 1, d as int);
        assert(a / d < a) by {
            vstd::arithmetic::div_mod::lemma_div_decreases(a as int, d as int);
        }
        assert(false);
    }
    let p = pow2(k as nat);
    lemma_pow2_pos(k as nat);
    let m = quotient_mantissa(a, b);
    assert(a * p <= p * b) by (nonlinear_arith)
        requires
            a <= b,
            p >= 1,
    ;
    lemma_round_at_most(a * p, b, p);
    assert(m <= p);
    let s = product_shift(m);
    let q = pow2((k - s) as nat);
    lemma_pow2_add((k - s) as nat, s);
    assert(pow2(k as nat) == q * pow2(s));
    lemma_pow2_pos(s);
    lemma_pow2_pos((k - s) as nat);
    assert(100 * m <= (100 * q) * pow2(s)) by (nonlinear_arith)
        requires
            m <= p,
            p == q * pow2(s),
    ;
    lemma_round_at_most(100 * m, pow2(s), 100 * q);
    let m2 = round_half_even(100 * m, pow2(s));
    assert(m2 <= 100 * q);
    assert(m2 <= 100 * q) by (nonlinear_arith)
        requires
            m2 <= 100 * q,
    ;
    lemma_round_at_most(m2, q, 100);
}

} // verus!
