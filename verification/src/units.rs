//! Exact decimal rendering of the sizes the dashboard shows: the value a `u64` takes as an
//! `f64`, and one-decimal fixed-point text of a quotient, rounded half to even.
use vstd::prelude::*;
use crate::text::{dec_chars, digit_char, u128_chars, append};

verus! {

/// `2^k`.
pub open spec fn two_pow(k: nat) -> nat
    decreases k,
{
    if k == 0 {
        1
    } else {
        2 * two_pow((k - 1) as nat)
    }
}

/// Integers below `2^53` are exact in an `f64`.
pub open spec fn f64_exact_limit() -> nat {
    0x20_0000_0000_0000
}

/// How many low bits of `n` an `f64` cannot hold: the number of halvings that bring `n`
/// below `2^53`.
pub open spec fn f64_shift(n: nat) -> nat
    decreases n,
{
    if n < f64_exact_limit() {
        0
    } else {
        1 + f64_shift(n / 2)
    }
}

/// `num / den` rounded to the nearest integer, ties to the even one.
pub open spec fn div_round_even(num: nat, den: nat) -> nat
    recommends
        den > 0,
{
    let q = num / den;
    let r = num % den;
    if 2 * r > den || (2 * r == den && q % 2 == 1) {
        q + 1
    } else {
        q
    }
}

/// The value of `n as f64` for an integer `n`: `n` rounded to 53 significant bits, ties
/// to even.
pub open spec fn f64_value(n: nat) -> nat {
    let p = two_pow(f64_shift(n));
    div_round_even(n, p) * p
}

/// The text `format!("{:.1}", x)` gives for the exact value `x = num / den`: the value
/// rounded to tenths, ties to even.
pub open spec fn fixed1(num: nat, den: nat) -> Seq<char> {
    let t = div_round_even(num * 10, den);
    dec_chars(t / 10) + seq!['.', digit_char(t % 10)]
}

/// The nearest integer to `num / den`, ties to even.
pub fn div_round_even_exec(num: u128, den: u128) -> (r: u128)
    requires
        den > 0,
        num / den < u128::MAX,
    ensures
        r == div_round_even(num as nat, den as nat),
{
    let q = num / den;
    let r = num % den;
    if (r > den - r) || (r == den - r && q % 2 == 1) {
        q + 1
    } else {
        q
    }
}

/// The value `n as f64` holds, as an integer.
pub fn f64_value_exec(n: u64) -> (r: u128)
    ensures
        r == f64_value(n as nat),
        r <= 0x2_0000_0000_0000_0000,
{
    let mut t: u64 = n;
    let mut p: u128 = 1;
    let ghost mut sh: nat = 0;
    while t >= 0x20_0000_0000_0000
        invariant
            f64_shift(n as nat) == sh + f64_shift(t as nat),
            p == two_pow(sh),
            t as int == (n as int) / (p as int),
            1 <= p,
            p == 1 || p <= n,
            t * p <= n,
        decreases t,
    {
        proof {
            assert((n as int) / (p as int) / 2 == (n as int) / ((p as int) * 2)) by {
                vstd::arithmetic::div_mod::lemma_div_denominator(n as int, p as int, 2);
            }
            assert((t / 2) * (p * 2) <= t * p) by (nonlinear_arith)
                requires
                    t >= 0,
                    p >= 0,
            ;
            assert(p * 2 <= t * p) by (nonlinear_arith)
                requires
                    t >= 2,
                    p >= 1,
            ;
        }
        t = t / 2;
        p = p * 2;
        proof {
            sh = sh + 1;
        }
    }
    assert(f64_shift(t as nat) == 0);
    assert(sh == f64_shift(n as nat));
    let rounded = div_round_even_exec(n as u128, p);
    proof {
        assert(rounded <= t + 1);
        assert(rounded * p <= t * p + p) by (nonlinear_arith)
            requires
                rounded <= t + 1,
                p >= 0,
        ;
    }
    rounded * p
}

/// `format!("{:.1}", num as f64 / den as f64)` where both divisions are exact: the tenths
/// of `num / den`, rounded half to even.
pub fn fixed1_exec(num: u128, den: u128) -> (r: Vec<char>)
    requires
        den > 0,
        num <= 0x2_0000_0000_0000_0000,
    ensures
        r@ == fixed1(num as nat, den as nat),
{
    let t = div_round_even_exec(num * 10, den);
    assert(t <= num * 10 + 1);
    let whole = t / 10;
    let mut out = u128_chars(whole);
    out.push('.');
    let frac = u128_chars(t % 10);
    proof {
        let d = (t % 10) as nat;
        assert(dec_chars(d) =~= seq![digit_char(d)]);
    }
    append(&mut out, frac.as_slice());
    assert(out@ =~= fixed1(num as nat, den as nat));
    out
}

/// Integers below `2^53` are held exactly by an `f64`.
pub proof fn f64_exact_below_limit(n: nat)
    requires
        n < f64_exact_limit(),
    ensures
        f64_value(n) == n,
{
    assert(f64_shift(n) == 0);
    assert(two_pow(0) == 1);
    assert(n / 1 == n && n % 1 == 0);
    assert(div_round_even(n, 1) == n);
}

/// `2^k` is positive.
pub proof fn lemma_two_pow_positive(k: nat)
    ensures
        two_pow(k) >= 1,
    decreases k,
{
    if k > 0 {
        lemma_two_pow_positive((k - 1) as nat);
    }
}

/// Scaling a quotient's numerator and denominator alike does not change how it rounds.
pub proof fn lemma_div_round_even_scale(a: nat, b: nat, c: nat)
    requires
        b > 0,
        c > 0,
    ensures
        div_round_even(a * c, b * c) == div_round_even(a, b),
{
    let q = a / b;
    let r = a % b;
    vstd::arithmetic::div_mod::lemma_fundamental_div_mod(a as int, b as int);
    assert(a * c == q * (b * c) + r * c) by (nonlinear_arith)
        requires
            a == b * q + r,
    ;
    assert(0 <= r * c < b * c && b * c != 0) by (nonlinear_arith)
        requires
            0 <= r < b,
            c > 0,
    ;
    vstd::arithmetic::div_mod::lemma_fundamental_div_mod_converse(
        (a * c) as int,
        (b * c) as int,
        q as int,
        (r * c) as int,
    );
    assert((2 * (r * c) > b * c) == (2 * r > b)) by (nonlinear_arith)
        requires
            c > 0,
    ;
    assert((2 * (r * c) == b * c) == (2 * r == b)) by (nonlinear_arith)
        requires
            c > 0,
    ;
}

/// Doubling an integer doubles its `f64` value.
pub proof fn lemma_f64_value_double(n: nat)
    ensures
        f64_value(2 * n) == 2 * f64_value(n),
{
    if 2 * n < f64_exact_limit() {
        f64_exact_below_limit(2 * n);
        f64_exact_below_limit(n);
    } else {
        let s = f64_shift(n);
        assert((2 * n) / 2 == n);
        assert(f64_shift(2 * n) == s + 1);
        assert(two_pow(s + 1) == 2 * two_pow(s));
        lemma_two_pow_positive(s);
        let p = two_pow(s);
        lemma_div_round_even_scale(n, p, 2);
        assert(n * 2 == 2 * n && p * 2 == 2 * p) by (nonlinear_arith);
        assert(div_round_even(n, p) * (2 * p) == 2 * (div_round_even(n, p) * p)) by (nonlinear_arith);
    }
}

/// Scaling an integer by `2^k` scales its `f64` value by `2^k`.
pub proof fn lemma_f64_value_scale(n: nat, k: nat)
    ensures
        f64_value(n * two_pow(k)) == two_pow(k) * f64_value(n),
    decreases k,
{
    if k == 0 {
        assert(two_pow(0) == 1);
        assert(n * 1 == n);
        assert(1 * f64_value(n) == f64_value(n));
    } else {
        let m = two_pow((k - 1) as nat);
        assert(two_pow(k) == 2 * m);
        lemma_f64_value_scale(n, (k - 1) as nat);
        let x = n * m;
        lemma_f64_value_double(x);
        assert(n * (2 * m) == 2 * x) by (nonlinear_arith)
            requires
                x == n * m,
        ;
        assert(f64_value(2 * x) == 2 * (m * f64_value(n)));
        assert(2 * (m * f64_value(n)) == (2 * m) * f64_value(n)) by (nonlinear_arith);
        assert(n * two_pow(k) == 2 * x);
    }
}

/// `2^10 == 1024`.
pub proof fn lemma_two_pow_10()
    ensures
        two_pow(10) == 1024,
{
    reveal_with_fuel(two_pow, 11);
}

/// Text of a quotient to one decimal does not change when both sides are scaled alike.
pub proof fn lemma_fixed1_scale(num: nat, den: nat, c: nat)
    requires
        den > 0,
        c > 0,
    ensures
        fixed1(num * c, den * c) == fixed1(num, den),
{
    lemma_div_round_even_scale(num * 10, den, c);
    assert((num * c) * 10 == (num * 10) * c) by (nonlinear_arith);
}

} // verus!
