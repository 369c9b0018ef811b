//! Human-readable durations and sizes, with one decimal rendered as the formatting of a
//! double-precision value rounds it.
use vstd::prelude::*;

verus! {

/// `2^s`.
pub open spec fn two_pow(s: nat) -> nat
    decreases s,
{
    if s == 0 {
        1
    } else {
        2 * two_pow((s - 1) as nat)
    }
}

/// `a / b` rounded to the nearest integer, ties to even.
pub open spec fn round_half_even(a: nat, b: nat) -> nat {
    let q = a / b;
    let r = a % b;
    if 2 * r > b {
        q + 1
    } else if 2 * r < b {
        q
    } else if q % 2 == 0 {
        q
    } else {
        q + 1
    }
}

/// The shift `s`, from `s0` on, that puts `v * 2^s` in `[2^52 * d, 2^53 * d)`: the scale at
/// which the double nearest to `v / d` has an integer significand.
pub open spec fn significand_shift(v: nat, d: nat, s: nat) -> nat
    decreases 64 - s,
{
    if s >= 64 || v * two_pow(s) >= two_pow(52) * d {
        s
    } else {
        significand_shift(v, d, s + 1)
    }
}

/// Tenths in the one-decimal rendering of the double nearest to `v / 1000` (for
/// `0 < v < 2^16`): the double is `N / 2^s` with `N` the rounded significand, and its
/// tenths are rounded to the nearest, ties to even.
pub open spec fn tenths_of_thousandths(v: nat) -> nat {
    if v == 0 {
        0
    } else {
        let s = significand_shift(v, 1000, 0);
        let n = round_half_even(v * two_pow(s), 1000);
        round_half_even(10 * n, two_pow(s))
    }
}

/// The double nearest to the integer `n`: `n` itself below `2^53`, else `n` rounded to 53
/// significant bits, ties to even.
pub open spec fn nearest_double(n: nat, k: nat) -> nat
    decreases 64 - k,
{
    if n < two_pow(53) * two_pow(k) || k >= 64 {
        round_half_even(n, two_pow(k)) * two_pow(k)
    } else {
        nearest_double(n, k + 1)
    }
}

/// Tenths in the one-decimal rendering of `double(n) / 2^shift`, ties to even.
pub open spec fn tenths_of_binary(n: nat, shift: nat) -> nat {
    round_half_even(10 * nearest_double(n, 0), two_pow(shift))
}

/// Decimal digits of `n`.
pub open spec fn decimal(n: nat) -> Seq<char>
    decreases n,
{
    if n < 10 {
        seq![digit_char(n)]
    } else {
        decimal(n / 10) + seq![digit_char(n % 10)]
    }
}

/// The digit character for `d < 10`.
pub open spec fn digit_char(d: nat) -> char {
    ((d + 48) as u8) as char
}

/// `q` tenths rendered with one decimal: `"12.3"` for 123.
pub open spec fn one_decimal(q: nat) -> Seq<char> {
    decimal(q / 10) + seq!['.'] + seq![digit_char(q % 10)]
}

fn digit_str(d: u64) -> (r: &'static str)
    requires
        d < 10,
    ensures
        r@ == seq![digit_char(d as nat)],
{
    proof {
        reveal_strlit("0");
        reveal_strlit("1");
        reveal_strlit("2");
        reveal_strlit("3");
        reveal_strlit("4");
        reveal_strlit("5");
        reveal_strlit("6");
        reveal_strlit("7");
        reveal_strlit("8");
        reveal_strlit("9");
    }
    let r = match d {
        0 => "0",
        1 => "1",
        2 => "2",
        3 => "3",
        4 => "4",
        5 => "5",
        6 => "6",
        7 => "7",
        8 => "8",
        _ => "9",
    };
    assert(r@ =~= seq![digit_char(d as nat)]);
    r
}

/// Append the decimal digits of `n`.
pub(crate) fn push_decimal(s: &mut String, n: u128)
    ensures
        final(s)@ == old(s)@ + decimal(n as nat),
    decreases n,
{
    if n < 10 {
        s.append(digit_str(n as u64));
    } else {
        push_decimal(s, n / 10);
        s.append(digit_str((n % 10) as u64));
        assert(final(s)@ =~= old(s)@ + decimal(n as nat));
    }
}

/// Append `q` tenths with one decimal.
fn push_one_decimal(s: &mut String, q: u128)
    ensures
        final(s)@ == old(s)@ + one_decimal(q as nat),
{
    push_decimal(s, q / 10);
    proof {
        reveal_strlit(".");
    }
    s.append(".");
    s.append(digit_str((q % 10) as u64));
    assert(final(s)@ =~= old(s)@ + one_decimal(q as nat));
}

fn round_even(a: u128, b: u128) -> (r: u128)
    requires
        b > 0,
        a / b < u128::MAX,
    ensures
        r == round_half_even(a as nat, b as nat),
{
    let q = a / b;
    let r = a % b;
    if r > b - r {
        q + 1
    } else if r < b - r {
        q
    } else if q % 2 == 0 {
        q
    } else {
        q + 1
    }
}

proof fn lemma_two_pow_pos(s: nat)
    ensures
        two_pow(s) >= 1,
    decreases s,
{
    if s > 0 {
        lemma_two_pow_pos((s - 1) as nat);
    }
}

proof fn lemma_two_pow_mono(a: nat, b: nat)
    requires
        a <= b,
    ensures
        two_pow(a) <= two_pow(b),
    decreases b,
{
    if a < b {
        lemma_two_pow_mono(a, (b - 1) as nat);
        lemma_two_pow_pos((b - 1) as nat);
    }
}

/// Tenths of the double nearest to `v / 1000`.
fn tenths_thousandths(v: u64) -> (r: u128)
    requires
        v < 65536,
    ensures
        r == tenths_of_thousandths(v as nat),
{
    if v == 0 {
        return 0;
    }
    let target: u128 = 4503599627370496 * 1000;
    let mut s: u64 = 0;
    let mut pw: u128 = 1;
    proof {
        assert(v * pw == v);
        assert(two_pow(52) == 4503599627370496) by {
            reveal_with_fuel(two_pow, 53);
        }
    }
    while (v as u128) * pw < target && s < 64
        invariant
            0 < v < 65536,
            s <= 64,
            pw == two_pow(s as nat),
            target == two_pow(52) * 1000,
            target == 4503599627370496000,
            v * pw < 2 * target,
            pw <= v * pw,
            significand_shift(v as nat, 1000, s as nat) == significand_shift(v as nat, 1000, 0),
        decreases 64 - s,
    {
        assert(v * (pw * 2) == 2 * (v * pw) && pw * 2 <= v * (pw * 2)) by (nonlinear_arith)
            requires
                v >= 1,
        ;
        pw = pw * 2;
        s = s + 1;
    }
    proof {
        lemma_two_pow_pos(s as nat);
        assert(v * pw < 2 * target);
    }
    let n = round_even(v as u128 * pw, 1000);
    assert(n <= 2 * 4503599627370496 + 1);
    let r = round_even(10 * n, pw);
    r
}

/// The double nearest to `n`, as an integer.
fn nearest_double_of(n: u64) -> (r: u128)
    ensures
        r == nearest_double(n as nat, 0),
        r <= n + 2048,
{
    let limit: u128 = 9007199254740992;
    proof {
        assert(two_pow(53) == 9007199254740992) by {
            reveal_with_fuel(two_pow, 54);
        }
    }
    let mut k: u64 = 0;
    let mut pk: u128 = 1;
    while !((n as u128) < limit * pk) && k < 64
        invariant
            k <= 11,
            pk == two_pow(k as nat),
            pk <= 2048,
            limit == 9007199254740992,
            limit == two_pow(53),
            (k < 11 ==> pk <= 1024) && (k == 11 ==> pk == 2048),
            nearest_double(n as nat, k as nat) == nearest_double(n as nat, 0),
            k == 11 ==> (n as u128) < limit * pk,
        decreases 64 - k,
    {
        proof {
            if k == 10 {
                assert(two_pow(10) == 1024) by {
                    reveal_with_fuel(two_pow, 11);
                }
                assert(limit * (pk * 2) == 18446744073709551616);
            }
        }
        pk = pk * 2;
        k = k + 1;
        proof {
            if k < 11 {
                assert(pk <= 1024) by {
                    lemma_two_pow_mono(k as nat, 10);
                    assert(two_pow(10) == 1024) by {
                        reveal_with_fuel(two_pow, 11);
                    }
                }
            } else {
                assert(two_pow(11) == 2048) by {
                    reveal_with_fuel(two_pow, 12);
                }
            }
        }
    }
    let q = round_even(n as u128, pk);
    proof {
        let nn = n as int;
        let pp = pk as int;
        assert(q <= nn / pp + 1);
        assert(pp * (nn / pp) <= nn) by (nonlinear_arith)
            requires
                pp >= 1,
                nn >= 0,
        ;
        assert(q * pp <= nn + pp) by (nonlinear_arith)
            requires
                q <= nn / pp + 1,
                pp * (nn / pp) <= nn,
                pp >= 1,
                q >= 0,
        ;
    }
    q * pk
}

/// The rendering of a duration in milliseconds: `"500ms"`, `"1.5s"`, `"1m 5.0s"`.
pub open spec fn duration_text(ms: nat) -> Seq<char> {
    if ms < 1000 {
        decimal(ms) + seq!['m', 's']
    } else if ms < 60000 {
        one_decimal(tenths_of_thousandths(ms)) + seq!['s']
    } else {
        decimal(ms / 60000) + seq!['m', ' '] + one_decimal(tenths_of_thousandths(ms % 60000)) + seq!['s']
    }
}

/// The rendering of a size in bytes: `"500 B"`, `"1.5 KB"`, `"1.5 MB"`.
pub open spec fn size_text(bytes: nat) -> Seq<char> {
    if bytes < 1024 {
        decimal(bytes) + seq![' ', 'B']
    } else if bytes < 1048576 {
        one_decimal(tenths_of_binary(bytes, 10)) + seq![' ', 'K', 'B']
    } else {
        one_decimal(tenths_of_binary(bytes, 20)) + seq![' ', 'M', 'B']
    }
}

/// Format a duration in milliseconds: whole milliseconds below a second, seconds with one
/// decimal below a minute, else minutes and seconds.
pub fn format_duration(ms: u64) -> (r: String)
    ensures
        r@ == duration_text(ms as nat),
{
    let mut s = String::new();
    if ms < 1000 {
        push_decimal(&mut s, ms as u128);
        proof {
            reveal_strlit("ms");
        }
        s.append("ms");
        assert(s@ =~= duration_text(ms as nat));
    } else if ms < 60000 {
        let t = tenths_thousandths(ms);
        push_one_decimal(&mut s, t);
        proof {
            reveal_strlit("s");
        }
        s.append("s");
        assert(s@ =~= duration_text(ms as nat));
    } else {
        push_decimal(&mut s, (ms / 60000) as u128);
        proof {
            reveal_strlit("m ");
            reveal_strlit("s");
        }
        s.append("m ");
        let t = tenths_thousandths(ms % 60000);
        push_one_decimal(&mut s, t);
        s.append("s");
        assert(s@ =~= duration_text(ms as nat));
    }
    s
}

/// Format a size in bytes: bytes below 1 KiB, else KiB or MiB with one decimal.
pub fn format_size(bytes: u64) -> (r: String)
    ensures
        r@ == size_text(bytes as nat),
{
    let mut s = String::new();
    proof {
        assert(two_pow(10) == 1024) by {
            reveal_with_fuel(two_pow, 11);
        }
        assert(two_pow(20) == 1048576) by {
            reveal_with_fuel(two_pow, 21);
        }
    }
    if bytes < 1024 {
        push_decimal(&mut s, bytes as u128);
        proof {
            reveal_strlit(" B");
        }
        s.append(" B");
        assert(s@ =~= size_text(bytes as nat));
    } else if bytes < 1048576 {
        let d = nearest_double_of(bytes);
        let t = round_even(10 * d, 1024);
        push_one_decimal(&mut s, t);
        proof {
            reveal_strlit(" KB");
        }
        s.append(" KB");
        assert(s@ =~= size_text(bytes as nat));
    } else {
        let d = nearest_double_of(bytes);
        let t = round_even(10 * d, 1048576);
        push_one_decimal(&mut s, t);
        proof {
            reveal_strlit(" MB");
        }
        s.append(" MB");
        assert(s@ =~= size_text(bytes as nat));
    }
    s
}

/// The double nearest to `v / d` for `v / d >= 2^53`: `v / d` rounded, ties to even, to
/// a multiple of `2^k` with `k` the least from `k` on that leaves 53 significant bits.
pub open spec fn high_ratio_double(v: nat, d: nat, k: nat) -> nat
    decreases 64 - k,
{
    if v < two_pow(53) * two_pow(k) * d || k >= 64 {
        round_half_even(v, d * two_pow(k)) * two_pow(k)
    } else {
        high_ratio_double(v, d, k + 1)
    }
}

/// The double nearest to `v / d` (`d > 0`), truncated toward zero.
pub open spec fn truncated_ratio_double(v: nat, d: nat) -> nat {
    if v == 0 {
        0
    } else if v < two_pow(53) * d {
        let s = significand_shift(v, d, 0);
        round_half_even(v * two_pow(s), d) / two_pow(s)
    } else {
        high_ratio_double(v, d, 0)
    }
}

/// `n as f64 / 1.5`, truncated to an integer: `n` is rounded to a double, divided by 1.5
/// (that is, `2 * double(n) / 3` rounded to a double), then truncated.
pub open spec fn div_one_and_half(n: nat) -> nat {
    truncated_ratio_double(2 * nearest_double(n, 0), 3)
}

/// `n as f64 / 1.5` truncated to a `u64`, computed exactly in integers.
pub fn div_by_one_and_half(n: u64) -> (r: u64)
    ensures
        r == div_one_and_half(n as nat),
{
    let d = nearest_double_of(n);
    let v: u128 = 2 * d;
    if v == 0 {
        return 0;
    }
    let limit: u128 = 9007199254740992;
    proof {
        assert(two_pow(53) == 9007199254740992) by {
            reveal_with_fuel(two_pow, 54);
        }
        assert(two_pow(52) == 4503599627370496) by {
            reveal_with_fuel(two_pow, 53);
        }
        assert(two_pow(0) == 1);
    }
    if v < limit * 3 {
        let target: u128 = 4503599627370496 * 3;
        let mut s: u64 = 0;
        let mut pw: u128 = 1;
        while v * pw < target && s < 64
            invariant
                1 <= v < limit * 3,
                limit == 9007199254740992,
                s <= 64,
                pw == two_pow(s as nat),
                target == two_pow(52) * 3,
                target == 13510798882111488,
                v * pw < 2 * target,
                1 <= pw <= v * pw,
                significand_shift(v as nat, 3, s as nat) == significand_shift(v as nat, 3, 0),
            decreases 64 - s,
        {
            assert(v * (pw * 2) == 2 * (v * pw) && pw * 2 <= v * (pw * 2)) by (nonlinear_arith)
                requires
                    v >= 1,
            ;
            pw = pw * 2;
            s = s + 1;
        }
        proof {
            assert(significand_shift(v as nat, 3, s as nat) == s);
        }
        let m = round_even(v * pw, 3);
        let q = m / pw;
        proof {
            let vv = v as int;
            let pp = pw as int;
            let mm = m as int;
            assert(mm <= (vv * pp) / 3 + 1);
            assert(mm / pp <= vv + 1) by (nonlinear_arith)
                requires
                    mm <= (vv * pp) / 3 + 1,
                    pp >= 1,
                    vv >= 1,
                    mm >= 0,
            ;
        }
        q as u64
    } else {
        let mut k: u64 = 0;
        let mut pk: u128 = 1;
        proof {
            assert(two_pow(12) == 4096) by {
                reveal_with_fuel(two_pow, 13);
            }
        }
        while !(v < limit * pk * 3) && k < 64
            invariant
                limit * 3 <= v,
                v <= 2 * (n as u128) + 4096,
                limit == 9007199254740992,
                limit == two_pow(53),
                two_pow(12) == 4096,
                k <= 12,
                pk == two_pow(k as nat),
                1 <= pk <= 4096,
                k == 12 ==> pk == 4096,
                high_ratio_double(v as nat, 3, k as nat) == high_ratio_double(v as nat, 3, 0),
            decreases 64 - k,
        {
            proof {
                if k == 12 {
                    assert(v < limit * pk * 3);
                }
                if k < 12 {
                    lemma_two_pow_mono(k as nat, 11);
                    assert(two_pow(11) == 2048) by {
                        reveal_with_fuel(two_pow, 12);
                    }
                }
            }
            pk = pk * 2;
            k = k + 1;
        }
        proof {
            assert(v < limit * pk * 3);
            assert(high_ratio_double(v as nat, 3, k as nat) == round_half_even(v as nat, 3 * pk as nat) * pk);
        }
        let m = round_even(v, 3 * pk);
        proof {
            let vv = v as int;
            let pp = pk as int;
            let mm = m as int;
            assert(mm <= vv / (3 * pp) + 1);
            assert(mm * pp <= vv / 3 + pp) by (nonlinear_arith)
                requires
                    mm <= vv / (3 * pp) + 1,
                    pp >= 1,
                    vv >= 0,
                    mm >= 0,
            ;
        }
        let q = m * pk;
        q as u64
    }
}

} // verus!
