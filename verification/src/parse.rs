//! Reading numbers typed into the editor's dialogs.
use vstd::prelude::*;

verus! {

/// `c` is an ASCII digit.
pub open spec fn is_digit(c: char) -> bool {
    '0' <= c && c <= '9'
}

/// The value of the digits `cs`.
pub open spec fn digits_value(cs: Seq<char>) -> nat
    decreases cs.len(),
{
    if cs.len() == 0 {
        0
    } else {
        digits_value(cs.drop_last()) * 10 + (cs.last() as nat - '0' as nat) as nat
    }
}

/// The unsigned integer that text spells as the standard library reads it: an optional
/// `+`, then at least one digit.
pub open spec fn unsigned_text(cs: Seq<char>) -> Option<nat> {
    if unsigned_body(cs).len() > 0 && all_digits(unsigned_body(cs)) {
        Some(digits_value(unsigned_body(cs)))
    } else {
        None
    }
}

/// The text without a leading `+`.
pub open spec fn unsigned_body(cs: Seq<char>) -> Seq<char> {
    if cs.len() > 0 && cs[0] == '+' {
        cs.drop_first()
    } else {
        cs
    }
}

/// Every character is a digit.
pub open spec fn all_digits(cs: Seq<char>) -> bool {
    forall|i: int| 0 <= i < cs.len() ==> is_digit(#[trigger] cs[i])
}

proof fn lemma_digits_grow(cs: Seq<char>, k: int)
    requires
        0 <= k <= cs.len(),
        forall|i: int| 0 <= i < cs.len() ==> is_digit(#[trigger] cs[i]),
    ensures
        digits_value(cs.take(k)) <= digits_value(cs),
    decreases cs.len() - k,
{
    if k < cs.len() {
        lemma_digits_grow(cs, k + 1);
        assert(cs.take(k + 1).drop_last() =~= cs.take(k));
    } else {
        assert(cs.take(k) =~= cs);
    }
}

/// Read an unsigned integer no larger than `max`; `None` for anything else, a larger
/// number included.
pub fn parse_unsigned(cs: &Vec<char>, max: u64) -> (r: Option<u64>)
    ensures
        r == match unsigned_text(cs@) {
            Some(n) => if n <= max { Some(n as u64) } else { None },
            None => None,
        },
{
    let start: usize = if cs.len() > 0 && cs[0] == '+' { 1 } else { 0 };
    let ghost body = unsigned_body(cs@);
    proof {
        assert(body =~= cs@.skip(start as int));
    }
    if start >= cs.len() {
        return None;
    }
    let mut value: u64 = 0;
    let mut k: usize = start;
    while k < cs.len()
        invariant
            start <= k <= cs@.len(),
            body == cs@.skip(start as int),
            body == unsigned_body(cs@),
            value <= max,
            value == digits_value(body.take(k - start)),
            forall|i: int| 0 <= i < k - start ==> is_digit(#[trigger] body[i]),
        decreases cs@.len() - k,
    {
        let c = cs[k];
        if !('0' <= c && c <= '9') {
            proof {
                assert(body[k - start] == c);
                assert(!is_digit(body[k - start]));
                assert(!all_digits(body));
            }
            return None;
        }
        let d: u64 = (c as u32 - '0' as u32) as u64;
        proof {
            assert(body.take(k - start + 1).drop_last() =~= body.take(k - start));
            assert(body.take(k - start + 1).last() == c);
        }
        if value as u128 * 10 + d as u128 > max as u128 {
            proof {
                assert(digits_value(body.take(k - start + 1)) == value * 10 + d);
                assert(digits_value(body.take(k - start + 1)) > max);
                if all_digits(body) {
                    lemma_digits_grow(body, k - start + 1);
                }
            }
            return None;
        }
        value = value * 10 + d;
        k = k + 1;
    }
    proof {
        assert(body.take(k - start) =~= body);
    }
    Some(value)
}

/// The reading of a decimal number `digits[.digits]` after the first `k` characters:
/// `None` once it is malformed, else the digits read as a numerator, the power of ten
/// below the fractional digits, whether a point was seen and whether a digit was seen.
pub open spec fn ratio_state(cs: Seq<char>, k: int) -> Option<(nat, nat, bool, bool)>
    decreases k,
{
    if k <= 0 {
        Some((0, 1, false, false))
    } else {
        match ratio_state(cs, k - 1) {
            None => None,
            Some((num, den, dot, digit)) => {
                let c = cs[k - 1];
                if is_digit(c) {
                    Some((num * 10 + (c as nat - '0' as nat) as nat, if dot { den * 10 } else { den }, dot, true))
                } else if c == '.' && !dot {
                    Some((num, den, true, digit))
                } else {
                    None
                }
            },
        }
    }
}

/// The exact fraction a decimal number of digits and at most one point spells, when it
/// has a digit and both parts fit in a `u32`.
pub open spec fn decimal_ratio(cs: Seq<char>) -> Option<(u32, u32)> {
    match ratio_state(cs, cs.len() as int) {
        Some((num, den, _, digit)) => if digit && num <= u32::MAX && den <= u32::MAX {
            Some((num as u32, den as u32))
        } else {
            None
        },
        None => None,
    }
}

proof fn lemma_ratio_grows(cs: Seq<char>, k: int, n: int)
    requires
        0 <= k <= n <= cs.len(),
        ratio_state(cs, n) is Some,
    ensures
        ratio_state(cs, k) is Some,
        (ratio_state(cs, k)->0).0 <= (ratio_state(cs, n)->0).0,
        (ratio_state(cs, k)->0).1 <= (ratio_state(cs, n)->0).1,
    decreases n - k,
{
    if k < n {
        lemma_ratio_grows(cs, k, n - 1);
    }
}

/// Read a decimal number (digits with at most one point) as an exact fraction
/// `(numerator, denominator)`; `None` for other text or parts beyond `u32`.
pub fn parse_decimal_ratio(cs: &Vec<char>) -> (r: Option<(u32, u32)>)
    ensures
        r == decimal_ratio(cs@),
{
    let mut num: u64 = 0;
    let mut den: u64 = 1;
    let mut dot = false;
    let mut digit = false;
    let mut k: usize = 0;
    while k < cs.len()
        invariant
            k <= cs@.len(),
            ratio_state(cs@, k as int) == Some((num as nat, den as nat, dot, digit)),
            num <= u32::MAX,
            den <= u32::MAX,
        decreases cs@.len() - k,
    {
        let c = cs[k];
        if '0' <= c && c <= '9' {
            let d: u64 = (c as u32 - '0' as u32) as u64;
            let next_num = num * 10 + d;
            let next_den = if dot { den * 10 } else { den };
            if next_num > u32::MAX as u64 || next_den > u32::MAX as u64 {
                proof {
                    if ratio_state(cs@, cs@.len() as int) is Some {
                        lemma_ratio_grows(cs@, k + 1, cs@.len() as int);
                    }
                }
                return None;
            }
            num = next_num;
            den = next_den;
            digit = true;
        } else if c == '.' && !dot {
            dot = true;
        } else {
            proof {
                if ratio_state(cs@, cs@.len() as int) is Some {
                    lemma_ratio_grows(cs@, k + 1, cs@.len() as int);
                }
            }
            return None;
        }
        k = k + 1;
    }
    if !digit {
        return None;
    }
    Some((num as u32, den as u32))
}

} // verus!
