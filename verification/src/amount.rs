//! Amounts: a decimal text scaled to whole base units.

use vstd::prelude::*;
use vstd::arithmetic::div_mod::{
    lemma_div_denominator, lemma_div_multiples_vanish, lemma_div_multiples_vanish_fancy,
};
use vstd::arithmetic::mul::lemma_mul_inequality;
use crate::error::Error;
use crate::text::{
    all_digits, char_is_digit, chars_of, decimal_u128, decimal_value, is_digit,
    lemma_decimal_bound, lemma_decimal_concat, lemma_pow10_add, lemma_pow10_monotonic, pow10,
};

verus! {

/// Where the decimal point of `s` stands: the index of its first `.`, or the
/// length of `s` where it has none.
pub open spec fn point_index(s: Seq<char>) -> int
    decreases s.len(),
{
    if s.len() == 0 || s[0] == '.' {
        0
    } else {
        1 + point_index(s.drop_first())
    }
}

/// What stands before the decimal point.
pub open spec fn whole_digits(s: Seq<char>) -> Seq<char> {
    s.take(point_index(s))
}

/// What stands after the decimal point; empty where there is none.
pub open spec fn fraction_digits(s: Seq<char>) -> Seq<char> {
    if point_index(s) < s.len() {
        s.skip(point_index(s) + 1)
    } else {
        Seq::empty()
    }
}

/// Whether `s` is an unsigned decimal number: digits, at most one point
/// among them, and at least one digit.
pub open spec fn is_decimal(s: Seq<char>) -> bool {
    &&& all_digits(whole_digits(s))
    &&& all_digits(fraction_digits(s))
    &&& whole_digits(s).len() + fraction_digits(s).len() >= 1
}

/// The amount `s` times `10^decimals`, rounded down to a whole number.
pub open spec fn scaled_amount(s: Seq<char>, decimals: nat) -> nat {
    (decimal_value(whole_digits(s) + fraction_digits(s)) * pow10(decimals) / pow10(
        fraction_digits(s).len(),
    )) as nat
}

/// The base units of the amount `s` at `decimals` decimal places, where `s`
/// is an unsigned decimal number and both `10^decimals` and the result fit
/// 128 bits.
pub open spec fn base_units(s: Seq<char>, decimals: nat) -> Option<nat> {
    if is_decimal(s) && pow10(decimals) <= u128::MAX && scaled_amount(s, decimals) <= u128::MAX {
        Some(scaled_amount(s, decimals))
    } else {
        None
    }
}

/// The first `.` of `s` is at `p`, or `s` has none and `p` is its length.
proof fn lemma_point_index(s: Seq<char>, p: int)
    requires
        0 <= p <= s.len(),
        forall|j: int| 0 <= j < p ==> s[j] != '.',
        p < s.len() ==> s[p] == '.',
    ensures
        point_index(s) == p,
    decreases s.len(),
{
    if s.len() > 0 && s[0] != '.' {
        let t = s.drop_first();
        assert forall|j: int| 0 <= j < p - 1 implies t[j] != '.' by {
            assert(t[j] == s[j + 1]);
        }
        lemma_point_index(t, p - 1);
    }
}

/// Scaling keeps the digits down to the `decimals`-th decimal place and
/// moves them up by the places that are left.
pub proof fn lemma_scaled_amount(s: Seq<char>, decimals: nat)
    requires
        is_decimal(s),
    ensures
        ({
            let frac = fraction_digits(s);
            let kept = if frac.len() <= decimals {
                frac.len()
            } else {
                decimals
            };
            scaled_amount(s, decimals) == decimal_value(whole_digits(s) + frac.take(kept as int))
                * pow10((decimals - kept) as nat)
        }),
{
    let whole = whole_digits(s);
    let frac = fraction_digits(s);
    let k = frac.len();
    let n = decimal_value(whole + frac) as int;
    lemma_pow10_monotonic(0, k);
    lemma_pow10_monotonic(0, decimals);
    if k <= decimals {
        let rest = (decimals - k) as nat;
        lemma_pow10_add(k, rest);
        assert(frac.take(k as int) =~= frac);
        let pk = pow10(k) as int;
        let pr = pow10(rest) as int;
        assert(pow10(decimals) == pk * pr);
        assert(n * (pk * pr) == pk * (n * pr)) by (nonlinear_arith);
        lemma_div_multiples_vanish(n * pr, pk);
        assert((n * pow10(decimals)) / pk == n * pr);
        assert(n * pr >= 0) by (nonlinear_arith)
            requires
                n >= 0,
                pr >= 0,
        ;
        assert(pow10((decimals - k) as nat) == pr);
        assert(scaled_amount(s, decimals) == n * pr);
    } else {
        let cut = (k - decimals) as nat;
        let head = frac.take(decimals as int);
        let tail = frac.skip(decimals as int);
        assert(whole + frac =~= (whole + head) + tail);
        lemma_decimal_concat(whole + head, tail);
        assert(all_digits(tail)) by {
            assert forall|i: int| 0 <= i < tail.len() implies is_digit(#[trigger] tail[i]) by {
                assert(tail[i] == frac[i + decimals]);
            }
        }
        lemma_decimal_bound(tail);
        lemma_pow10_add(cut, decimals);
        lemma_pow10_monotonic(0, cut);
        let a = decimal_value(whole + head) as int;
        let b = decimal_value(tail) as int;
        let q = pow10(cut) as int;
        let d = pow10(decimals) as int;
        assert(n == a * q + b);
        assert(pow10(k) == q * d);
        lemma_div_multiples_vanish(n, d);
        assert(n * d == d * n) by (nonlinear_arith);
        assert(q * d == d * q) by (nonlinear_arith);
        lemma_div_denominator(n * d, d, q);
        assert((n * d) / (d * q) == n / q);
        assert(a * q + b == q * a + b) by (nonlinear_arith);
        lemma_div_multiples_vanish_fancy(a, b, q);
        assert(n / q == a);
        assert((n * d) / (q * d) == a);
        assert(pow10(0) == 1);
        assert(a * 1 == a) by (nonlinear_arith);
        assert(scaled_amount(s, decimals) == a);
    }
}

/// Scaling loses less than one base unit: the scaled amount is the largest
/// whole number that is no more than the amount times `10^decimals`.
pub proof fn lemma_scaled_amount_precision(s: Seq<char>, decimals: nat)
    ensures
        ({
            let exact = decimal_value(whole_digits(s) + fraction_digits(s)) * pow10(decimals);
            let unit = pow10(fraction_digits(s).len());
            scaled_amount(s, decimals) * unit <= exact < (scaled_amount(s, decimals) + 1) * unit
        }),
{
    let exact = (decimal_value(whole_digits(s) + fraction_digits(s)) * pow10(decimals)) as int;
    let unit = pow10(fraction_digits(s).len()) as int;
    lemma_pow10_monotonic(0, fraction_digits(s).len());
    vstd::arithmetic::div_mod::lemma_fundamental_div_mod(exact, unit);
    vstd::arithmetic::div_mod::lemma_mod_bound(exact, unit);
    let q = exact / unit;
    assert(exact >= 0) by (nonlinear_arith)
        requires
            exact == decimal_value(whole_digits(s) + fraction_digits(s)) * pow10(decimals),
    ;
    vstd::arithmetic::div_mod::lemma_div_pos_is_pos(exact, unit);
    assert(q * unit == unit * q) by (nonlinear_arith);
    assert((q + 1) * unit == unit * q + unit) by (nonlinear_arith);
}

proof fn lemma_pow10_38()
    ensures
        pow10(38) == 100_000_000_000_000_000_000_000_000_000_000_000_000,
        pow10(38) <= u128::MAX,
        pow10(39) > u128::MAX,
{
    assert(pow10(0) == 1);
    assert(pow10(1) == 10);
    assert(pow10(2) == 100);
    assert(pow10(3) == 1_000);
    assert(pow10(4) == 10_000);
    assert(pow10(5) == 100_000);
    assert(pow10(6) == 1_000_000);
    assert(pow10(7) == 10_000_000);
    assert(pow10(8) == 100_000_000);
    assert(pow10(9) == 1_000_000_000);
    assert(pow10(10) == 10_000_000_000);
    assert(pow10(11) == 100_000_000_000);
    assert(pow10(12) == 1_000_000_000_000);
    assert(pow10(13) == 10_000_000_000_000);
    assert(pow10(14) == 100_000_000_000_000);
    assert(pow10(15) == 1_000_000_000_000_000);
    assert(pow10(16) == 10_000_000_000_000_000);
    assert(pow10(17) == 100_000_000_000_000_000);
    assert(pow10(18) == 1_000_000_000_000_000_000);
    assert(pow10(19) == 10_000_000_000_000_000_000);
    assert(pow10(20) == 100_000_000_000_000_000_000);
    assert(pow10(21) == 1_000_000_000_000_000_000_000);
    assert(pow10(22) == 10_000_000_000_000_000_000_000);
    assert(pow10(23) == 100_000_000_000_000_000_000_000);
    assert(pow10(24) == 1_000_000_000_000_000_000_000_000);
    assert(pow10(25) == 10_000_000_000_000_000_000_000_000);
    assert(pow10(26) == 100_000_000_000_000_000_000_000_000);
    assert(pow10(27) == 1_000_000_000_000_000_000_000_000_000);
    assert(pow10(28) == 10_000_000_000_000_000_000_000_000_000);
    assert(pow10(29) == 100_000_000_000_000_000_000_000_000_000);
    assert(pow10(30) == 1_000_000_000_000_000_000_000_000_000_000);
    assert(pow10(31) == 10_000_000_000_000_000_000_000_000_000_000);
    assert(pow10(32) == 100_000_000_000_000_000_000_000_000_000_000);
    assert(pow10(33) == 1_000_000_000_000_000_000_000_000_000_000_000);
    assert(pow10(34) == 10_000_000_000_000_000_000_000_000_000_000_000);
    assert(pow10(35) == 100_000_000_000_000_000_000_000_000_000_000_000);
    assert(pow10(36) == 1_000_000_000_000_000_000_000_000_000_000_000_000);
    assert(pow10(37) == 10_000_000_000_000_000_000_000_000_000_000_000_000);
    assert(pow10(38) == 100_000_000_000_000_000_000_000_000_000_000_000_000);
    assert(pow10(39) == 10 * pow10(38));
}

fn digits_in(chars: &Vec<char>, from: usize, to: usize) -> (b: bool)
    requires
        from <= to <= chars@.len(),
    ensures
        b == all_digits(chars@.subrange(from as int, to as int)),
{
    let mut i: usize = from;
    while i < to
        invariant
            from <= i <= to,
            to <= chars@.len(),
            forall|j: int| from <= j < i ==> is_digit(chars@[j]),
        decreases to - i,
    {
        if !char_is_digit(chars[i]) {
            assert(!is_digit(chars@.subrange(from as int, to as int)[i - from]));
            return false;
        }
        i = i + 1;
    }
    true
}

/// The base units of the decimal amount `amount` at `decimals` decimal
/// places: the amount times `10^decimals`, rounded down. Refused are a
/// text that is no unsigned decimal number, which every text with a sign
/// is; a `decimals` whose power of ten does not fit 128 bits; and a result
/// that does not fit them.
pub fn normalize_amount(amount: &str, decimals: u8) -> (r: Result<u128, Error>)
    ensures
        match base_units(amount@, decimals as nat) {
            Some(v) => r == Ok::<u128, Error>(v as u128),
            None => r == Err::<u128, Error>(Error::InvalidAmount),
        },
{
    let chars = chars_of(amount);
    let len = chars.len();
    let mut p: usize = 0;
    while p < len && chars[p] != '.'
        invariant
            p <= len,
            len == chars@.len(),
            forall|j: int| 0 <= j < p ==> chars@[j] != '.',
        decreases len - p,
    {
        p = p + 1;
    }
    let after: usize = if p < len {
        p + 1
    } else {
        len
    };
    let ghost s = amount@;
    let ghost whole = whole_digits(s);
    let ghost frac = fraction_digits(s);
    proof {
        lemma_point_index(s, p as int);
        assert(whole =~= chars@.subrange(0, p as int));
        assert(frac =~= chars@.subrange(after as int, len as int));
        lemma_pow10_38();
    }
    if !digits_in(&chars, 0, p) || !digits_in(&chars, after, len) || p + (len - after) == 0 {
        return Err(Error::InvalidAmount);
    }
    if decimals > 38 {
        proof {
            lemma_pow10_monotonic(39, decimals as nat);
        }
        return Err(Error::InvalidAmount);
    }
    proof {
        lemma_pow10_monotonic(decimals as nat, 38);
    }
    let k = len - after;
    let kept: usize = if k <= decimals as usize {
        k
    } else {
        decimals as usize
    };
    let mut used: Vec<char> = Vec::new();
    let mut i: usize = 0;
    while i < p
        invariant
            i <= p <= len,
            len == chars@.len(),
            used@ == chars@.subrange(0, i as int),
        decreases p - i,
    {
        used.push(chars[i]);
        i = i + 1;
        assert(used@ =~= chars@.subrange(0, i as int));
    }
    let mut j: usize = 0;
    assert(used@ =~= whole + frac.take(0));
    while j < kept
        invariant
            j <= kept <= k,
            k == len - after,
            after <= len,
            len == chars@.len(),
            frac == chars@.subrange(after as int, len as int),
            used@ == whole + frac.take(j as int),
        decreases kept - j,
    {
        used.push(chars[after + j]);
        j = j + 1;
        assert(used@ =~= whole + frac.take(j as int));
    }
    let ghost digits = used@;
    proof {
        lemma_scaled_amount(s, decimals as nat);
        assert(all_digits(digits)) by {
            assert forall|i: int| 0 <= i < digits.len() implies is_digit(#[trigger] digits[i]) by {
                if i < whole.len() {
                    assert(digits[i] == whole[i]);
                } else {
                    assert(digits[i] == frac[i - whole.len()]);
                }
            }
        }
    }
    let rest: usize = decimals as usize - kept;
    let ghost a = decimal_value(digits);
    assert(scaled_amount(s, decimals as nat) == a * pow10(rest as nat));
    let mut v: u128 = match decimal_u128(used.as_slice()) {
        Some(v) => v,
        None => {
            proof {
                lemma_pow10_monotonic(0, rest as nat);
                lemma_mul_inequality(1, pow10(rest as nat) as int, a as int);
                assert(pow10(rest as nat) * a == a * pow10(rest as nat)) by (nonlinear_arith);
            }
            return Err(Error::InvalidAmount);
        },
    };
    let mut t: usize = 0;
    assert(pow10(0) == 1);
    assert(a * 1 == a) by (nonlinear_arith);
    while t < rest
        invariant
            t <= rest,
            s == amount@,
            v as nat == a * pow10(t as nat),
            scaled_amount(s, decimals as nat) == a * pow10(rest as nat),
            base_units(s, decimals as nat) == if scaled_amount(s, decimals as nat) <= u128::MAX {
                Some(scaled_amount(s, decimals as nat))
            } else {
                None
            },
        decreases rest - t,
    {
        proof {
            let pt = pow10(t as nat);
            assert(pow10((t + 1) as nat) == 10 * pt);
            assert(a * (10 * pt) == (a * pt) * 10) by (nonlinear_arith);
            assert(v * 10 == a * pow10((t + 1) as nat));
            lemma_pow10_monotonic((t + 1) as nat, rest as nat);
            lemma_mul_inequality(
                pow10((t + 1) as nat) as int,
                pow10(rest as nat) as int,
                a as int,
            );
            assert(pow10((t + 1) as nat) * a == a * pow10((t + 1) as nat)) by (nonlinear_arith);
            assert(pow10(rest as nat) * a == a * pow10(rest as nat)) by (nonlinear_arith);
        }
        match v.checked_mul(10) {
            Some(w) => {
                v = w;
            },
            None => {
                return Err(Error::InvalidAmount);
            },
        }
        t = t + 1;
    }
    Ok(v)
}

} // verus!
