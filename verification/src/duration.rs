//! Durations written as segments of a number and a unit, such as `2d12h`.

use vstd::prelude::*;
use crate::error::{Error, ErrorModel};
use crate::text::{
    all_digits, char_is_digit, chars_of, decimal_u128, decimal_value, is_digit, string_push,
};

verus! {

/// The seconds in one unit: `s`, `m`, `h` or `d`.
pub open spec fn unit_seconds(unit: Seq<char>) -> Option<nat> {
    if unit == seq!['s'] {
        Some(1)
    } else if unit == seq!['m'] {
        Some(60)
    } else if unit == seq!['h'] {
        Some(3600)
    } else if unit == seq!['d'] {
        Some(86400)
    } else {
        None
    }
}

/// The digits of a number: the text without a leading `+`.
pub open spec fn number_digits(num: Seq<char>) -> Seq<char> {
    if num.len() > 0 && num[0] == '+' {
        num.drop_first()
    } else {
        num
    }
}

/// Whether `num` is a decimal number: one or more digits, after at most one
/// `+`.
pub open spec fn is_number(num: Seq<char>) -> bool {
    number_digits(num).len() >= 1 && all_digits(number_digits(num))
}

/// The seconds of one segment. A text that is no number is an invalid
/// number; then a unit that is none of the four is an invalid unit; then a
/// product beyond 64 bits is an overflow.
pub open spec fn segment_seconds(num: Seq<char>, unit: Seq<char>) -> Result<nat, ErrorModel> {
    if !is_number(num) {
        Err(ErrorModel::InvalidNumber)
    } else {
        match unit_seconds(unit) {
            None => Err(ErrorModel::InvalidUnit(unit)),
            Some(m) => {
                if decimal_value(number_digits(num)) * m > u64::MAX {
                    Err(ErrorModel::Overflow)
                } else {
                    Ok(decimal_value(number_digits(num)) * m)
                }
            },
        }
    }
}

/// How many digits `s` begins with.
pub open spec fn digit_run(s: Seq<char>) -> nat
    decreases s.len(),
{
    if s.len() == 0 || !is_digit(s[0]) {
        0
    } else {
        1 + digit_run(s.drop_first())
    }
}

/// How many characters that are no digits `s` begins with.
pub open spec fn unit_run(s: Seq<char>) -> nat
    decreases s.len(),
{
    if s.len() == 0 || is_digit(s[0]) {
        0
    } else {
        1 + unit_run(s.drop_first())
    }
}

/// Whether a digit occurs in `s`.
pub open spec fn has_digit(s: Seq<char>) -> bool {
    exists|i: int| 0 <= i < s.len() && is_digit(#[trigger] s[i])
}

/// The seconds of the segments of `s` added to `total`, segment by segment
/// from the left: a segment is the digits that `s` begins with and the
/// characters up to the next digit. The first segment that fails, or the
/// first sum beyond 64 bits, decides the error.
pub open spec fn duration_from(s: Seq<char>, total: nat) -> Result<nat, ErrorModel>
    decreases s.len(),
    via duration_from_decreases
{
    if s.len() == 0 {
        Ok(total)
    } else {
        let n = digit_run(s);
        let u = unit_run(s.skip(n as int));
        match segment_seconds(s.take(n as int), s.subrange(n as int, (n + u) as int)) {
            Err(e) => Err(e),
            Ok(v) => {
                if total + v > u64::MAX {
                    Err(ErrorModel::Overflow)
                } else {
                    duration_from(s.skip((n + u) as int), total + v)
                }
            },
        }
    }
}

#[via_fn]
proof fn duration_from_decreases(s: Seq<char>, total: nat) {
    if s.len() > 0 {
        lemma_segment_length(s);
    }
}

/// The first segment of a text that is not empty has at least one
/// character, and no more than the text.
pub proof fn lemma_segment_length(s: Seq<char>)
    requires
        s.len() > 0,
    ensures
        1 <= digit_run(s) + unit_run(s.skip(digit_run(s) as int)) <= s.len(),
{
    lemma_digit_run_ends(s);
    lemma_unit_run_ends(s.skip(digit_run(s) as int));
    if digit_run(s) == 0 {
        assert(s.skip(0) =~= s);
    }
}

/// The seconds that the duration `s` stands for: the sum of its segments. A
/// text without any digit holds no segment and stands for 0 seconds.
pub open spec fn duration_seconds(s: Seq<char>) -> Result<nat, ErrorModel> {
    if has_digit(s) {
        duration_from(s, 0)
    } else {
        Ok(0)
    }
}

/// A result with its number as a natural number and its error as a model.
pub open spec fn seconds_model(r: Result<u64, Error>) -> Result<nat, ErrorModel> {
    match r {
        Ok(v) => Ok(v as nat),
        Err(e) => Err(e@),
    }
}

/// The digits that `s` begins with are its first `n` characters.
pub proof fn lemma_digit_run(s: Seq<char>, n: int)
    requires
        0 <= n <= s.len(),
        forall|j: int| 0 <= j < n ==> is_digit(s[j]),
        n < s.len() ==> !is_digit(s[n]),
    ensures
        digit_run(s) == n,
    decreases s.len(),
{
    if n > 0 {
        let t = s.drop_first();
        assert forall|j: int| 0 <= j < n - 1 implies is_digit(t[j]) by {
            assert(t[j] == s[j + 1]);
        }
        lemma_digit_run(t, n - 1);
    }
}

/// The characters that are no digits and that `s` begins with are its first
/// `n` characters.
pub proof fn lemma_unit_run(s: Seq<char>, n: int)
    requires
        0 <= n <= s.len(),
        forall|j: int| 0 <= j < n ==> !is_digit(s[j]),
        n < s.len() ==> is_digit(s[n]),
    ensures
        unit_run(s) == n,
    decreases s.len(),
{
    if n > 0 {
        let t = s.drop_first();
        assert forall|j: int| 0 <= j < n - 1 implies !is_digit(t[j]) by {
            assert(t[j] == s[j + 1]);
        }
        lemma_unit_run(t, n - 1);
    }
}

/// Where `s` begins with `n` digits and then `u` characters that are no
/// digits, up to a digit or the end, those are its first segment.
pub proof fn lemma_first_segment(s: Seq<char>, n: nat, u: nat, total: nat)
    requires
        1 <= n + u <= s.len(),
        forall|j: int| 0 <= j < n ==> is_digit(s[j]),
        forall|j: int| n <= j < n + u ==> !is_digit(s[j]),
        n + u < s.len() ==> is_digit(s[(n + u) as int]),
        u == 0 ==> n == s.len(),
    ensures
        duration_from(s, total) == match segment_seconds(
            s.take(n as int),
            s.subrange(n as int, (n + u) as int),
        ) {
            Err(e) => Err(e),
            Ok(v) => if total + v > u64::MAX {
                Err(ErrorModel::Overflow)
            } else {
                duration_from(s.skip((n + u) as int), total + v)
            },
        },
{
    lemma_digit_run(s, n as int);
    let tail = s.skip(n as int);
    assert forall|j: int| 0 <= j < u implies !is_digit(tail[j]) by {
        assert(tail[j] == s[j + n]);
    }
    if u < tail.len() {
        assert(tail[u as int] == s[(n + u) as int]);
    }
    lemma_unit_run(tail, u as int);
}

/// The seconds of one segment: the number `num` times the seconds of the
/// unit `unit`.
pub fn parse_single(num: &str, unit: &str) -> (r: Result<u64, Error>)
    ensures
        seconds_model(r) == segment_seconds(num@, unit@),
{
    let chars = chars_of(num);
    let len = chars.len();
    let start: usize = if len > 0 && chars[0] == '+' {
        1
    } else {
        0
    };
    let ghost digits = number_digits(num@);
    assert(digits =~= chars@.skip(start as int));
    let mut body: Vec<char> = Vec::new();
    let mut i: usize = start;
    while i < len
        invariant
            start <= i <= len,
            len == chars@.len(),
            body@ == chars@.subrange(start as int, i as int),
            all_digits(body@),
            digits == chars@.skip(start as int),
            digits == number_digits(num@),
        decreases len - i,
    {
        if !char_is_digit(chars[i]) {
            assert(!is_digit(digits[i - start]));
            return Err(Error::InvalidNumber);
        }
        body.push(chars[i]);
        i = i + 1;
        assert(body@ =~= chars@.subrange(start as int, i as int));
    }
    assert(body@ =~= digits);
    if body.len() == 0 {
        return Err(Error::InvalidNumber);
    }
    let units = chars_of(unit);
    let per: u64 = if units.len() == 1 && units[0] == 's' {
        1
    } else if units.len() == 1 && units[0] == 'm' {
        60
    } else if units.len() == 1 && units[0] == 'h' {
        3600
    } else if units.len() == 1 && units[0] == 'd' {
        86400
    } else {
        assert(unit_seconds(unit@) is None) by {
            if unit@.len() == 1 {
                assert(seq!['s'][0] == 's' && seq!['m'][0] == 'm' && seq!['h'][0] == 'h' && seq![
                    'd',
                ][0] == 'd');
            }
        }
        return Err(Error::InvalidUnit(String::from_str(unit)));
    };
    assert(unit_seconds(unit@) == Some(per as nat)) by {
        assert(unit@ =~= seq![unit@[0]]);
    }
    let ghost value = decimal_value(digits);
    match decimal_u128(body.as_slice()) {
        None => {
            assert(value * per >= value) by (nonlinear_arith)
                requires
                    per >= 1,
                    value >= 0,
            ;
            Err(Error::Overflow)
        },
        Some(v) => {
            if v > u64::MAX as u128 {
                assert(value * per >= value) by (nonlinear_arith)
                    requires
                        per >= 1,
                        value >= 0,
                ;
                Err(Error::Overflow)
            } else {
                match (v as u64).checked_mul(per) {
                    Some(w) => Ok(w),
                    None => Err(Error::Overflow),
                }
            }
        },
    }
}

/// The seconds that the duration `s` stands for: the sum of its segments,
/// each a number and a unit among `s`, `m`, `h`, `d`.
pub fn parse_duration(s: &str) -> (r: Result<u64, Error>)
    ensures
        seconds_model(r) == duration_seconds(s@),
{
    let chars = chars_of(s);
    let len = chars.len();
    let mut total: u64 = 0;
    let mut buf = String::new();
    let mut unit = String::new();
    let ghost mut from: int = 0;
    let mut i: usize = 0;
    assert(s@.skip(0) =~= s@);
    while i < len
        invariant
            0 <= from <= i <= len,
            len == chars@.len(),
            chars@ == s@,
            from + buf@.len() + unit@.len() == i,
            buf@ == s@.subrange(from, from + buf@.len()),
            unit@ == s@.subrange(from + buf@.len(), i as int),
            all_digits(buf@),
            forall|j: int| 0 <= j < unit@.len() ==> !is_digit(#[trigger] unit@[j]),
            buf@.len() == 0 ==> from == 0 && total == 0 && !has_digit(s@.take(i as int)),
            duration_from(s@, 0) == duration_from(s@.skip(from), total as nat),
        decreases len - i,
    {
        let c = chars[i];
        if char_is_digit(c) {
            if !unit.as_str().is_empty() {
                let ghost rest = s@.skip(from);
                let ghost n = buf@.len();
                let ghost u = unit@.len();
                proof {
                    assert forall|j: int| 0 <= j < n implies is_digit(rest[j]) by {
                        assert(rest[j] == buf@[j]);
                    }
                    assert forall|j: int| n <= j < n + u implies !is_digit(rest[j]) by {
                        assert(rest[j] == unit@[j - n]);
                    }
                    assert(rest[(n + u) as int] == c);
                    lemma_first_segment(rest, n, u, total as nat);
                    assert(rest.take(n as int) =~= buf@);
                    assert(rest.subrange(n as int, (n + u) as int) =~= unit@);
                    assert(rest.skip((n + u) as int) =~= s@.skip(i as int));
                }
                match parse_single(buf.as_str(), unit.as_str()) {
                    Err(e) => {
                        return Err(e);
                    },
                    Ok(v) => {
                        match total.checked_add(v) {
                            None => {
                                return Err(Error::Overflow);
                            },
                            Some(t) => {
                                total = t;
                            },
                        }
                    },
                }
                buf = String::new();
                unit = String::new();
                proof {
                    from = i as int;
                }
            }
            string_push(&mut buf, c);
            proof {
                assert(buf@ =~= s@.subrange(from, from + buf@.len()));
                assert(unit@ =~= s@.subrange(from + buf@.len(), i + 1));
            }
        } else {
            string_push(&mut unit, c);
            proof {
                assert(unit@ =~= s@.subrange(from + buf@.len(), i + 1));
                if buf@.len() == 0 {
                    assert(!has_digit(s@.take(i + 1))) by {
                        if has_digit(s@.take(i + 1)) {
                            let w = choose|w: int|
                                0 <= w < s@.take(i + 1).len() && is_digit(
                                    #[trigger] s@.take(i + 1)[w],
                                );
                            if w < i {
                                assert(is_digit(s@.take(i as int)[w]));
                            }
                        }
                    }
                }
            }
        }
        i = i + 1;
    }
    assert(s@.take(len as int) =~= s@);
    if !buf.as_str().is_empty() {
        let ghost rest = s@.skip(from);
        let ghost n = buf@.len();
        let ghost u = unit@.len();
        proof {
            assert forall|j: int| 0 <= j < n implies is_digit(rest[j]) by {
                assert(rest[j] == buf@[j]);
            }
            assert forall|j: int| n <= j < n + u implies !is_digit(rest[j]) by {
                assert(rest[j] == unit@[j - n]);
            }
            lemma_first_segment(rest, n, u, total as nat);
            assert(rest.take(n as int) =~= buf@);
            assert(rest.subrange(n as int, (n + u) as int) =~= unit@);
            assert(rest.skip((n + u) as int).len() == 0);
            assert(is_digit(s@[from]) && has_digit(s@)) by {
                assert(s@[from] == buf@[0]);
            }
        }
        match parse_single(buf.as_str(), unit.as_str()) {
            Err(e) => {
                return Err(e);
            },
            Ok(v) => {
                match total.checked_add(v) {
                    None => {
                        return Err(Error::Overflow);
                    },
                    Some(t) => {
                        total = t;
                    },
                }
            },
        }
    } else {
        assert(from == 0 && total == 0);
    }
    Ok(total)
}

/// The digits that `s` begins with: all digits, and followed by none.
pub proof fn lemma_digit_run_ends(s: Seq<char>)
    ensures
        digit_run(s) <= s.len(),
        forall|j: int| 0 <= j < digit_run(s) ==> is_digit(#[trigger] s[j]),
        digit_run(s) < s.len() ==> !is_digit(s[digit_run(s) as int]),
    decreases s.len(),
{
    if s.len() > 0 && is_digit(s[0]) {
        let t = s.drop_first();
        lemma_digit_run_ends(t);
        assert forall|j: int| 0 <= j < digit_run(s) implies is_digit(#[trigger] s[j]) by {
            if j > 0 {
                assert(s[j] == t[j - 1]);
            }
        }
        if digit_run(s) < s.len() {
            assert(s[digit_run(s) as int] == t[digit_run(t) as int]);
        }
    }
}

/// The characters that `s` begins with and that are no digits: none is a
/// digit, and a digit or the end follows.
pub proof fn lemma_unit_run_ends(s: Seq<char>)
    ensures
        unit_run(s) <= s.len(),
        forall|j: int| 0 <= j < unit_run(s) ==> !is_digit(#[trigger] s[j]),
        unit_run(s) < s.len() ==> is_digit(s[unit_run(s) as int]),
    decreases s.len(),
{
    if s.len() > 0 && !is_digit(s[0]) {
        let t = s.drop_first();
        lemma_unit_run_ends(t);
        assert forall|j: int| 0 <= j < unit_run(s) implies !is_digit(#[trigger] s[j]) by {
            if j > 0 {
                assert(s[j] == t[j - 1]);
            }
        }
        if unit_run(s) < s.len() {
            assert(s[unit_run(s) as int] == t[unit_run(t) as int]);
        }
    }
}

/// What is known of the first segment of a text whose segments all succeed:
/// it has `n >= 1` digits and one unit character, its seconds `v` fit, and
/// the rest succeeds from the new total.
proof fn lemma_ok_first_segment(s: Seq<char>, total: nat) -> (r: (nat, nat))
    requires
        s.len() > 0,
        duration_from(s, total) is Ok,
    ensures
        ({
            let (n, v) = r;
            &&& n == digit_run(s)
            &&& 1 <= n < s.len()
            &&& unit_run(s.skip(n as int)) == 1
            &&& segment_seconds(s.take(n as int), s.subrange(n as int, (n + 1) as int)) == Ok::<
                nat,
                ErrorModel,
            >(v)
            &&& total + v <= u64::MAX
            &&& duration_from(s, total) == duration_from(s.skip((n + 1) as int), total + v)
            &&& is_digit(s[0])
            &&& !is_digit(s[n as int])
            &&& n + 1 < s.len() ==> is_digit(s[(n + 1) as int])
            &&& forall|j: int| 0 <= j < n ==> is_digit(#[trigger] s[j])
        }),
{
    let n = digit_run(s);
    let tail = s.skip(n as int);
    let u = unit_run(tail);
    lemma_digit_run_ends(s);
    lemma_unit_run_ends(tail);
    if n == 0 {
        assert(tail =~= s);
    }
    assert(1 <= n + u <= s.len());
    let num = s.take(n as int);
    let unit = s.subrange(n as int, (n + u) as int);
    assert(segment_seconds(num, unit) is Ok);
    assert(is_number(num));
    assert(n >= 1) by {
        if n == 0 {
            assert(number_digits(num).len() == 0);
        }
    }
    assert(unit.len() == 1) by {
        assert(unit_seconds(unit) is Some);
        assert(seq!['s'].len() == 1 && seq!['m'].len() == 1 && seq!['h'].len() == 1 && seq![
            'd',
        ].len() == 1);
    }
    let v = segment_seconds(num, unit)->Ok_0;
    assert(s[n as int] == tail[0]);
    if n + 1 < s.len() {
        assert(s[(n + 1) as int] == tail[1]);
    }
    (n, v)
}

/// A text whose segments all succeed from a total within 64 bits gives a
/// sum within 64 bits and no less than that total.
pub proof fn lemma_duration_from_bounds(s: Seq<char>, total: nat)
    requires
        total <= u64::MAX,
        duration_from(s, total) is Ok,
    ensures
        total <= duration_from(s, total)->Ok_0 <= u64::MAX,
    decreases s.len(),
{
    if s.len() > 0 {
        let (n, v) = lemma_ok_first_segment(s, total);
        lemma_duration_from_bounds(s.skip((n + 1) as int), total + v);
    }
}

/// Segments that succeed from one total succeed from a larger one too,
/// unless the sum then leaves 64 bits.
proof fn lemma_duration_from_shift(s: Seq<char>, total: nat, more: nat)
    requires
        total + more <= u64::MAX,
        duration_from(s, total) is Ok,
    ensures
        duration_from(s, total + more) == if duration_from(s, total)->Ok_0 + more <= u64::MAX {
            Ok::<nat, ErrorModel>(duration_from(s, total)->Ok_0 + more)
        } else {
            Err::<nat, ErrorModel>(ErrorModel::Overflow)
        },
    decreases s.len(),
{
    if s.len() > 0 {
        let (n, v) = lemma_ok_first_segment(s, total);
        let rest = s.skip((n + 1) as int);
        lemma_duration_from_bounds(rest, total + v);
        assert forall|j: int| n <= j < n + 1 implies !is_digit(s[j]) by {}
        lemma_first_segment(s, n, 1, total + more);
        if total + more + v <= u64::MAX {
            lemma_duration_from_shift(rest, total + v, more);
        }
    }
}

/// Segments of `a`, then those of `b`: the sum runs on through `b` from
/// what `a` came to.
proof fn lemma_duration_from_concat(a: Seq<char>, b: Seq<char>, total: nat)
    requires
        duration_from(a, total) is Ok,
        b.len() == 0 || is_digit(b[0]),
    ensures
        duration_from(a + b, total) == duration_from(b, duration_from(a, total)->Ok_0),
    decreases a.len(),
{
    if a.len() == 0 {
        assert(a + b =~= b);
    } else {
        let (n, v) = lemma_ok_first_segment(a, total);
        let ab = a + b;
        assert forall|j: int| 0 <= j < n implies is_digit(ab[j]) by {
            assert(ab[j] == a[j]);
        }
        assert forall|j: int| n <= j < n + 1 implies !is_digit(ab[j]) by {
            assert(ab[j] == a[j]);
        }
        if n + 1 < ab.len() {
            if n + 1 < a.len() {
                assert(ab[(n + 1) as int] == a[(n + 1) as int]);
            } else {
                assert(ab[(n + 1) as int] == b[0]);
            }
        }
        lemma_first_segment(ab, n, 1, total);
        assert(ab.take(n as int) =~= a.take(n as int));
        assert(ab.subrange(n as int, (n + 1) as int) =~= a.subrange(n as int, (n + 1) as int));
        assert(ab.skip((n + 1) as int) =~= a.skip((n + 1) as int) + b);
        lemma_duration_from_concat(a.skip((n + 1) as int), b, total + v);
    }
}

/// Durations add up under concatenation: where `a` and `b` each stand for a
/// number of seconds, `a` followed by `b` stands for the sum, or overflows
/// where the sum leaves 64 bits. So `1h1h` stands for what `2h` stands for.
/// This is stated of texts that hold a segment or are empty: a text of
/// unit characters alone stands for 0 seconds by itself, and is part of a
/// unit when it follows a segment.
pub proof fn lemma_duration_additive(a: Seq<char>, b: Seq<char>, x: nat, y: nat)
    requires
        duration_seconds(a) == Ok::<nat, ErrorModel>(x),
        duration_seconds(b) == Ok::<nat, ErrorModel>(y),
        a.len() == 0 || has_digit(a),
        b.len() == 0 || has_digit(b),
    ensures
        duration_seconds(a + b) == if x + y <= u64::MAX {
            Ok::<nat, ErrorModel>(x + y)
        } else {
            Err::<nat, ErrorModel>(ErrorModel::Overflow)
        },
        duration_seconds(a + b) matches Ok(z) ==> z >= x && z >= y,
{
    if a.len() == 0 {
        assert(a + b =~= b);
        if b.len() > 0 {
            lemma_duration_from_bounds(b, 0);
        }
    } else if b.len() == 0 {
        assert(a + b =~= a);
        lemma_duration_from_bounds(a, 0);
    } else {
        let i = choose|i: int| 0 <= i < a.len() && is_digit(#[trigger] a[i]);
        assert((a + b)[i] == a[i]);
        assert(has_digit(a + b));
        lemma_duration_from_bounds(a, 0);
        let (n, v) = lemma_ok_first_segment(b, 0);
        lemma_duration_from_concat(a, b, 0);
        lemma_duration_from_shift(b, 0, x);
    }
}

} // verus!
