//! Hexadecimal text: rendering bytes, and reading fixed-length identifiers.

use vstd::prelude::*;
use crate::error::{Error, Field};
use crate::text::chars_of;

verus! {

/// The sixteen lowercase hexadecimal digits, by value.
pub open spec fn hex_digits() -> Seq<char> {
    seq!['0', '1', '2', '3', '4', '5', '6', '7', '8', '9', 'a', 'b', 'c', 'd', 'e', 'f']
}

/// Two lowercase hexadecimal digits per byte, high nibble first.
pub open spec fn hex_lower(bytes: Seq<u8>) -> Seq<char> {
    Seq::new(
        2 * bytes.len(),
        |i: int| if i % 2 == 0 {
            hex_digits()[bytes[i / 2] as int / 16]
        } else {
            hex_digits()[bytes[i / 2] as int % 16]
        },
    )
}

/// The two characters `0x`.
pub open spec fn hex_prefix() -> Seq<char> {
    seq!['0', 'x']
}

/// `0x` followed by the lowercase hexadecimal digits of `bytes`.
pub open spec fn hex_prefixed(bytes: Seq<u8>) -> Seq<char> {
    hex_prefix() + hex_lower(bytes)
}

/// Whether `c` is a hexadecimal digit of either case.
pub open spec fn is_hex_digit(c: char) -> bool {
    ('0' <= c && c <= '9') || ('a' <= c && c <= 'f') || ('A' <= c && c <= 'F')
}

/// The value, 0 to 15, of the hexadecimal digit `c`.
pub open spec fn hex_digit_value(c: char) -> int
    recommends
        is_hex_digit(c),
{
    if '0' <= c && c <= '9' {
        c as int - '0' as int
    } else if 'a' <= c && c <= 'f' {
        c as int - 'a' as int + 10
    } else {
        c as int - 'A' as int + 10
    }
}

/// The blanks that may stand anywhere among an identifier's digits.
pub open spec fn is_hex_blank(c: char) -> bool {
    c == ' ' || c == '\r' || c == '\n' || c == '\t'
}

/// Whether `s` begins with `0x`.
pub open spec fn has_hex_prefix(s: Seq<char>) -> bool {
    s.len() >= 2 && s[0] == '0' && s[1] == 'x'
}

/// `s` without a leading `0x`.
pub open spec fn hex_body(s: Seq<char>) -> Seq<char> {
    if has_hex_prefix(s) {
        s.skip(2)
    } else {
        s
    }
}

/// `s` with its blanks taken out.
pub open spec fn without_blanks(s: Seq<char>) -> Seq<char>
    decreases s.len(),
{
    if s.len() == 0 {
        s
    } else if is_hex_blank(s.last()) {
        without_blanks(s.drop_last())
    } else {
        without_blanks(s.drop_last()).push(s.last())
    }
}

/// Whether every character of `s` is a hexadecimal digit.
pub open spec fn all_hex(s: Seq<char>) -> bool {
    forall|i: int| 0 <= i < s.len() ==> is_hex_digit(#[trigger] s[i])
}

/// The bytes that the digits `d` spell, two digits per byte, high nibble first.
pub open spec fn bytes_of_hex(d: Seq<char>) -> Seq<u8> {
    Seq::new(
        (d.len() / 2) as nat,
        |i: int| (hex_digit_value(d[2 * i]) * 16 + hex_digit_value(d[2 * i + 1])) as u8,
    )
}

/// The `n` bytes that the identifier `s` names, if it is well formed: an
/// optional `0x`, then exactly `2 * n` hexadecimal digits of either case,
/// among which blanks are passed over.
pub open spec fn parse_hex_id(s: Seq<char>, n: nat) -> Option<Seq<u8>> {
    let d = without_blanks(hex_body(s));
    if d.len() == 2 * n && all_hex(d) {
        Some(bytes_of_hex(d))
    } else {
        None
    }
}

/// `hex::encode`: the bytes as lowercase hexadecimal text, two digits per
/// byte in order, the high nibble first, taken from the table
/// `0123456789abcdef`.
#[verifier::external_body]
pub(crate) fn hex_encode(data: &[u8]) -> (s: String)
    ensures
        s@ == hex_lower(data@),
{
    ::hex::encode(data)
}

/// `0x` and the lowercase hexadecimal digits of `data`.
pub fn to_hex_prefixed(data: &[u8]) -> (s: String)
    ensures
        s@ == hex_prefixed(data@),
{
    proof {
        reveal_strlit("0x");
    }
    let digits = hex_encode(data);
    let s = String::from_str("0x").concat(digits.as_str());
    assert(s@ =~= hex_prefixed(data@));
    s
}

fn nibble_of(c: char) -> (r: Option<u8>)
    ensures
        r is Some <==> is_hex_digit(c),
        r matches Some(v) ==> v as int == hex_digit_value(c) && v < 16,
{
    if '0' <= c && c <= '9' {
        Some(((c as u32) - ('0' as u32)) as u8)
    } else if 'a' <= c && c <= 'f' {
        Some(((c as u32) - ('a' as u32) + 10) as u8)
    } else if 'A' <= c && c <= 'F' {
        Some(((c as u32) - ('A' as u32) + 10) as u8)
    } else {
        None
    }
}

fn char_is_hex_blank(c: char) -> (b: bool)
    ensures
        b == is_hex_blank(c),
{
    c == ' ' || c == '\r' || c == '\n' || c == '\t'
}

/// Taking blanks out makes a text no longer.
pub proof fn lemma_without_blanks_len(s: Seq<char>)
    ensures
        without_blanks(s).len() <= s.len(),
    decreases s.len(),
{
    if s.len() > 0 {
        lemma_without_blanks_len(s.drop_last());
    }
}

/// A text without blanks stays as it is.
pub proof fn lemma_without_blanks_none(s: Seq<char>)
    requires
        forall|i: int| 0 <= i < s.len() ==> !is_hex_blank(#[trigger] s[i]),
    ensures
        without_blanks(s) == s,
    decreases s.len(),
{
    if s.len() > 0 {
        let t = s.drop_last();
        assert forall|i: int| 0 <= i < t.len() implies !is_hex_blank(#[trigger] t[i]) by {
            assert(t[i] == s[i]);
        }
        lemma_without_blanks_none(t);
        assert(t.push(s.last()) =~= s);
    }
}

/// Each of the sixteen digits is a hexadecimal digit with its own value,
/// and no blank.
pub proof fn lemma_hex_digit(k: int)
    requires
        0 <= k < 16,
    ensures
        is_hex_digit(hex_digits()[k]),
        hex_digit_value(hex_digits()[k]) == k,
        !is_hex_blank(hex_digits()[k]),
        hex_digits()[k] != 'x',
{
    let d = hex_digits();
    assert(d[0] == '0' && d[1] == '1' && d[2] == '2' && d[3] == '3');
    assert(d[4] == '4' && d[5] == '5' && d[6] == '6' && d[7] == '7');
    assert(d[8] == '8' && d[9] == '9' && d[10] == 'a' && d[11] == 'b');
    assert(d[12] == 'c' && d[13] == 'd' && d[14] == 'e' && d[15] == 'f');
}

/// Reading undoes writing: the hexadecimal text of bytes, with or without
/// `0x` before it, names those bytes.
pub proof fn lemma_hex_round_trip(bytes: Seq<u8>)
    ensures
        parse_hex_id(hex_prefixed(bytes), bytes.len()) == Some(bytes),
        parse_hex_id(hex_lower(bytes), bytes.len()) == Some(bytes),
{
    let h = hex_lower(bytes);
    assert forall|i: int| 0 <= i < h.len() implies is_hex_digit(#[trigger] h[i]) && !is_hex_blank(
        h[i],
    ) && h[i] != 'x' by {
        let b = bytes[i / 2] as int;
        lemma_hex_digit(b / 16);
        lemma_hex_digit(b % 16);
    }
    lemma_without_blanks_none(h);
    assert(hex_body(hex_prefixed(bytes)) =~= h) by {
        assert(hex_prefixed(bytes)[0] == '0');
        assert(hex_prefixed(bytes)[1] == 'x');
    }
    assert(hex_body(h) == h) by {
        if h.len() >= 2 {
            assert(h[1] != 'x');
        }
    }
    assert(bytes_of_hex(h) =~= bytes) by {
        assert forall|i: int| 0 <= i < bytes.len() implies bytes_of_hex(h)[i] == bytes[i] by {
            let b = bytes[i] as int;
            lemma_hex_digit(b / 16);
            lemma_hex_digit(b % 16);
            assert(h[2 * i] == hex_digits()[b / 16]);
            assert(h[2 * i + 1] == hex_digits()[b % 16]);
        }
    }
}

/// Reads the identifier `s` of `n` bytes.
pub fn parse_hex(s: &str, n: usize) -> (r: Option<Vec<u8>>)
    ensures
        r is Some <==> parse_hex_id(s@, n as nat) is Some,
        r matches Some(v) ==> Some(v@) == parse_hex_id(s@, n as nat),
{
    let chars = chars_of(s);
    let len = chars.len();
    let start: usize = if len >= 2 && chars[0] == '0' && chars[1] == 'x' {
        2
    } else {
        0
    };
    let ghost body = hex_body(s@);
    assert(body =~= chars@.skip(start as int));
    let mut nibbles: Vec<u8> = Vec::new();
    let mut ok = true;
    let mut i: usize = start;
    assert(body.take(0) =~= Seq::<char>::empty());
    while i < len
        invariant
            start <= i <= len,
            len == chars@.len(),
            body == chars@.skip(start as int),
            ok <==> all_hex(without_blanks(body.take(i - start))),
            ok ==> nibbles@.len() == without_blanks(body.take(i - start)).len(),
            ok ==> forall|j: int|
                0 <= j < nibbles@.len() ==> #[trigger] nibbles@[j] as int == hex_digit_value(
                    without_blanks(body.take(i - start))[j],
                ) && nibbles@[j] < 16,
        decreases len - i,
    {
        let c = chars[i];
        let ghost before = without_blanks(body.take(i - start));
        let ghost after = without_blanks(body.take(i + 1 - start));
        proof {
            let t = body.take(i + 1 - start);
            assert(t.drop_last() =~= body.take(i - start));
            assert(t.last() == c);
            assert(after == if is_hex_blank(c) {
                before
            } else {
                before.push(c)
            });
        }
        if !char_is_hex_blank(c) {
            match nibble_of(c) {
                Some(v) => {
                    if ok {
                        nibbles.push(v);
                        assert(all_hex(after)) by {
                            assert forall|j: int| 0 <= j < after.len() implies is_hex_digit(
                                #[trigger] after[j],
                            ) by {
                                if j < before.len() {
                                    assert(after[j] == before[j]);
                                }
                            }
                        }
                    } else {
                        assert(!all_hex(after)) by {
                            let w = choose|j: int| 0 <= j < before.len() && !is_hex_digit(before[j]);
                            assert(after[w] == before[w]);
                        }
                    }
                },
                None => {
                    assert(!is_hex_digit(after[after.len() - 1]));
                    ok = false;
                },
            }
        }
        i = i + 1;
    }
    let ghost d = without_blanks(body);
    assert(body.take(len - start) =~= body);
    if n > usize::MAX / 2 {
        proof {
            lemma_without_blanks_len(body);
        }
        return None;
    }
    if !ok || nibbles.len() != 2 * n {
        return None;
    }
    let mut out: Vec<u8> = Vec::new();
    let mut k: usize = 0;
    while k < n
        invariant
            k <= n,
            n <= usize::MAX / 2,
            nibbles@.len() == 2 * n,
            nibbles@.len() == d.len(),
            forall|j: int|
                0 <= j < nibbles@.len() ==> #[trigger] nibbles@[j] as int == hex_digit_value(d[j])
                    && nibbles@[j] < 16,
            out@.len() == k,
            forall|j: int| 0 <= j < k ==> out@[j] == #[trigger] bytes_of_hex(d)[j],
        decreases n - k,
    {
        let hi = nibbles[2 * k];
        let lo = nibbles[2 * k + 1];
        out.push(hi * 16 + lo);
        k = k + 1;
    }
    assert(out@ =~= bytes_of_hex(d));
    Some(out)
}

/// Reads a 20-byte address; a malformed one is reported under `field`.
pub fn parse_address(s: &str, field: Field) -> (r: Result<[u8; 20], Error>)
    ensures
        match parse_hex_id(s@, 20) {
            Some(b) => r matches Ok(a) && a@ == b,
            None => r == Err::<[u8; 20], Error>(Error::InvalidArgument(field)),
        },
{
    match parse_hex(s, 20) {
        Some(v) => {
            let mut a = [0u8; 20];
            let mut i: usize = 0;
            while i < 20
                invariant
                    i <= 20,
                    v@.len() == 20,
                    forall|j: int| 0 <= j < i ==> a@[j] == v@[j],
                decreases 20 - i,
            {
                a[i] = v[i];
                i = i + 1;
            }
            assert(a@ =~= v@);
            Ok(a)
        },
        None => Err(Error::InvalidArgument(field)),
    }
}

/// Reads a 32-byte value; a malformed one is reported under `field`.
pub fn parse_bytes32(s: &str, field: Field) -> (r: Result<[u8; 32], Error>)
    ensures
        match parse_hex_id(s@, 32) {
            Some(b) => r matches Ok(a) && a@ == b,
            None => r == Err::<[u8; 32], Error>(Error::InvalidArgument(field)),
        },
{
    match parse_hex(s, 32) {
        Some(v) => {
            let mut a = [0u8; 32];
            let mut i: usize = 0;
            while i < 32
                invariant
                    i <= 32,
                    v@.len() == 32,
                    forall|j: int| 0 <= j < i ==> a@[j] == v@[j],
                decreases 32 - i,
            {
                a[i] = v[i];
                i = i + 1;
            }
            assert(a@ =~= v@);
            Ok(a)
        },
        None => Err(Error::InvalidArgument(field)),
    }
}

} // verus!
