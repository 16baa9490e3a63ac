//! Call data for the escrow contract: a four-byte selector, then one 32-byte
//! word per argument. The bytes are made by `ethers`; what they are is
//! stated here, and reading them back is proved against that statement.

use vstd::prelude::*;
use ethers::abi::{ParamType, Token};
use ethers::types::{H160, U256};
use crate::hash::keccak256_digest;

verus! {

/// The type of a call's parameter, as the contract declares it.
#[derive(Debug, Clone, Copy, PartialEq, Eq, Structural)]
pub enum ParamKind {
    /// `address`: 20 bytes.
    Address,
    /// `uint256`: an unsigned integer.
    Uint256,
    /// `bool`.
    Bool,
    /// `bytes32`: exactly 32 bytes.
    Bytes32,
}

/// The value of a call's argument. An unsigned integer is held in 128 bits:
/// no amount or timestamp of this client is wider.
#[derive(Debug, Clone, Copy, PartialEq, Eq)]
pub enum AbiValue {
    Address([u8; 20]),
    Uint(u128),
    Bool(bool),
    Bytes32([u8; 32]),
}

impl AbiValue {
    /// The parameter type that this value fills.
    pub open spec fn spec_kind(self) -> ParamKind {
        match self {
            AbiValue::Address(_) => ParamKind::Address,
            AbiValue::Uint(_) => ParamKind::Uint256,
            AbiValue::Bool(_) => ParamKind::Bool,
            AbiValue::Bytes32(_) => ParamKind::Bytes32,
        }
    }

    /// The parameter type that this value fills.
    pub fn kind(&self) -> (k: ParamKind)
        ensures
            k == self.spec_kind(),
    {
        match self {
            AbiValue::Address(_) => ParamKind::Address,
            AbiValue::Uint(_) => ParamKind::Uint256,
            AbiValue::Bool(_) => ParamKind::Bool,
            AbiValue::Bytes32(_) => ParamKind::Bytes32,
        }
    }
}

/// The parameter types of `args`, in order.
pub open spec fn kinds_of(args: Seq<AbiValue>) -> Seq<ParamKind> {
    Seq::new(args.len(), |i: int| args[i].spec_kind())
}

/// A parameter type's name in a signature.
pub open spec fn kind_name(k: ParamKind) -> Seq<char> {
    match k {
        ParamKind::Address => "address"@,
        ParamKind::Uint256 => "uint256"@,
        ParamKind::Bool => "bool"@,
        ParamKind::Bytes32 => "bytes32"@,
    }
}

/// The names of `kinds`, joined by commas.
pub open spec fn joined_kinds(kinds: Seq<ParamKind>) -> Seq<char>
    decreases kinds.len(),
{
    if kinds.len() == 0 {
        Seq::empty()
    } else if kinds.len() == 1 {
        kind_name(kinds[0])
    } else {
        joined_kinds(kinds.drop_last()) + ","@ + kind_name(kinds.last())
    }
}

/// The canonical signature: the function's name, then its parameter types
/// in parentheses, joined by commas, with no spaces.
pub open spec fn canonical_signature(name: Seq<char>, kinds: Seq<ParamKind>) -> Seq<char> {
    name + "("@ + joined_kinds(kinds) + ")"@
}

/// The first four bytes of the Keccak-256 digest of the signature's UTF-8
/// bytes.
pub open spec fn spec_selector(signature: Seq<char>) -> Seq<u8> {
    let h = keccak256_digest(vstd::utf8::encode_utf8(signature));
    seq![h[0], h[1], h[2], h[3]]
}

/// `n` modulo `256^len` as `len` bytes, the most significant first.
pub open spec fn be_bytes(n: nat, len: nat) -> Seq<u8>
    decreases len,
{
    if len == 0 {
        Seq::empty()
    } else {
        be_bytes(n / 256, (len - 1) as nat).push((n % 256) as u8)
    }
}

/// `len` zero bytes.
pub open spec fn zero_bytes(len: nat) -> Seq<u8> {
    Seq::new(len, |i: int| 0u8)
}

/// The word of an address: twelve zero bytes, then its 20 bytes.
pub open spec fn address_word(a: Seq<u8>) -> Seq<u8> {
    zero_bytes(12) + a
}

/// The word of an unsigned integer: its 32 bytes, the most significant first.
pub open spec fn uint_word(n: nat) -> Seq<u8> {
    be_bytes(n, 32)
}

/// The word of a boolean: the integer 1 for true, 0 for false.
pub open spec fn bool_word(b: bool) -> Seq<u8> {
    zero_bytes(31).push(if b { 1u8 } else { 0u8 })
}

/// The 32-byte word of one argument: an address after twelve zero bytes, an
/// integer big-endian, a boolean as the integer 0 or 1, 32 bytes as they are.
pub open spec fn spec_word(v: AbiValue) -> Seq<u8> {
    match v {
        AbiValue::Address(a) => address_word(a@),
        AbiValue::Uint(n) => uint_word(n as nat),
        AbiValue::Bool(b) => bool_word(b),
        AbiValue::Bytes32(b) => b@,
    }
}

/// The words of `args`, one after the other.
pub open spec fn spec_words(args: Seq<AbiValue>) -> Seq<u8>
    decreases args.len(),
{
    if args.len() == 0 {
        Seq::empty()
    } else {
        spec_words(args.drop_last()) + spec_word(args.last())
    }
}

/// The call data of the function `name` applied to `args`: the selector of
/// its canonical signature, then the arguments' words.
pub open spec fn spec_call_data(name: Seq<char>, args: Seq<AbiValue>) -> Seq<u8> {
    spec_selector(canonical_signature(name, kinds_of(args))) + spec_words(args)
}

/// `ethers::abi::short_signature`: the first four bytes of the Keccak-256
/// digest, by `sha3`, of the text that it makes of the name and the
/// parameter types: the name, then the types' names in parentheses, joined
/// by commas.
#[verifier::external_body]
pub(crate) fn abi_short_signature(name: &str, kinds: &Vec<ParamKind>) -> (r: [u8; 4])
    ensures
        r@ == spec_selector(canonical_signature(name@, kinds@)),
{
    let params: Vec<ParamType> = kinds.iter().map(|k| match k {
        ParamKind::Address => ParamType::Address,
        ParamKind::Uint256 => ParamType::Uint(256),
        ParamKind::Bool => ParamType::Bool,
        ParamKind::Bytes32 => ParamType::FixedBytes(32),
    }).collect();
    ethers::abi::short_signature(name, &params)
}

/// How many values one call may have: fewer than `2^27`. The encoder adds
/// up 32 bytes for each value in 32 bits.
pub const MAX_VALUES: usize = 0x0800_0000;

/// `ethers::abi::encode`: one word of 32 bytes for each value, in order: an
/// address in the last 20 bytes of a zero word, an integer big-endian, a
/// boolean as a zero word with 1 at the end for true, 32 bytes as they are.
/// Admitted are fewer than `2^27` values, for which the length that the
/// encoder adds up in 32 bits stays in range.
#[verifier::external_body]
pub(crate) fn abi_encode(args: &Vec<AbiValue>) -> (words: Vec<u8>)
    requires
        args@.len() < MAX_VALUES,
    ensures
        words@ == spec_words(args@),
{
    let tokens: Vec<Token> = args.iter().map(|a| match a {
        AbiValue::Address(b) => Token::Address(H160(*b)),
        AbiValue::Uint(n) => Token::Uint(U256::from(*n)),
        AbiValue::Bool(b) => Token::Bool(*b),
        AbiValue::Bytes32(b) => Token::FixedBytes(b.to_vec()),
    }).collect();
    ethers::abi::encode(&tokens)
}

fn push_slice(out: &mut Vec<u8>, src: &[u8])
    ensures
        final(out)@ == old(out)@ + src@,
{
    let n = src.len();
    let mut i: usize = 0;
    assert(out@ =~= old(out)@ + src@.take(0));
    while i < n
        invariant
            i <= n,
            n == src@.len(),
            out@ == old(out)@ + src@.take(i as int),
        decreases n - i,
    {
        out.push(src[i]);
        i = i + 1;
        assert(out@ =~= old(out)@ + src@.take(i as int));
    }
    assert(src@.take(n as int) =~= src@);
}

/// The parameter types of `args`, in order.
pub fn param_kinds(args: &Vec<AbiValue>) -> (kinds: Vec<ParamKind>)
    ensures
        kinds@ == kinds_of(args@),
{
    let n = args.len();
    let mut kinds: Vec<ParamKind> = Vec::new();
    let mut i: usize = 0;
    while i < n
        invariant
            i <= n,
            n == args@.len(),
            kinds@ == kinds_of(args@.take(i as int)),
        decreases n - i,
    {
        kinds.push(args[i].kind());
        i = i + 1;
        assert(kinds@ =~= kinds_of(args@.take(i as int)));
    }
    assert(args@.take(n as int) =~= args@);
    kinds
}

/// The selector of the function `name` with parameters of the types
/// `kinds`.
pub fn call_selector(name: &str, kinds: &Vec<ParamKind>) -> (r: [u8; 4])
    ensures
        r@ == spec_selector(canonical_signature(name@, kinds@)),
{
    abi_short_signature(name, kinds)
}

/// The call data of the function `name` applied to `args`, of which there
/// are fewer than `2^27`: more does the encoder not take.
pub fn encode_call(name: &str, args: &Vec<AbiValue>) -> (data: Vec<u8>)
    requires
        args@.len() < MAX_VALUES,
    ensures
        data@ == spec_call_data(name@, args@),
{
    let kinds = param_kinds(args);
    let sel = abi_short_signature(name, &kinds);
    let words = abi_encode(args);
    let mut data: Vec<u8> = Vec::new();
    push_slice(&mut data, sel.as_slice());
    push_slice(&mut data, words.as_slice());
    assert(data@ =~= spec_call_data(name@, args@));
    data
}

/// `256^k`.
pub open spec fn pow256(k: nat) -> nat
    decreases k,
{
    if k == 0 {
        1
    } else {
        256 * pow256((k - 1) as nat)
    }
}

/// The number that the bytes `b` spell, the most significant first.
pub open spec fn be_value(b: Seq<u8>) -> nat
    decreases b.len(),
{
    if b.len() == 0 {
        0
    } else {
        be_value(b.drop_last()) * 256 + b.last() as nat
    }
}

/// Whether `data` is the call data of the function `name` applied to `args`,
/// arguments which have the types `kinds`.
pub open spec fn decodes_to(
    name: Seq<char>,
    kinds: Seq<ParamKind>,
    data: Seq<u8>,
    args: Seq<AbiValue>,
) -> bool {
    kinds_of(args) == kinds && spec_call_data(name, args) == data
}

pub proof fn lemma_be_bytes_len(n: nat, len: nat)
    ensures
        be_bytes(n, len).len() == len,
    decreases len,
{
    if len > 0 {
        lemma_be_bytes_len(n / 256, (len - 1) as nat);
    }
}

proof fn lemma_pow256_16()
    ensures
        pow256(16) == 0x1_0000_0000_0000_0000_0000_0000_0000_0000,
{
    assert(pow256(0) == 1);
    assert(pow256(1) == 0x100);
    assert(pow256(2) == 0x1_0000);
    assert(pow256(3) == 0x100_0000);
    assert(pow256(4) == 0x1_0000_0000);
    assert(pow256(5) == 0x100_0000_0000);
    assert(pow256(6) == 0x1_0000_0000_0000);
    assert(pow256(7) == 0x100_0000_0000_0000);
    assert(pow256(8) == 0x1_0000_0000_0000_0000);
    assert(pow256(9) == 0x100_0000_0000_0000_0000);
    assert(pow256(10) == 0x1_0000_0000_0000_0000_0000);
    assert(pow256(11) == 0x100_0000_0000_0000_0000_0000);
    assert(pow256(12) == 0x1_0000_0000_0000_0000_0000_0000);
    assert(pow256(13) == 0x100_0000_0000_0000_0000_0000_0000);
    assert(pow256(14) == 0x1_0000_0000_0000_0000_0000_0000_0000);
    assert(pow256(15) == 0x100_0000_0000_0000_0000_0000_0000_0000);
}

proof fn lemma_be_bytes_zero(len: nat)
    ensures
        be_bytes(0, len) == zero_bytes(len),
    decreases len,
{
    if len > 0 {
        lemma_be_bytes_zero((len - 1) as nat);
        lemma_be_bytes_len(0, (len - 1) as nat);
    }
    assert(be_bytes(0, len) =~= zero_bytes(len));
}

/// The bytes of a number below `256^k` begin with zeros down to the last `k`.
proof fn lemma_be_bytes_small(n: nat, len: nat, k: nat)
    requires
        n < pow256(k),
        k <= len,
    ensures
        be_bytes(n, len) == zero_bytes((len - k) as nat) + be_bytes(n, k),
    decreases k,
{
    if k == 0 {
        lemma_be_bytes_zero(len);
        assert(be_bytes(n, len) =~= zero_bytes(len) + be_bytes(n, 0));
    } else {
        lemma_be_bytes_small(n / 256, (len - 1) as nat, (k - 1) as nat);
        assert(be_bytes(n, len) =~= zero_bytes((len - k) as nat) + be_bytes(n, k));
    }
}

proof fn lemma_be_value_bound(b: Seq<u8>)
    ensures
        be_value(b) < pow256(b.len()),
    decreases b.len(),
{
    if b.len() > 0 {
        lemma_be_value_bound(b.drop_last());
    }
}

/// Writing out the number that bytes spell gives the bytes back.
pub proof fn lemma_be_bytes_of_value(b: Seq<u8>)
    ensures
        be_bytes(be_value(b), b.len()) == b,
    decreases b.len(),
{
    if b.len() > 0 {
        lemma_be_bytes_of_value(b.drop_last());
        assert(be_bytes(be_value(b), b.len()) =~= b);
    } else {
        assert(be_bytes(be_value(b), b.len()) =~= b);
    }
}

/// Below `256^len`, different numbers have different bytes.
pub proof fn lemma_be_bytes_injective(n: nat, m: nat, len: nat)
    requires
        n < pow256(len),
        m < pow256(len),
        be_bytes(n, len) == be_bytes(m, len),
    ensures
        n == m,
    decreases len,
{
    if len > 0 {
        let a = be_bytes(n / 256, (len - 1) as nat);
        let b = be_bytes(m / 256, (len - 1) as nat);
        assert(a.push((n % 256) as u8).drop_last() =~= a);
        assert(b.push((m % 256) as u8).drop_last() =~= b);
        assert(a.push((n % 256) as u8).last() == (n % 256) as u8);
        assert(b.push((m % 256) as u8).last() == (m % 256) as u8);
        lemma_be_bytes_injective(n / 256, m / 256, (len - 1) as nat);
    }
}

/// Appending an argument appends its word.
pub proof fn lemma_words_push(args: Seq<AbiValue>, v: AbiValue)
    ensures
        spec_words(args.push(v)) == spec_words(args) + spec_word(v),
{
    assert(args.push(v).drop_last() =~= args);
}

/// Every argument's word has 32 bytes.
pub proof fn lemma_word_len(v: AbiValue)
    ensures
        spec_word(v).len() == 32,
{
    match v {
        AbiValue::Uint(n) => {
            lemma_be_bytes_len(n as nat, 32);
        },
        _ => {},
    }
}

/// The words of `args` have 32 bytes for each argument.
pub proof fn lemma_words_len(args: Seq<AbiValue>)
    ensures
        spec_words(args).len() == 32 * args.len(),
    decreases args.len(),
{
    if args.len() > 0 {
        lemma_words_len(args.drop_last());
        lemma_word_len(args.last());
    }
}

/// The `i`-th 32 bytes of the words of `args` are the word of the `i`-th
/// argument.
pub proof fn lemma_words_at(args: Seq<AbiValue>, i: int)
    requires
        0 <= i < args.len(),
    ensures
        spec_words(args).subrange(32 * i, 32 * i + 32) == spec_word(args[i]),
    decreases args.len(),
{
    let front = args.drop_last();
    lemma_words_len(front);
    lemma_word_len(args.last());
    if i == args.len() - 1 {
        assert(spec_words(args).subrange(32 * i, 32 * i + 32) =~= spec_word(args[i]));
    } else {
        lemma_words_at(front, i);
        assert(spec_words(args).subrange(32 * i, 32 * i + 32) =~= spec_words(front).subrange(
            32 * i,
            32 * i + 32,
        ));
    }
}

/// Two arguments of one type with the same word are the same argument.
pub proof fn lemma_word_injective(v: AbiValue, w: AbiValue)
    requires
        v.spec_kind() == w.spec_kind(),
        spec_word(v) == spec_word(w),
    ensures
        v == w,
{
    broadcast use vstd::array::group_array_axioms;

    match (v, w) {
        (AbiValue::Address(a), AbiValue::Address(b)) => {
            assert forall|i: int| 0 <= i < 20 implies a[i] == b[i] by {
                assert(spec_word(v)[12 + i] == a@[i]);
                assert(spec_word(w)[12 + i] == b@[i]);
            }
            assert(a =~= b);
        },
        (AbiValue::Uint(n), AbiValue::Uint(m)) => {
            lemma_pow256_16();
            assert(pow256(32) >= pow256(16)) by {
                reveal_with_fuel(pow256, 17);
            }
            lemma_be_bytes_injective(n as nat, m as nat, 32);
        },
        (AbiValue::Bool(a), AbiValue::Bool(b)) => {
            assert(spec_word(v)[31] == if a { 1u8 } else { 0u8 });
            assert(spec_word(w)[31] == if b { 1u8 } else { 0u8 });
        },
        (AbiValue::Bytes32(a), AbiValue::Bytes32(b)) => {
            assert forall|i: int| 0 <= i < 32 implies a[i] == b[i] by {
                assert(spec_word(v)[i] == a@[i]);
                assert(spec_word(w)[i] == b@[i]);
            }
            assert(a =~= b);
        },
        _ => {},
    }
}

/// Call data names its arguments: two argument lists of the same types with
/// the same call data are equal. So whatever reads call data back into
/// arguments of those types recovers exactly the arguments that were encoded.
pub proof fn lemma_call_data_injective(name: Seq<char>, a: Seq<AbiValue>, b: Seq<AbiValue>)
    requires
        kinds_of(a) == kinds_of(b),
        spec_call_data(name, a) == spec_call_data(name, b),
    ensures
        a == b,
{
    let sel = spec_selector(canonical_signature(name, kinds_of(a)));
    assert(a.len() == kinds_of(a).len());
    assert(b.len() == kinds_of(b).len());
    assert(spec_words(a) =~= (sel + spec_words(a)).skip(4));
    assert(spec_words(b) =~= (sel + spec_words(b)).skip(4));
    assert forall|i: int| 0 <= i < a.len() implies a[i] == b[i] by {
        lemma_words_at(a, i);
        lemma_words_at(b, i);
        assert(kinds_of(a)[i] == a[i].spec_kind());
        assert(kinds_of(b)[i] == b[i].spec_kind());
        lemma_word_injective(a[i], b[i]);
    }
    assert(a =~= b);
}

/// Decoding undoes encoding: the call data of `args` decodes to `args` and
/// to nothing else.
pub proof fn lemma_decode_encode(name: Seq<char>, args: Seq<AbiValue>, other: Seq<AbiValue>)
    ensures
        decodes_to(name, kinds_of(args), spec_call_data(name, args), args),
        decodes_to(name, kinds_of(args), spec_call_data(name, args), other) ==> other == args,
{
    if decodes_to(name, kinds_of(args), spec_call_data(name, args), other) {
        lemma_call_data_injective(name, other, args);
    }
}

fn all_zero(data: &[u8], from: usize, to: usize) -> (b: bool)
    requires
        from <= to <= data@.len(),
    ensures
        b <==> data@.subrange(from as int, to as int) == zero_bytes((to - from) as nat),
{
    let mut i: usize = from;
    while i < to
        invariant
            from <= i <= to,
            to <= data@.len(),
            forall|j: int| from <= j < i ==> data@[j] == 0,
        decreases to - i,
    {
        if data[i] != 0 {
            assert(data@.subrange(from as int, to as int)[i - from] != 0);
            return false;
        }
        i = i + 1;
    }
    assert(data@.subrange(from as int, to as int) =~= zero_bytes((to - from) as nat));
    true
}

fn copy20(data: &[u8], at: usize) -> (a: [u8; 20])
    requires
        at + 20 <= data@.len() <= usize::MAX,
    ensures
        a@ == data@.subrange(at as int, at + 20),
{
    let mut a = [0u8; 20];
    let mut i: usize = 0;
    while i < 20
        invariant
            i <= 20,
            at + 20 <= data@.len() <= usize::MAX,
            forall|j: int| 0 <= j < i ==> a@[j] == data@[at + j],
        decreases 20 - i,
    {
        a[i] = data[at + i];
        i = i + 1;
    }
    assert(a@ =~= data@.subrange(at as int, at + 20));
    a
}

fn copy32(data: &[u8], at: usize) -> (a: [u8; 32])
    requires
        at + 32 <= data@.len() <= usize::MAX,
    ensures
        a@ == data@.subrange(at as int, at + 32),
{
    let mut a = [0u8; 32];
    let mut i: usize = 0;
    while i < 32
        invariant
            i <= 32,
            at + 32 <= data@.len() <= usize::MAX,
            forall|j: int| 0 <= j < i ==> a@[j] == data@[at + j],
        decreases 32 - i,
    {
        a[i] = data[at + i];
        i = i + 1;
    }
    assert(a@ =~= data@.subrange(at as int, at + 32));
    a
}

fn read_be16(data: &[u8], at: usize) -> (n: u128)
    requires
        at + 16 <= data@.len() <= usize::MAX,
    ensures
        n as nat == be_value(data@.subrange(at as int, at + 16)),
{
    let mut n: u128 = 0;
    let mut i: usize = 0;
    proof {
        lemma_pow256_16();
        assert(data@.subrange(at as int, at as int) =~= Seq::<u8>::empty());
    }
    while i < 16
        invariant
            i <= 16,
            at + 16 <= data@.len() <= usize::MAX,
            n as nat == be_value(data@.subrange(at as int, at + i)),
            n < pow256(i as nat),
            pow256(16) == 0x1_0000_0000_0000_0000_0000_0000_0000_0000,
        decreases 16 - i,
    {
        proof {
            let next = data@.subrange(at as int, at + i + 1);
            assert(next.drop_last() =~= data@.subrange(at as int, at + i));
            assert(next.last() == data@[at + i]);
            assert(pow256((i + 1) as nat) == 256 * pow256(i as nat));
            lemma_pow256_monotonic((i + 1) as nat, 16);
        }
        n = n * 256 + data[at + i] as u128;
        i = i + 1;
    }
    n
}

proof fn lemma_pow256_monotonic(a: nat, b: nat)
    requires
        a <= b,
    ensures
        pow256(a) <= pow256(b),
        pow256(a) >= 1,
    decreases b,
{
    if a < b {
        lemma_pow256_monotonic(a, (b - 1) as nat);
    } else if a > 0 {
        lemma_pow256_monotonic((a - 1) as nat, (a - 1) as nat);
    }
}

/// Reads the word of 32 bytes at `at` as an argument of type `kind`: the
/// argument whose word it is, or `None` where no argument of that type has
/// this word.
fn read_word(kind: ParamKind, data: &[u8], at: usize) -> (r: Option<AbiValue>)
    requires
        at + 32 <= data@.len() <= usize::MAX,
    ensures
        r matches Some(v) ==> v.spec_kind() == kind && spec_word(v) == data@.subrange(
            at as int,
            at + 32,
        ),
        r is None ==> forall|v: AbiValue|
            v.spec_kind() == kind ==> #[trigger] spec_word(v) != data@.subrange(at as int, at + 32),
{
    let ghost word = data@.subrange(at as int, at + 32);
    match kind {
        ParamKind::Address => {
            if all_zero(data, at, at + 12) {
                let a = copy20(data, at + 12);
                assert(spec_word(AbiValue::Address(a)) =~= word);
                Some(AbiValue::Address(a))
            } else {
                assert forall|v: AbiValue| v.spec_kind() == kind implies #[trigger] spec_word(v)
                    != word by {
                    if spec_word(v) == word {
                        assert(word.subrange(0, 12) =~= zero_bytes(12));
                        assert(word.subrange(0, 12) =~= data@.subrange(at as int, at + 12));
                    }
                }
                None
            }
        },
        ParamKind::Uint256 => {
            if all_zero(data, at, at + 16) {
                let n = read_be16(data, at + 16);
                proof {
                    let low = data@.subrange(at + 16, at + 32);
                    lemma_be_value_bound(low);
                    lemma_be_bytes_of_value(low);
                    lemma_be_bytes_small(n as nat, 32, 16);
                    assert(word =~= zero_bytes(16) + low);
                    assert(data@.subrange(at as int, at + 16) == zero_bytes(16));
                }
                Some(AbiValue::Uint(n))
            } else {
                assert forall|v: AbiValue| v.spec_kind() == kind implies #[trigger] spec_word(v)
                    != word by {
                    if spec_word(v) == word {
                        let m = v->Uint_0;
                        lemma_pow256_16();
                        lemma_be_bytes_small(m as nat, 32, 16);
                        lemma_be_bytes_len(m as nat, 16);
                        assert(word.subrange(0, 16) =~= zero_bytes(16));
                        assert(word.subrange(0, 16) =~= data@.subrange(at as int, at + 16));
                    }
                }
                None
            }
        },
        ParamKind::Bool => {
            let last = data[at + 31];
            if all_zero(data, at, at + 31) && last <= 1 {
                let b = last == 1;
                assert(spec_word(AbiValue::Bool(b)) =~= word);
                Some(AbiValue::Bool(b))
            } else {
                assert forall|v: AbiValue| v.spec_kind() == kind implies #[trigger] spec_word(v)
                    != word by {
                    if spec_word(v) == word {
                        assert(word.subrange(0, 31) =~= zero_bytes(31));
                        assert(word.subrange(0, 31) =~= data@.subrange(at as int, at + 31));
                        assert(word[31] == last);
                        assert(spec_word(v)[31] <= 1);
                    }
                }
                None
            }
        },
        ParamKind::Bytes32 => {
            let b = copy32(data, at);
            Some(AbiValue::Bytes32(b))
        },
    }
}

/// Reads call data of the function `name`, whose parameters have the types
/// `kinds`, back into its arguments. Gives `None` exactly where no arguments
/// of those types have this call data.
pub fn decode_call(name: &str, kinds: &Vec<ParamKind>, data: &[u8]) -> (r: Option<Vec<AbiValue>>)
    ensures
        r matches Some(args) ==> decodes_to(name@, kinds@, data@, args@),
        r is None ==> forall|args: Seq<AbiValue>| !#[trigger] decodes_to(name@, kinds@, data@, args),
{
    let n = kinds.len();
    let ghost sig = canonical_signature(name@, kinds@);
    let total = data.len();
    if n > (usize::MAX - 4) / 32 || total != 4 + 32 * n {
        assert forall|args: Seq<AbiValue>| !#[trigger] decodes_to(name@, kinds@, data@, args) by {
            if decodes_to(name@, kinds@, data@, args) {
                lemma_words_len(args);
                assert(args.len() == kinds_of(args).len());
                let d = spec_selector(canonical_signature(name@, kinds_of(args))) + spec_words(
                    args,
                );
                assert(d.len() == 4 + 32 * n);
            }
        }
        return None;
    }
    let sel = abi_short_signature(name, kinds);
    if data[0] != sel[0] || data[1] != sel[1] || data[2] != sel[2] || data[3] != sel[3] {
        assert forall|args: Seq<AbiValue>| !#[trigger] decodes_to(name@, kinds@, data@, args) by {
            if decodes_to(name@, kinds@, data@, args) {
                let d = spec_selector(sig) + spec_words(args);
                assert(d[0] == sel@[0] && d[1] == sel@[1] && d[2] == sel@[2] && d[3] == sel@[3]);
            }
        }
        return None;
    }
    let mut out: Vec<AbiValue> = Vec::new();
    let mut i: usize = 0;
    assert(data@.subrange(4, 4) =~= Seq::<u8>::empty());
    assert(kinds_of(out@) =~= kinds@.take(0));
    while i < n
        invariant
            i <= n,
            n == kinds@.len(),
            n <= (usize::MAX - 4) / 32,
            data@.len() == 4 + 32 * n,
            out@.len() == i,
            kinds_of(out@) == kinds@.take(i as int),
            spec_words(out@) == data@.subrange(4, 4 + 32 * i),
            sig == canonical_signature(name@, kinds@),
        decreases n - i,
    {
        match read_word(kinds[i], data, 4 + 32 * i) {
            Some(v) => {
                let ghost before = out@;
                out.push(v);
                proof {
                    assert(out@.drop_last() =~= before);
                    assert(out@.last() == v);
                    assert(kinds_of(out@) =~= kinds@.take(i + 1));
                    assert(spec_words(out@) =~= data@.subrange(4, 4 + 32 * (i + 1)));
                }
            },
            None => {
                assert forall|args: Seq<AbiValue>| !#[trigger] decodes_to(
                    name@,
                    kinds@,
                    data@,
                    args,
                ) by {
                    if decodes_to(name@, kinds@, data@, args) {
                        assert(args.len() == kinds_of(args).len());
                        lemma_words_at(args, i as int);
                        lemma_words_len(args);
                        assert(kinds_of(args)[i as int] == args[i as int].spec_kind());
                        let d = spec_selector(sig) + spec_words(args);
                        assert(d.subrange(4 + 32 * i, 4 + 32 * i + 32) =~= spec_words(
                            args,
                        ).subrange(32 * i, 32 * i + 32));
                        assert(spec_word(args[i as int]) == data@.subrange(
                            4 + 32 * i,
                            4 + 32 * i + 32,
                        ));
                    }
                }
                return None;
            },
        }
        i = i + 1;
    }
    proof {
        assert(kinds@.take(n as int) =~= kinds@);
        assert(data@.subrange(4, 4 + 32 * n) =~= data@.skip(4));
        assert(data@ =~= spec_selector(sig) + data@.skip(4));
    }
    Some(out)
}

} // verus!
