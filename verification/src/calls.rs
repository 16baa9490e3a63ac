//! The five calls that the client makes: their signatures, their argument
//! order, and the exact bytes of each.

use vstd::prelude::*;
use crate::abi::{
    address_word, bool_word, canonical_signature, decode_call, encode_call, kinds_of,
    lemma_call_data_injective, lemma_word_len, lemma_words_push, spec_call_data, spec_selector,
    spec_word, spec_words, uint_word, AbiValue, ParamKind,
};

verus! {

/// Call data of `depositETH(bytes32,uint256,bool)`: commitment, expiry,
/// refundable.
pub open spec fn deposit_eth_data(commitment: Seq<u8>, expiry: nat, refundable: bool) -> Seq<u8> {
    spec_selector("depositETH(bytes32,uint256,bool)"@) + commitment + uint_word(expiry) + bool_word(
        refundable,
    )
}

/// Call data of `depositERC20(bytes32,address,uint256,uint256,bool)`:
/// commitment, token, amount, expiry, refundable.
pub open spec fn deposit_erc20_data(
    commitment: Seq<u8>,
    token: Seq<u8>,
    amount: nat,
    expiry: nat,
    refundable: bool,
) -> Seq<u8> {
    spec_selector("depositERC20(bytes32,address,uint256,uint256,bool)"@) + commitment
        + address_word(token) + uint_word(amount) + uint_word(expiry) + bool_word(refundable)
}

/// Call data of `approve(address,uint256)`: spender, amount.
pub open spec fn approve_data(spender: Seq<u8>, amount: nat) -> Seq<u8> {
    spec_selector("approve(address,uint256)"@) + address_word(spender) + uint_word(amount)
}

/// Call data of `redeem(bytes32,bytes32,address)`: secret, salt, recipient.
pub open spec fn redeem_data(secret: Seq<u8>, salt: Seq<u8>, to: Seq<u8>) -> Seq<u8> {
    spec_selector("redeem(bytes32,bytes32,address)"@) + secret + salt + address_word(to)
}

/// Call data of `refund(bytes32,bytes32)`: secret, salt.
pub open spec fn refund_data(secret: Seq<u8>, salt: Seq<u8>) -> Seq<u8> {
    spec_selector("refund(bytes32,bytes32)"@) + secret + salt
}

/// Each call's signature is the canonical one for its name and the types of
/// its arguments, in their order.
pub proof fn lemma_call_signatures()
    ensures
        canonical_signature(
            "depositETH"@,
            seq![ParamKind::Bytes32, ParamKind::Uint256, ParamKind::Bool],
        ) == "depositETH(bytes32,uint256,bool)"@,
        canonical_signature(
            "depositERC20"@,
            seq![
                ParamKind::Bytes32,
                ParamKind::Address,
                ParamKind::Uint256,
                ParamKind::Uint256,
                ParamKind::Bool,
            ],
        ) == "depositERC20(bytes32,address,uint256,uint256,bool)"@,
        canonical_signature("approve"@, seq![ParamKind::Address, ParamKind::Uint256])
            == "approve(address,uint256)"@,
        canonical_signature(
            "redeem"@,
            seq![ParamKind::Bytes32, ParamKind::Bytes32, ParamKind::Address],
        ) == "redeem(bytes32,bytes32,address)"@,
        canonical_signature("refund"@, seq![ParamKind::Bytes32, ParamKind::Bytes32])
            == "refund(bytes32,bytes32)"@,
{
    reveal_strlit("(");
    reveal_strlit(")");
    reveal_strlit(",");
    reveal_strlit("address");
    reveal_strlit("uint256");
    reveal_strlit("bool");
    reveal_strlit("bytes32");
    reveal_strlit("depositETH");
    reveal_strlit("depositERC20");
    reveal_strlit("approve");
    reveal_strlit("redeem");
    reveal_strlit("refund");
    reveal_strlit("depositETH(bytes32,uint256,bool)");
    reveal_strlit("depositERC20(bytes32,address,uint256,uint256,bool)");
    reveal_strlit("approve(address,uint256)");
    reveal_strlit("redeem(bytes32,bytes32,address)");
    reveal_strlit("refund(bytes32,bytes32)");
    lemma_joined(Seq::empty(), ParamKind::Bytes32);
    let b = seq![ParamKind::Bytes32];
    lemma_joined(b, ParamKind::Uint256);
    lemma_joined(b.push(ParamKind::Uint256), ParamKind::Bool);
    lemma_joined(b, ParamKind::Address);
    lemma_joined(b.push(ParamKind::Address), ParamKind::Uint256);
    lemma_joined(b.push(ParamKind::Address).push(ParamKind::Uint256), ParamKind::Uint256);
    lemma_joined(
        b.push(ParamKind::Address).push(ParamKind::Uint256).push(ParamKind::Uint256),
        ParamKind::Bool,
    );
    lemma_joined(Seq::empty(), ParamKind::Address);
    lemma_joined(seq![ParamKind::Address], ParamKind::Uint256);
    lemma_joined(b, ParamKind::Bytes32);
    lemma_joined(b.push(ParamKind::Bytes32), ParamKind::Address);
    assert(seq![ParamKind::Bytes32, ParamKind::Uint256, ParamKind::Bool] =~= b.push(
        ParamKind::Uint256,
    ).push(ParamKind::Bool));
    assert(seq![
        ParamKind::Bytes32,
        ParamKind::Address,
        ParamKind::Uint256,
        ParamKind::Uint256,
        ParamKind::Bool,
    ] =~= b.push(ParamKind::Address).push(ParamKind::Uint256).push(ParamKind::Uint256).push(
        ParamKind::Bool,
    ));
    assert(seq![ParamKind::Address, ParamKind::Uint256] =~= seq![ParamKind::Address].push(
        ParamKind::Uint256,
    ));
    assert(seq![ParamKind::Bytes32, ParamKind::Bytes32, ParamKind::Address] =~= b.push(
        ParamKind::Bytes32,
    ).push(ParamKind::Address));
    assert(seq![ParamKind::Bytes32, ParamKind::Bytes32] =~= b.push(ParamKind::Bytes32));
    assert(canonical_signature(
        "depositETH"@,
        seq![ParamKind::Bytes32, ParamKind::Uint256, ParamKind::Bool],
    ) =~= "depositETH(bytes32,uint256,bool)"@);
    assert(canonical_signature(
        "depositERC20"@,
        seq![
            ParamKind::Bytes32,
            ParamKind::Address,
            ParamKind::Uint256,
            ParamKind::Uint256,
            ParamKind::Bool,
        ],
    ) =~= "depositERC20(bytes32,address,uint256,uint256,bool)"@);
    assert(canonical_signature("approve"@, seq![ParamKind::Address, ParamKind::Uint256])
        =~= "approve(address,uint256)"@);
    assert(canonical_signature(
        "redeem"@,
        seq![ParamKind::Bytes32, ParamKind::Bytes32, ParamKind::Address],
    ) =~= "redeem(bytes32,bytes32,address)"@);
    assert(canonical_signature("refund"@, seq![ParamKind::Bytes32, ParamKind::Bytes32])
        =~= "refund(bytes32,bytes32)"@);
}

proof fn lemma_joined(kinds: Seq<ParamKind>, k: ParamKind)
    ensures
        crate::abi::joined_kinds(kinds.push(k)) == if kinds.len() == 0 {
            crate::abi::kind_name(k)
        } else {
            crate::abi::joined_kinds(kinds) + ","@ + crate::abi::kind_name(k)
        },
{
    assert(kinds.push(k).drop_last() =~= kinds);
}

/// Call data that funds a commitment with the native asset.
pub fn encode_deposit_eth(commitment: [u8; 32], expiry: u64, refundable: bool) -> (data: Vec<u8>)
    ensures
        data@ == deposit_eth_data(commitment@, expiry as nat, refundable),
        data@.len() == 100,
{
    let mut args: Vec<AbiValue> = Vec::new();
    args.push(AbiValue::Bytes32(commitment));
    args.push(AbiValue::Uint(expiry as u128));
    args.push(AbiValue::Bool(refundable));
    let data = encode_call("depositETH", &args);
    proof {
        let a0 = Seq::<AbiValue>::empty();
        let a1 = a0.push(AbiValue::Bytes32(commitment));
        let a2 = a1.push(AbiValue::Uint(expiry as u128));
        lemma_call_signatures();
        lemma_words_push(a0, AbiValue::Bytes32(commitment));
        lemma_words_push(a1, AbiValue::Uint(expiry as u128));
        lemma_words_push(a2, AbiValue::Bool(refundable));
        lemma_word_len(AbiValue::Uint(expiry as u128));
        assert(kinds_of(args@) =~= seq![ParamKind::Bytes32, ParamKind::Uint256, ParamKind::Bool]);
        assert(data@ =~= deposit_eth_data(commitment@, expiry as nat, refundable));
    }
    data
}

/// Call data that funds a commitment with `amount` base units of `token`.
pub fn encode_deposit_erc20(
    commitment: [u8; 32],
    token: [u8; 20],
    amount: u128,
    expiry: u64,
    refundable: bool,
) -> (data: Vec<u8>)
    ensures
        data@ == deposit_erc20_data(
            commitment@,
            token@,
            amount as nat,
            expiry as nat,
            refundable,
        ),
        data@.len() == 164,
{
    let mut args: Vec<AbiValue> = Vec::new();
    args.push(AbiValue::Bytes32(commitment));
    args.push(AbiValue::Address(token));
    args.push(AbiValue::Uint(amount));
    args.push(AbiValue::Uint(expiry as u128));
    args.push(AbiValue::Bool(refundable));
    let data = encode_call("depositERC20", &args);
    proof {
        let a0 = Seq::<AbiValue>::empty();
        let a1 = a0.push(AbiValue::Bytes32(commitment));
        let a2 = a1.push(AbiValue::Address(token));
        let a3 = a2.push(AbiValue::Uint(amount));
        let a4 = a3.push(AbiValue::Uint(expiry as u128));
        lemma_call_signatures();
        lemma_words_push(a0, AbiValue::Bytes32(commitment));
        lemma_words_push(a1, AbiValue::Address(token));
        lemma_words_push(a2, AbiValue::Uint(amount));
        lemma_words_push(a3, AbiValue::Uint(expiry as u128));
        lemma_words_push(a4, AbiValue::Bool(refundable));
        lemma_word_len(AbiValue::Uint(amount));
        lemma_word_len(AbiValue::Uint(expiry as u128));
        assert(kinds_of(args@) =~= seq![
            ParamKind::Bytes32,
            ParamKind::Address,
            ParamKind::Uint256,
            ParamKind::Uint256,
            ParamKind::Bool,
        ]);
        assert(data@ =~= deposit_erc20_data(
            commitment@,
            token@,
            amount as nat,
            expiry as nat,
            refundable,
        ));
    }
    data
}

/// Call data that lets `spender` draw `amount` base units of a token.
pub fn encode_approve(spender: [u8; 20], amount: u128) -> (data: Vec<u8>)
    ensures
        data@ == approve_data(spender@, amount as nat),
        data@.len() == 68,
{
    let mut args: Vec<AbiValue> = Vec::new();
    args.push(AbiValue::Address(spender));
    args.push(AbiValue::Uint(amount));
    let data = encode_call("approve", &args);
    proof {
        let a0 = Seq::<AbiValue>::empty();
        let a1 = a0.push(AbiValue::Address(spender));
        lemma_call_signatures();
        lemma_words_push(a0, AbiValue::Address(spender));
        lemma_words_push(a1, AbiValue::Uint(amount));
        lemma_word_len(AbiValue::Uint(amount));
        assert(kinds_of(args@) =~= seq![ParamKind::Address, ParamKind::Uint256]);
        assert(data@ =~= approve_data(spender@, amount as nat));
    }
    data
}

/// The arguments of a redeem call.
pub open spec fn redeem_args(secret: [u8; 32], salt: [u8; 32], to: [u8; 20]) -> Seq<AbiValue> {
    seq![AbiValue::Bytes32(secret), AbiValue::Bytes32(salt), AbiValue::Address(to)]
}

/// The call data of a redeem call is that of the function `redeem` applied
/// to secret, salt and recipient.
pub proof fn lemma_redeem_data(secret: [u8; 32], salt: [u8; 32], to: [u8; 20])
    ensures
        spec_call_data("redeem"@, redeem_args(secret, salt, to)) == redeem_data(
            secret@,
            salt@,
            to@,
        ),
        kinds_of(redeem_args(secret, salt, to)) == seq![
            ParamKind::Bytes32,
            ParamKind::Bytes32,
            ParamKind::Address,
        ],
{
    let a0 = Seq::<AbiValue>::empty();
    let a1 = a0.push(AbiValue::Bytes32(secret));
    let a2 = a1.push(AbiValue::Bytes32(salt));
    let args = redeem_args(secret, salt, to);
    assert(args =~= a2.push(AbiValue::Address(to)));
    lemma_call_signatures();
    lemma_words_push(a0, AbiValue::Bytes32(secret));
    lemma_words_push(a1, AbiValue::Bytes32(salt));
    lemma_words_push(a2, AbiValue::Address(to));
    assert(kinds_of(args) =~= seq![ParamKind::Bytes32, ParamKind::Bytes32, ParamKind::Address]);
    assert(spec_call_data("redeem"@, args) =~= redeem_data(secret@, salt@, to@));
}

/// Call data that redeems a deposit to `to` by revealing secret and salt.
pub fn encode_redeem(secret: [u8; 32], salt: [u8; 32], to: [u8; 20]) -> (data: Vec<u8>)
    ensures
        data@ == redeem_data(secret@, salt@, to@),
        data@.len() == 100,
{
    let mut args: Vec<AbiValue> = Vec::new();
    args.push(AbiValue::Bytes32(secret));
    args.push(AbiValue::Bytes32(salt));
    args.push(AbiValue::Address(to));
    let data = encode_call("redeem", &args);
    proof {
        lemma_redeem_data(secret, salt, to);
        assert(args@ =~= redeem_args(secret, salt, to));
    }
    data
}

/// Call data that refunds an expired deposit by revealing secret and salt.
pub fn encode_refund(secret: [u8; 32], salt: [u8; 32]) -> (data: Vec<u8>)
    ensures
        data@ == refund_data(secret@, salt@),
        data@.len() == 68,
{
    let mut args: Vec<AbiValue> = Vec::new();
    args.push(AbiValue::Bytes32(secret));
    args.push(AbiValue::Bytes32(salt));
    let data = encode_call("refund", &args);
    proof {
        let a0 = Seq::<AbiValue>::empty();
        let a1 = a0.push(AbiValue::Bytes32(secret));
        lemma_call_signatures();
        lemma_words_push(a0, AbiValue::Bytes32(secret));
        lemma_words_push(a1, AbiValue::Bytes32(salt));
        assert(kinds_of(args@) =~= seq![ParamKind::Bytes32, ParamKind::Bytes32]);
        assert(data@ =~= refund_data(secret@, salt@));
    }
    data
}

/// Reads the call data of a redeem call back into secret, salt and
/// recipient. Gives `None` exactly where `data` is the call data of no
/// redeem call.
pub fn decode_redeem(data: &[u8]) -> (r: Option<([u8; 32], [u8; 32], [u8; 20])>)
    ensures
        r matches Some((secret, salt, to)) ==> data@ == redeem_data(secret@, salt@, to@),
        r is None ==> forall|secret: [u8; 32], salt: [u8; 32], to: [u8; 20]|
            data@ != #[trigger] redeem_data(secret@, salt@, to@),
{
    let mut kinds: Vec<ParamKind> = Vec::new();
    kinds.push(ParamKind::Bytes32);
    kinds.push(ParamKind::Bytes32);
    kinds.push(ParamKind::Address);
    assert(kinds@ =~= seq![ParamKind::Bytes32, ParamKind::Bytes32, ParamKind::Address]);
    match decode_call("redeem", &kinds, data) {
        Some(args) => {
            assert(args@.len() == kinds_of(args@).len());
            assert(kinds_of(args@)[0] == args@[0].spec_kind());
            assert(kinds_of(args@)[1] == args@[1].spec_kind());
            assert(kinds_of(args@)[2] == args@[2].spec_kind());
            match (args[0], args[1], args[2]) {
                (AbiValue::Bytes32(secret), AbiValue::Bytes32(salt), AbiValue::Address(to)) => {
                    proof {
                        lemma_redeem_data(secret, salt, to);
                        assert(args@ =~= redeem_args(secret, salt, to));
                    }
                    Some((secret, salt, to))
                },
                _ => None,
            }
        },
        None => {
            assert forall|secret: [u8; 32], salt: [u8; 32], to: [u8; 20]|
                data@ != #[trigger] redeem_data(secret@, salt@, to@) by {
                lemma_redeem_data(secret, salt, to);
                assert(!crate::abi::decodes_to(
                    "redeem"@,
                    kinds@,
                    data@,
                    redeem_args(secret, salt, to),
                ));
            }
            None
        },
    }
}

/// A redeem call's data names its secret, salt and recipient: call data of
/// two redeem calls is equal only where all three are. So reading a redeem
/// call's data back recovers exactly what was encoded.
pub proof fn lemma_redeem_round_trip(
    secret: [u8; 32],
    salt: [u8; 32],
    to: [u8; 20],
    secret2: [u8; 32],
    salt2: [u8; 32],
    to2: [u8; 20],
)
    requires
        redeem_data(secret@, salt@, to@) == redeem_data(secret2@, salt2@, to2@),
    ensures
        secret == secret2,
        salt == salt2,
        to == to2,
{
    lemma_redeem_data(secret, salt, to);
    lemma_redeem_data(secret2, salt2, to2);
    let a = redeem_args(secret, salt, to);
    let b = redeem_args(secret2, salt2, to2);
    lemma_call_data_injective("redeem"@, a, b);
    assert(a[0] == b[0]);
    assert(a[1] == b[1]);
    assert(a[2] == b[2]);
}

} // verus!
