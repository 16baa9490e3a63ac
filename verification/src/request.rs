//! What each command sends: the transaction requests, worked out from the
//! command's inputs before anything leaves the process.

use vstd::prelude::*;
use crate::amount::{base_units, normalize_amount};
use crate::calls::{
    approve_data, deposit_erc20_data, deposit_eth_data, encode_approve, encode_deposit_erc20,
    encode_deposit_eth, encode_redeem, encode_refund, redeem_data, refund_data,
};
use crate::commitment::Commitment;
use crate::error::{Error, ErrorModel, Field, Setting};
use crate::hexcode::{hex_prefixed, parse_address, parse_bytes32, parse_hex_id, to_hex_prefixed};

verus! {

/// The decimal places of the native asset.
pub const NATIVE_DECIMALS: u8 = 18;

/// A transaction to submit: the contract called, the native value sent
/// along, in base units, and the call data.
#[derive(Debug, Clone, PartialEq, Eq)]
pub struct TxRequest {
    pub to: [u8; 20],
    pub value: u128,
    pub data: Vec<u8>,
}

/// A [`TxRequest`] as plain values.
pub struct TxRequestModel {
    pub to: Seq<u8>,
    pub value: nat,
    pub data: Seq<u8>,
}

impl View for TxRequest {
    type V = TxRequestModel;

    open spec fn view(&self) -> TxRequestModel {
        TxRequestModel { to: self.to@, value: self.value as nat, data: self.data@ }
    }
}

/// The two transactions that fund a commitment with a token: the approval,
/// sent to the token, and the deposit, sent to the escrow.
#[derive(Debug, Clone, PartialEq, Eq)]
pub struct TokenFunding {
    pub approve: TxRequest,
    pub deposit: TxRequest,
}

/// A [`TokenFunding`] as plain values.
pub struct TokenFundingModel {
    pub approve: TxRequestModel,
    pub deposit: TxRequestModel,
}

impl View for TokenFunding {
    type V = TokenFundingModel;

    open spec fn view(&self) -> TokenFundingModel {
        TokenFundingModel { approve: self.approve@, deposit: self.deposit@ }
    }
}

/// The transactions of a token funding in the order in which they go out:
/// the approval first, then the deposit.
pub fn funding_requests(funding: TokenFunding) -> (v: Vec<TxRequest>)
    ensures
        v@.len() == 2,
        v@[0] == funding.approve,
        v@[1] == funding.deposit,
{
    let mut v: Vec<TxRequest> = Vec::new();
    v.push(funding.approve);
    v.push(funding.deposit);
    v
}

/// A result of a request with request and error as plain values.
pub open spec fn request_model(r: Result<TxRequest, Error>) -> Result<TxRequestModel, ErrorModel> {
    match r {
        Ok(t) => Ok(t@),
        Err(e) => Err(e@),
    }
}

/// A result of a token funding with funding and error as plain values.
pub open spec fn funding_model(r: Result<TokenFunding, Error>) -> Result<
    TokenFundingModel,
    ErrorModel,
> {
    match r {
        Ok(t) => Ok(t@),
        Err(e) => Err(e@),
    }
}

/// The request that funds `commitment` with `amount` of the native asset:
/// sent to `contract`, with the amount at 18 decimal places as its value.
/// The amount is read first, then the contract's address.
pub open spec fn create_eth_request(
    commitment: Seq<u8>,
    expiry: nat,
    amount: Seq<char>,
    refundable: bool,
    contract: Seq<char>,
) -> Result<TxRequestModel, ErrorModel> {
    match base_units(amount, NATIVE_DECIMALS as nat) {
        None => Err(ErrorModel::InvalidAmount),
        Some(value) => match parse_hex_id(contract, 20) {
            None => Err(ErrorModel::InvalidArgument(Field::Contract)),
            Some(to) => Ok(
                TxRequestModel { to, value, data: deposit_eth_data(commitment, expiry, refundable) },
            ),
        },
    }
}

/// The requests that fund `commitment` with `amount` of `token`: the
/// approval lets `contract` draw the amount and goes to the token; the
/// deposit goes to `contract`. Neither sends native value. The token's
/// address is read first, then the contract's, then the amount.
pub open spec fn deposit_erc20_requests(
    commitment: Seq<u8>,
    expiry: nat,
    token: Seq<char>,
    amount: Seq<char>,
    decimals: nat,
    refundable: bool,
    contract: Seq<char>,
) -> Result<TokenFundingModel, ErrorModel> {
    match parse_hex_id(token, 20) {
        None => Err(ErrorModel::InvalidArgument(Field::Token)),
        Some(token_address) => match parse_hex_id(contract, 20) {
            None => Err(ErrorModel::InvalidArgument(Field::Contract)),
            Some(escrow) => match base_units(amount, decimals) {
                None => Err(ErrorModel::InvalidAmount),
                Some(value) => Ok(
                    TokenFundingModel {
                        approve: TxRequestModel {
                            to: token_address,
                            value: 0,
                            data: approve_data(escrow, value),
                        },
                        deposit: TxRequestModel {
                            to: escrow,
                            value: 0,
                            data: deposit_erc20_data(
                                commitment,
                                token_address,
                                value,
                                expiry,
                                refundable,
                            ),
                        },
                    },
                ),
            },
        },
    }
}

/// The request that redeems a deposit to `to`: sent to `contract`, without
/// native value. The inputs are read in the order contract, recipient,
/// secret, salt.
pub open spec fn redeem_request(
    secret: Seq<char>,
    salt: Seq<char>,
    to: Seq<char>,
    contract: Seq<char>,
) -> Result<TxRequestModel, ErrorModel> {
    match parse_hex_id(contract, 20) {
        None => Err(ErrorModel::InvalidArgument(Field::Contract)),
        Some(escrow) => match parse_hex_id(to, 20) {
            None => Err(ErrorModel::InvalidArgument(Field::To)),
            Some(recipient) => match parse_hex_id(secret, 32) {
                None => Err(ErrorModel::InvalidArgument(Field::Secret)),
                Some(secret_bytes) => match parse_hex_id(salt, 32) {
                    None => Err(ErrorModel::InvalidArgument(Field::Salt)),
                    Some(salt_bytes) => Ok(
                        TxRequestModel {
                            to: escrow,
                            value: 0,
                            data: redeem_data(secret_bytes, salt_bytes, recipient),
                        },
                    ),
                },
            },
        },
    }
}

/// The request that refunds an expired deposit: sent to `contract`, without
/// native value. The inputs are read in the order contract, secret, salt.
pub open spec fn refund_request(secret: Seq<char>, salt: Seq<char>, contract: Seq<char>) -> Result<
    TxRequestModel,
    ErrorModel,
> {
    match parse_hex_id(contract, 20) {
        None => Err(ErrorModel::InvalidArgument(Field::Contract)),
        Some(escrow) => match parse_hex_id(secret, 32) {
            None => Err(ErrorModel::InvalidArgument(Field::Secret)),
            Some(secret_bytes) => match parse_hex_id(salt, 32) {
                None => Err(ErrorModel::InvalidArgument(Field::Salt)),
                Some(salt_bytes) => Ok(
                    TxRequestModel {
                        to: escrow,
                        value: 0,
                        data: refund_data(secret_bytes, salt_bytes),
                    },
                ),
            },
        },
    }
}

/// The transaction that funds `commitment` with `amount` of the native
/// asset through the escrow at `contract`.
pub fn prepare_create_eth(
    commitment: &Commitment,
    amount: &str,
    refundable: bool,
    contract: &str,
) -> (r: Result<TxRequest, Error>)
    ensures
        request_model(r) == create_eth_request(
            commitment.commitment@,
            commitment.expiry_unix as nat,
            amount@,
            refundable,
            contract@,
        ),
{
    let value = match normalize_amount(amount, NATIVE_DECIMALS) {
        Ok(v) => v,
        Err(e) => {
            return Err(e);
        },
    };
    let to = match parse_address(contract, Field::Contract) {
        Ok(a) => a,
        Err(e) => {
            return Err(e);
        },
    };
    let data = encode_deposit_eth(commitment.commitment, commitment.expiry_unix, refundable);
    Ok(TxRequest { to, value, data })
}

/// The two transactions that fund `commitment` with `amount` of the token
/// at `token`, which has `decimals` decimal places, through the escrow at
/// `contract`.
pub fn prepare_deposit_erc20(
    commitment: &Commitment,
    token: &str,
    amount: &str,
    decimals: u8,
    refundable: bool,
    contract: &str,
) -> (r: Result<TokenFunding, Error>)
    ensures
        funding_model(r) == deposit_erc20_requests(
            commitment.commitment@,
            commitment.expiry_unix as nat,
            token@,
            amount@,
            decimals as nat,
            refundable,
            contract@,
        ),
{
    let token_address = match parse_address(token, Field::Token) {
        Ok(a) => a,
        Err(e) => {
            return Err(e);
        },
    };
    let escrow = match parse_address(contract, Field::Contract) {
        Ok(a) => a,
        Err(e) => {
            return Err(e);
        },
    };
    let value = match normalize_amount(amount, decimals) {
        Ok(v) => v,
        Err(e) => {
            return Err(e);
        },
    };
    let approve = TxRequest { to: token_address, value: 0, data: encode_approve(escrow, value) };
    let deposit = TxRequest {
        to: escrow,
        value: 0,
        data: encode_deposit_erc20(
            commitment.commitment,
            token_address,
            value,
            commitment.expiry_unix,
            refundable,
        ),
    };
    Ok(TokenFunding { approve, deposit })
}

/// The transaction that redeems a deposit to `to` by revealing `secret` and
/// `salt`, through the escrow at `contract`.
pub fn prepare_redeem(secret: &str, salt: &str, to: &str, contract: &str) -> (r: Result<
    TxRequest,
    Error,
>)
    ensures
        request_model(r) == redeem_request(secret@, salt@, to@, contract@),
{
    let escrow = match parse_address(contract, Field::Contract) {
        Ok(a) => a,
        Err(e) => {
            return Err(e);
        },
    };
    let recipient = match parse_address(to, Field::To) {
        Ok(a) => a,
        Err(e) => {
            return Err(e);
        },
    };
    let secret_bytes = match parse_bytes32(secret, Field::Secret) {
        Ok(a) => a,
        Err(e) => {
            return Err(e);
        },
    };
    let salt_bytes = match parse_bytes32(salt, Field::Salt) {
        Ok(a) => a,
        Err(e) => {
            return Err(e);
        },
    };
    Ok(TxRequest { to: escrow, value: 0, data: encode_redeem(secret_bytes, salt_bytes, recipient) })
}

/// The transaction that refunds an expired deposit by revealing `secret`
/// and `salt`, through the escrow at `contract`.
pub fn prepare_refund(secret: &str, salt: &str, contract: &str) -> (r: Result<TxRequest, Error>)
    ensures
        request_model(r) == refund_request(secret@, salt@, contract@),
{
    let escrow = match parse_address(contract, Field::Contract) {
        Ok(a) => a,
        Err(e) => {
            return Err(e);
        },
    };
    let secret_bytes = match parse_bytes32(secret, Field::Secret) {
        Ok(a) => a,
        Err(e) => {
            return Err(e);
        },
    };
    let salt_bytes = match parse_bytes32(salt, Field::Salt) {
        Ok(a) => a,
        Err(e) => {
            return Err(e);
        },
    };
    Ok(TxRequest { to: escrow, value: 0, data: encode_refund(secret_bytes, salt_bytes) })
}

/// What the transport needs: the key that signs and the node's URL.
#[derive(Debug, Clone, PartialEq, Eq)]
pub struct Config {
    pub signing_key: String,
    pub endpoint_url: String,
}

/// The configuration made of the two settings, where both are present. The
/// signing key is looked at first.
pub fn configure(signing_key: Option<String>, endpoint_url: Option<String>) -> (r: Result<
    Config,
    Error,
>)
    ensures
        match (signing_key, endpoint_url) {
            (Some(key), Some(url)) => r matches Ok(c) && c.signing_key == key && c.endpoint_url
                == url,
            (None, _) => r matches Err(e) && e@ == ErrorModel::MissingConfiguration(
                Setting::SigningKey,
            ),
            (Some(_), None) => r matches Err(e) && e@ == ErrorModel::MissingConfiguration(
                Setting::EndpointUrl,
            ),
        },
{
    let key = match signing_key {
        Some(k) => k,
        None => {
            return Err(Error::MissingConfiguration(Setting::SigningKey));
        },
    };
    let url = match endpoint_url {
        Some(u) => u,
        None => {
            return Err(Error::MissingConfiguration(Setting::EndpointUrl));
        },
    };
    Ok(Config { signing_key: key, endpoint_url: url })
}

/// The command whose transaction is reported.
#[derive(Debug, Clone, Copy, PartialEq, Eq, Structural)]
pub enum Command {
    CreateEth,
    DepositErc20,
    Redeem,
    Refund,
}

/// The block explorer's page for a transaction.
pub open spec fn explorer_url(tx_hash: Seq<u8>) -> Seq<char> {
    "https://sepolia.etherscan.io/tx/"@ + hex_prefixed(tx_hash)
}

/// What a command's confirmation line begins with.
pub open spec fn confirmed_prefix(command: Command) -> Seq<char> {
    match command {
        Command::CreateEth => "TX confirmed: "@,
        Command::DepositErc20 => "ERC20 deposit TX confirmed: "@,
        Command::Redeem => "Redeem TX confirmed: "@,
        Command::Refund => "Refund TX confirmed: "@,
    }
}

/// What a command says of a transaction without a receipt.
pub open spec fn unconfirmed_notice(command: Command) -> Seq<char> {
    match command {
        Command::CreateEth => "TX sent but not confirmed."@,
        Command::DepositErc20 => "ERC20 deposit TX sent but not confirmed."@,
        Command::Redeem => "\u{23F3} Redeem TX sent but not confirmed."@,
        Command::Refund => "Refund TX sent but not confirmed."@,
    }
}

/// The line that reports a submitted transaction: with a receipt, the
/// explorer's page for the receipt's transaction hash; without one, the
/// command's notice.
pub open spec fn spec_receipt_line(command: Command, receipt: Option<[u8; 32]>) -> Seq<char> {
    match receipt {
        Some(tx_hash) => confirmed_prefix(command) + explorer_url(tx_hash@),
        None => unconfirmed_notice(command),
    }
}

/// The line that reports a submitted transaction.
pub fn receipt_line(command: Command, receipt: Option<[u8; 32]>) -> (s: String)
    ensures
        s@ == spec_receipt_line(command, receipt),
{
    match receipt {
        Some(tx_hash) => {
            let prefix = match command {
                Command::CreateEth => "TX confirmed: ",
                Command::DepositErc20 => "ERC20 deposit TX confirmed: ",
                Command::Redeem => "Redeem TX confirmed: ",
                Command::Refund => "Refund TX confirmed: ",
            };
            let mut s = String::from_str(prefix);
            s.append("https://sepolia.etherscan.io/tx/");
            s.append(to_hex_prefixed(tx_hash.as_slice()).as_str());
            assert(s@ =~= spec_receipt_line(command, receipt));
            s
        },
        None => {
            let notice = match command {
                Command::CreateEth => "TX sent but not confirmed.",
                Command::DepositErc20 => "ERC20 deposit TX sent but not confirmed.",
                Command::Redeem => "\u{23F3} Redeem TX sent but not confirmed.",
                Command::Refund => "Refund TX sent but not confirmed.",
            };
            String::from_str(notice)
        },
    }
}

} // verus!
