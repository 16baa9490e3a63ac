//! The failures that the library reports, and their mathematical model.

use vstd::prelude::*;

verus! {

/// An input of a call that is a fixed-length hex identifier.
#[derive(Debug, Clone, Copy, PartialEq, Eq, Structural)]
pub enum Field {
    /// The escrow contract's address.
    Contract,
    /// The token contract's address.
    Token,
    /// The address that receives a redeemed deposit.
    To,
    /// The 32-byte secret.
    Secret,
    /// The 32-byte salt.
    Salt,
}

/// A setting that the transport needs before anything is sent.
#[derive(Debug, Clone, Copy, PartialEq, Eq, Structural)]
pub enum Setting {
    /// The key that signs transactions.
    SigningKey,
    /// The URL of the ledger node.
    EndpointUrl,
}

/// Why a call of the library failed.
#[derive(Debug, Clone, PartialEq, Eq)]
pub enum Error {
    /// A duration segment's unit is none of `s`, `m`, `h`, `d`; holds the unit.
    InvalidUnit(String),
    /// A duration segment's number is not a decimal number.
    InvalidNumber,
    /// A number of seconds does not fit the 64-bit range.
    Overflow,
    /// An amount is negative, malformed, or too large to scale.
    InvalidAmount,
    /// A hex identifier is malformed; names the input.
    InvalidArgument(Field),
    /// A required setting is absent; names it.
    MissingConfiguration(Setting),
    /// The system's random source gave no bytes.
    RandomSource,
    /// The system's clock stands before 1970.
    Clock,
    /// The redemption URL does not fit a QR code.
    VoucherTooLarge,
}

/// What an [`Error`] says, with text as a sequence of characters.
pub enum ErrorModel {
    InvalidUnit(Seq<char>),
    InvalidNumber,
    Overflow,
    InvalidAmount,
    InvalidArgument(Field),
    MissingConfiguration(Setting),
    RandomSource,
    Clock,
    VoucherTooLarge,
}

impl View for Error {
    type V = ErrorModel;

    open spec fn view(&self) -> ErrorModel {
        match *self {
            Error::InvalidUnit(u) => ErrorModel::InvalidUnit(u@),
            Error::InvalidNumber => ErrorModel::InvalidNumber,
            Error::Overflow => ErrorModel::Overflow,
            Error::InvalidAmount => ErrorModel::InvalidAmount,
            Error::InvalidArgument(f) => ErrorModel::InvalidArgument(f),
            Error::MissingConfiguration(s) => ErrorModel::MissingConfiguration(s),
            Error::RandomSource => ErrorModel::RandomSource,
            Error::Clock => ErrorModel::Clock,
            Error::VoucherTooLarge => ErrorModel::VoucherTooLarge,
        }
    }
}

} // verus!
