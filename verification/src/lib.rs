//! Client-side core of the VaporPay hash-lock escrow.
//!
//! A deposit is locked under a commitment, the Keccak-256 hash of a secret
//! and a salt, and is released to whoever reveals both. This library works
//! out everything that a client sends, and nothing of how it is sent:
//!
//! - [`duration`] reads an expiry such as `2d12h` into seconds;
//! - [`commitment`] draws secret and salt, hashes them and dates the expiry;
//! - [`amount`] scales a decimal amount to whole base units;
//! - [`abi`] and [`calls`] lay out the call data of the contract's functions;
//! - [`request`] turns a command's inputs into transaction requests;
//! - [`sequence`] decides in which order requests go out;
//! - [`voucher`] makes the redemption URL and its QR code;
//! - [`hash`], [`hexcode`] and [`text`] serve the others.
//!
//! Every function states what it returns over plain mathematical values,
//! and Verus proves that it does. What other crates compute is either
//! stated in a few lines (hexadecimal text, the words of call data) or
//! named, not defined (the Keccak-256 digest, a timestamp's calendar text,
//! a QR code's modules): the contracts say which call's result it is.

pub mod abi;
pub mod amount;
pub mod calls;
pub mod commitment;
pub mod duration;
pub mod error;
pub mod hash;
pub mod hexcode;
pub mod request;
pub mod sequence;
pub mod text;
pub mod voucher;
