//! Commitments: a fresh secret and salt, their hash, and the time at which
//! the deposit expires.

use vstd::prelude::*;
use chrono::{LocalResult, TimeZone, Utc};
use rand::rngs::OsRng;
use rand::RngCore;
use std::time::{Duration, UNIX_EPOCH};
use crate::duration::{duration_seconds, parse_duration, seconds_model};
use crate::error::{Error, ErrorModel};
use crate::hash::{keccak256_digest, keccak256_raw};
use crate::hexcode::{hex_prefixed, to_hex_prefixed};

verus! {

/// The calendar text of the instant `secs` seconds after 1970-01-01 00:00:00
/// UTC, as chrono renders it in UTC; `None` where chrono has no date for it.
pub uninterp spec fn utc_calendar_text(secs: int) -> Option<Seq<char>>;

/// The last second of the year 9999. Every timestamp from 0 up to it has a
/// calendar date.
pub const LAST_DATED_SECOND: u64 = 253_402_300_799;

/// What is hashed into a commitment: the secret's bytes, then the salt's.
pub open spec fn commitment_preimage(secret: Seq<u8>, salt: Seq<u8>) -> Seq<u8> {
    secret + salt
}

/// The commitment to a secret and a salt: the Keccak-256 digest of the
/// secret followed by the salt.
pub open spec fn spec_commitment(secret: Seq<u8>, salt: Seq<u8>) -> Seq<u8> {
    keccak256_digest(commitment_preimage(secret, salt))
}

/// A secret, a salt, the commitment to them and the deposit's expiry.
#[derive(Debug, Clone, PartialEq, Eq)]
pub struct Commitment {
    /// 32 random bytes.
    pub secret: [u8; 32],
    /// 32 random bytes, drawn apart from the secret.
    pub salt: [u8; 32],
    /// The hash of secret and salt.
    pub commitment: [u8; 32],
    /// When the deposit expires, in seconds since 1970-01-01 00:00:00 UTC.
    pub expiry_unix: u64,
    /// The expiry as a calendar date and time in UTC, for display.
    pub expiry_date: String,
}

impl Commitment {
    /// Whether the hash is that of secret and salt, and the calendar text
    /// that of the expiry.
    pub open spec fn wf(&self) -> bool {
        &&& self.commitment@ == spec_commitment(self.secret@, self.salt@)
        &&& utc_calendar_text(self.expiry_unix as int) == Some(self.expiry_date@)
    }

    /// The secret as `0x` and 64 hexadecimal digits.
    pub fn secret_hex(&self) -> (s: String)
        ensures
            s@ == hex_prefixed(self.secret@),
    {
        to_hex_prefixed(self.secret.as_slice())
    }

    /// The salt as `0x` and 64 hexadecimal digits.
    pub fn salt_hex(&self) -> (s: String)
        ensures
            s@ == hex_prefixed(self.salt@),
    {
        to_hex_prefixed(self.salt.as_slice())
    }

    /// The commitment as `0x` and 64 hexadecimal digits.
    pub fn commitment_hex(&self) -> (s: String)
        ensures
            s@ == hex_prefixed(self.commitment@),
    {
        to_hex_prefixed(self.commitment.as_slice())
    }
}

/// `rand::rngs::OsRng::try_fill_bytes`: 32 bytes from the operating
/// system's random source, or `None` where the source fails. Nothing is
/// promised of the bytes.
#[verifier::external_body]
pub(crate) fn random_bytes32() -> (r: Option<[u8; 32]>) {
    let mut bytes = [0u8; 32];
    match OsRng.try_fill_bytes(&mut bytes) {
        Ok(()) => Some(bytes),
        Err(_) => None,
    }
}

/// `std::time::SystemTime::elapsed` on `UNIX_EPOCH`: the time from
/// 1970-01-01 00:00:00 UTC to now, or `None` where the clock stands before
/// that instant. Nothing is promised of the time.
#[verifier::external_body]
pub(crate) fn since_epoch() -> (r: Option<Duration>) {
    match UNIX_EPOCH.elapsed() {
        Ok(d) => Some(d),
        Err(_) => None,
    }
}

/// `std::time::Duration::as_secs`: the whole seconds of a span of time.
/// Nothing is promised of the number.
#[verifier::external_body]
pub(crate) fn whole_seconds(d: &Duration) -> (secs: u64) {
    d.as_secs()
}

/// `chrono::TimeZone::timestamp_opt` on `Utc`, and the `Display` of the
/// date it gives: the calendar text of a timestamp, which depends on the
/// number of seconds alone; `None` where the number is out of chrono's
/// range. That range is wider than the years 1970 to 9999, for which a
/// date is promised.
#[verifier::external_body]
pub(crate) fn utc_calendar(secs: i64) -> (r: Option<String>)
    ensures
        match r {
            Some(s) => utc_calendar_text(secs as int) == Some(s@),
            None => utc_calendar_text(secs as int) is None,
        },
        0 <= secs <= LAST_DATED_SECOND ==> r is Some,
{
    match Utc.timestamp_opt(secs, 0) {
        LocalResult::Single(t) => Some(t.to_string()),
        _ => None,
    }
}

/// The commitment to a secret and a salt.
pub fn commitment_hash(secret: &[u8; 32], salt: &[u8; 32]) -> (h: [u8; 32])
    ensures
        h@ == spec_commitment(secret@, salt@),
{
    let mut input: Vec<u8> = Vec::new();
    let mut i: usize = 0;
    while i < 32
        invariant
            i <= 32,
            input@ == secret@.take(i as int),
        decreases 32 - i,
    {
        input.push(secret[i]);
        i = i + 1;
        assert(input@ =~= secret@.take(i as int));
    }
    assert(secret@.take(32) =~= secret@);
    let mut j: usize = 0;
    assert(input@ =~= secret@ + salt@.take(0));
    while j < 32
        invariant
            j <= 32,
            input@ == secret@ + salt@.take(j as int),
        decreases 32 - j,
    {
        input.push(salt[j]);
        j = j + 1;
        assert(input@ =~= secret@ + salt@.take(j as int));
    }
    assert(salt@.take(32) =~= salt@);
    keccak256_raw(input.as_slice())
}

/// The expiry of a deposit made at `now` that lasts `secs` seconds, where
/// it is a timestamp that chrono can date.
pub open spec fn expiry_of(now: nat, secs: nat) -> Option<(nat, Seq<char>)> {
    if now + secs > i64::MAX {
        None
    } else {
        match utc_calendar_text((now + secs) as int) {
            Some(text) => Some((now + secs, text)),
            None => None,
        }
    }
}

/// The commitment to `secret` and `salt` for a deposit made at `now`
/// (seconds since 1970-01-01 00:00:00 UTC) that lasts `secs` seconds. An
/// expiry that is no timestamp with a calendar date is an overflow; one up
/// to the end of the year 9999 never is.
pub fn commitment_at(secret: [u8; 32], salt: [u8; 32], now: u64, secs: u64) -> (r: Result<
    Commitment,
    Error,
>)
    ensures
        match expiry_of(now as nat, secs as nat) {
            Some((at, text)) => r matches Ok(c) && c.wf() && c.secret == secret && c.salt == salt
                && c.expiry_unix == at && c.expiry_date@ == text,
            None => r matches Err(e) && e@ == ErrorModel::Overflow,
        },
        now + secs <= LAST_DATED_SECOND ==> r is Ok,
{
    let at = match now.checked_add(secs) {
        Some(at) => at,
        None => {
            return Err(Error::Overflow);
        },
    };
    if at > i64::MAX as u64 {
        return Err(Error::Overflow);
    }
    match utc_calendar(at as i64) {
        Some(text) => {
            let commitment = commitment_hash(&secret, &salt);
            Ok(Commitment { secret, salt, commitment, expiry_unix: at, expiry_date: text })
        },
        None => Err(Error::Overflow),
    }
}

/// The commitment made of what the random source and the clock gave, for
/// a deposit that lasts `secs` seconds. It fails closed: a draw that gave
/// nothing is a failure of the random source, whatever else was given, and
/// nothing stands in for the missing bytes; then a clock that gave nothing
/// is a failure of the clock.
pub fn commitment_from(
    secret: Option<[u8; 32]>,
    salt: Option<[u8; 32]>,
    now: Option<u64>,
    secs: u64,
) -> (r: Result<Commitment, Error>)
    ensures
        match (secret, salt, now) {
            (Some(s), Some(t), Some(n)) => match expiry_of(n as nat, secs as nat) {
                Some((at, text)) => r matches Ok(c) && c.wf() && c.secret == s && c.salt == t
                    && c.expiry_unix == at && c.expiry_date@ == text,
                None => r matches Err(e) && e@ == ErrorModel::Overflow,
            },
            (Some(_), Some(_), None) => r matches Err(e) && e@ == ErrorModel::Clock,
            _ => r matches Err(e) && e@ == ErrorModel::RandomSource,
        },
        secret is Some && salt is Some && now is Some && now->0 + secs <= LAST_DATED_SECOND
            ==> r is Ok,
{
    let secret = match secret {
        Some(b) => b,
        None => {
            return Err(Error::RandomSource);
        },
    };
    let salt = match salt {
        Some(b) => b,
        None => {
            return Err(Error::RandomSource);
        },
    };
    let now = match now {
        Some(t) => t,
        None => {
            return Err(Error::Clock);
        },
    };
    commitment_at(secret, salt, now, secs)
}

/// A fresh commitment for a deposit that expires `expiry` from now, where
/// `expiry` is a duration such as `2d12h`. Secret and salt are drawn apart
/// from the system's random source, and the clock is read once; what they
/// gave is made into the commitment by [`commitment_from`]. A duration that
/// does not parse fails with its own error, whatever the random source and
/// the clock do.
pub fn make_commitment(expiry: &str) -> (r: Result<Commitment, Error>)
    ensures
        duration_seconds(expiry@) matches Err(e) ==> r matches Err(x) && x@ == e,
        r matches Ok(c) ==> c.wf() && (duration_seconds(expiry@) matches Ok(secs)
            && c.expiry_unix >= secs),
        r matches Err(x) ==> duration_seconds(expiry@) == Err::<nat, ErrorModel>(x@) || x@
            == ErrorModel::RandomSource || x@ == ErrorModel::Clock || x@ == ErrorModel::Overflow,
{
    let parsed = parse_duration(expiry);
    assert(seconds_model(parsed) == duration_seconds(expiry@));
    let secs = match parsed {
        Ok(secs) => secs,
        Err(e) => {
            return Err(e);
        },
    };
    let secret = random_bytes32();
    let salt = random_bytes32();
    let now = match since_epoch() {
        Some(d) => Some(whole_seconds(&d)),
        None => None,
    };
    commitment_from(secret, salt, now, secs)
}

/// A commitment's preimage names its secret and its salt: two pairs with
/// the same preimage are the same pair. So a change to either changes what
/// is hashed; that the digest then changes too rests on Keccak-256.
pub proof fn lemma_preimage_injective(
    secret: Seq<u8>,
    salt: Seq<u8>,
    secret2: Seq<u8>,
    salt2: Seq<u8>,
)
    requires
        secret.len() == secret2.len(),
        commitment_preimage(secret, salt) == commitment_preimage(secret2, salt2),
    ensures
        secret == secret2,
        salt == salt2,
{
    let p = commitment_preimage(secret, salt);
    let q = commitment_preimage(secret2, salt2);
    assert(secret =~= p.take(secret.len() as int));
    assert(secret2 =~= q.take(secret.len() as int));
    assert(salt =~= p.skip(secret.len() as int));
    assert(salt2 =~= q.skip(secret.len() as int));
}

} // verus!
