use std::time::{SystemTime, UNIX_EPOCH};
use vaporpay::commitment::{commitment_at, commitment_from, commitment_hash, make_commitment};
use vaporpay::error::Error;
use vaporpay::hash::keccak256;
use vaporpay::hexcode::to_hex_prefixed;
use vaporpay::request::prepare_create_eth;

#[test]
fn commitment_is_the_hash_of_secret_then_salt() {
    let secret = [0x11u8; 32];
    let salt = [0x22u8; 32];
    let mut input = secret.to_vec();
    input.extend_from_slice(&salt);
    assert_eq!(to_hex_prefixed(&commitment_hash(&secret, &salt)), keccak256(&input));
    assert_ne!(commitment_hash(&secret, &salt), commitment_hash(&salt, &secret));
    assert_ne!(commitment_hash(&secret, &salt), secret);
}

#[test]
fn commitment_is_deterministic() {
    let secret = [0x5au8; 32];
    let salt = [0xc3u8; 32];
    assert_eq!(commitment_hash(&secret, &salt), commitment_hash(&secret, &salt));
}

#[test]
fn one_bit_changes_the_commitment() {
    let secret = [0x5au8; 32];
    let salt = [0xc3u8; 32];
    let base = commitment_hash(&secret, &salt);
    for byte in [0usize, 13, 31] {
        for bit in [0u8, 7] {
            let mut other = secret;
            other[byte] ^= 1 << bit;
            assert_ne!(commitment_hash(&other, &salt), base);
            let mut other = salt;
            other[byte] ^= 1 << bit;
            assert_ne!(commitment_hash(&secret, &other), base);
        }
    }
}

#[test]
fn expiry_is_now_plus_the_duration() {
    let c = commitment_at([1u8; 32], [2u8; 32], 1_700_000_000, 3600).unwrap();
    assert_eq!(c.expiry_unix, 1_700_003_600);
    assert_eq!(c.expiry_date, "2023-11-14 23:13:20 UTC");
    assert_eq!(c.secret, [1u8; 32]);
    assert_eq!(c.salt, [2u8; 32]);
    assert_eq!(c.commitment, commitment_hash(&[1u8; 32], &[2u8; 32]));
    assert_eq!(commitment_at([1u8; 32], [2u8; 32], 0, 0).unwrap().expiry_date, "1970-01-01 00:00:00 UTC");
}

#[test]
fn expiry_beyond_the_calendar_is_an_overflow() {
    assert_eq!(commitment_at([0u8; 32], [0u8; 32], u64::MAX, 1), Err(Error::Overflow));
    assert_eq!(commitment_at([0u8; 32], [0u8; 32], i64::MAX as u64, 1), Err(Error::Overflow));
    assert_eq!(commitment_at([0u8; 32], [0u8; 32], i64::MAX as u64, 0), Err(Error::Overflow));
    assert_eq!(commitment_at([0u8; 32], [0u8; 32], 1 << 62, 0), Err(Error::Overflow));
}

#[test]
fn hex_forms() {
    let c = commitment_at([0xabu8; 32], [0x01u8; 32], 10, 20).unwrap();
    assert_eq!(c.secret_hex(), format!("0x{}", "ab".repeat(32)));
    assert_eq!(c.salt_hex(), format!("0x{}", "01".repeat(32)));
    assert_eq!(c.commitment_hex(), to_hex_prefixed(&c.commitment));
    assert_eq!(c.commitment_hex().len(), 66);
}

#[test]
fn funding_without_submission() {
    let before = SystemTime::now().duration_since(UNIX_EPOCH).unwrap().as_secs();
    let c = make_commitment("1h").unwrap();
    let after = SystemTime::now().duration_since(UNIX_EPOCH).unwrap().as_secs();
    assert!(before + 3600 <= c.expiry_unix && c.expiry_unix <= after + 3600);
    assert_eq!(c.secret.len(), 32);
    assert_eq!(c.salt.len(), 32);
    assert_ne!(c.secret, c.salt);
    assert_eq!(c.commitment, commitment_hash(&c.secret, &c.salt));
    assert!(c.expiry_date.ends_with(" UTC"));
    let tx = prepare_create_eth(&c, "0.1", true, "0x00112233445566778899aabbccddeeff01020304")
        .unwrap();
    assert_eq!(tx.value, 100_000_000_000_000_000);
    assert_eq!(&tx.data[4..36], &c.commitment);
}

#[test]
fn fresh_commitments_differ() {
    let a = make_commitment("2d12h").unwrap();
    let b = make_commitment("2d12h").unwrap();
    assert_ne!(a.secret, b.secret);
    assert_ne!(a.salt, b.salt);
    assert_ne!(a.commitment, b.commitment);
    assert_ne!(a.secret, [0u8; 32]);
}

#[test]
fn a_bad_duration_fails_with_its_own_error() {
    assert_eq!(make_commitment("5"), Err(Error::InvalidUnit(String::new())));
    assert_eq!(make_commitment("1w"), Err(Error::InvalidUnit("w".to_string())));
    assert_eq!(make_commitment("m1"), Err(Error::InvalidNumber));
    assert_eq!(make_commitment("18446744073709551615s"), Err(Error::Overflow));
}

#[test]
fn a_failed_draw_fails_the_commitment() {
    let some = Some([3u8; 32]);
    assert_eq!(commitment_from(None, some, Some(10), 5), Err(Error::RandomSource));
    assert_eq!(commitment_from(some, None, Some(10), 5), Err(Error::RandomSource));
    assert_eq!(commitment_from(None, None, Some(10), 5), Err(Error::RandomSource));
    assert_eq!(commitment_from(None, None, None, 5), Err(Error::RandomSource));
    assert_eq!(commitment_from(None, some, None, 5), Err(Error::RandomSource));
}

#[test]
fn a_failed_clock_fails_the_commitment() {
    assert_eq!(commitment_from(Some([3u8; 32]), Some([4u8; 32]), None, 5), Err(Error::Clock));
}

#[test]
fn draws_and_clock_make_the_commitment() {
    let made = commitment_from(Some([3u8; 32]), Some([4u8; 32]), Some(1_700_000_000), 60);
    assert_eq!(made, commitment_at([3u8; 32], [4u8; 32], 1_700_000_000, 60));
    assert_eq!(made.unwrap().expiry_unix, 1_700_000_060);
    assert_eq!(
        commitment_from(Some([3u8; 32]), Some([4u8; 32]), Some(u64::MAX), 60),
        Err(Error::Overflow)
    );
}

#[test]
fn every_expiry_up_to_the_year_9999_has_a_date() {
    let last = commitment_at([1u8; 32], [2u8; 32], 253_402_300_799, 0).unwrap();
    assert_eq!(last.expiry_date, "9999-12-31 23:59:59 UTC");
    let split = commitment_at([1u8; 32], [2u8; 32], 253_402_300_000, 799).unwrap();
    assert_eq!(split.expiry_unix, 253_402_300_799);
    assert!(commitment_at([1u8; 32], [2u8; 32], 0, 0).is_ok());
    assert!(commitment_at([1u8; 32], [2u8; 32], 1_700_000_000, 3600).is_ok());
}
