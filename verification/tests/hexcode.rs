use std::str::FromStr;
use vaporpay::error::{Error, Field};
use vaporpay::hash::keccak256;
use vaporpay::hexcode::{parse_address, parse_bytes32, parse_hex, to_hex_prefixed};

#[test]
fn bytes_as_lowercase_hex() {
    assert_eq!(to_hex_prefixed(&[]), "0x");
    assert_eq!(to_hex_prefixed(&[0x00, 0xab, 0xff, 0x10]), "0x00abff10");
    assert_eq!(to_hex_prefixed(b"Hello world!"), "0x48656c6c6f20776f726c6421");
}

#[test]
fn reads_an_address() {
    let text = "0x00112233445566778899aAbBcCdDeEfF01020304";
    let expected = [
        0x00, 0x11, 0x22, 0x33, 0x44, 0x55, 0x66, 0x77, 0x88, 0x99, 0xaa, 0xbb, 0xcc, 0xdd, 0xee,
        0xff, 0x01, 0x02, 0x03, 0x04,
    ];
    assert_eq!(parse_address(text, Field::To), Ok(expected));
    assert_eq!(parse_address(&text[2..], Field::To), Ok(expected));
}

#[test]
fn names_the_malformed_input() {
    assert_eq!(parse_address("0x1234", Field::Token), Err(Error::InvalidArgument(Field::Token)));
    assert_eq!(parse_address("", Field::Contract), Err(Error::InvalidArgument(Field::Contract)));
    assert_eq!(
        parse_address("0xzz112233445566778899aabbccddeeff01020304", Field::To),
        Err(Error::InvalidArgument(Field::To))
    );
    assert_eq!(
        parse_address("0X00112233445566778899aabbccddeeff01020304", Field::To),
        Err(Error::InvalidArgument(Field::To))
    );
    assert_eq!(
        parse_address("0x00112233445566778899aabbccddeeff0102030405", Field::To),
        Err(Error::InvalidArgument(Field::To))
    );
    assert_eq!(
        parse_bytes32("0x00112233445566778899aabbccddeeff01020304", Field::Secret),
        Err(Error::InvalidArgument(Field::Secret))
    );
    assert_eq!(parse_bytes32("nonsense", Field::Salt), Err(Error::InvalidArgument(Field::Salt)));
}

#[test]
fn reading_undoes_writing() {
    let mut bytes = [0u8; 32];
    for (i, b) in bytes.iter_mut().enumerate() {
        *b = (i as u8).wrapping_mul(37).wrapping_add(5);
    }
    let text = to_hex_prefixed(&bytes);
    assert_eq!(text.len(), 66);
    assert_eq!(parse_bytes32(&text, Field::Secret), Ok(bytes));
    assert_eq!(parse_hex(&text, 32), Some(bytes.to_vec()));
    assert_eq!(parse_hex(&text[..6], 2), Some(vec![bytes[0], bytes[1]]));
    assert_eq!(parse_hex("", 0), Some(vec![]));
    assert_eq!(parse_hex("0x", 0), Some(vec![]));
    assert_eq!(parse_hex(&text, 31), None);
    assert_eq!(parse_hex(&text, usize::MAX), None);
}

#[test]
fn agrees_with_the_reference_parser() {
    let cases = [
        "0x00112233445566778899aabbccddeeff01020304",
        "00112233445566778899AABBCCDDEEFF01020304",
        "0x00112233445566778899aabbccddeeff010203",
        "0x00112233445566778899aabbccddeeff0102030405",
        "0x 00112233445566778899aabbccddeeff01020304",
        "0x0011 2233 4455 6677 8899 aabb ccdd eeff 0102 0304\n",
        " 0x00112233445566778899aabbccddeeff01020304",
        "0x0x112233445566778899aabbccddeeff01020304",
        "0x00112233445566778899aabbccddeeff0102030g",
        "0x00112233445566778899aabbccddeeff010203\u{e9}4",
        "0x0\t0112233445566778899aabbccddeeff01020304",
        "",
        "0x",
    ];
    for text in cases {
        let reference = ethers::types::Address::from_str(text).ok().map(|a| a.0);
        assert_eq!(parse_address(text, Field::To).ok(), reference, "{:?}", text);
    }
    let long = "0xa3c1f0e2d4b5968778695a4b3c2d1e0ff0e1d2c3b4a5968778695a4b3c2d1e0f";
    let reference = ethers::types::H256::from_str(long).ok().map(|h| h.0);
    assert!(reference.is_some());
    assert_eq!(parse_bytes32(long, Field::Secret).ok(), reference);
}

#[test]
fn keccak_of_known_inputs() {
    assert_eq!(
        keccak256(b""),
        "0xc5d2460186f7233c927e7db2dcc703c0e500b653ca82273b7bfad8045d85a470"
    );
    assert_eq!(
        keccak256(b"abc"),
        "0x4e03657aea45a94fc7d47ba826c8d667c0d1e6e33a64a036ec44f58fa12d6c45"
    );
}
