use vaporpay::calls::{
    decode_redeem, encode_approve, encode_deposit_erc20, encode_deposit_eth, encode_redeem,
    encode_refund,
};
use vaporpay::commitment::{commitment_at, Commitment};
use vaporpay::error::{Error, Field, Setting};
use vaporpay::request::{
    configure, funding_requests, prepare_create_eth, prepare_deposit_erc20, prepare_redeem,
    prepare_refund, receipt_line, Command, Config,
};

const ESCROW: &str = "0x00112233445566778899aabbccddeeff01020304";
const TOKEN: &str = "0xffeeddccbbaa99887766554433221100a0b0c0d0";

fn escrow() -> [u8; 20] {
    [
        0x00, 0x11, 0x22, 0x33, 0x44, 0x55, 0x66, 0x77, 0x88, 0x99, 0xaa, 0xbb, 0xcc, 0xdd, 0xee,
        0xff, 0x01, 0x02, 0x03, 0x04,
    ]
}

fn token() -> [u8; 20] {
    [
        0xff, 0xee, 0xdd, 0xcc, 0xbb, 0xaa, 0x99, 0x88, 0x77, 0x66, 0x55, 0x44, 0x33, 0x22, 0x11,
        0x00, 0xa0, 0xb0, 0xc0, 0xd0,
    ]
}

fn sample() -> Commitment {
    commitment_at([7u8; 32], [9u8; 32], 1_700_000_000, 86400).unwrap()
}

#[test]
fn create_eth_request() {
    let c = sample();
    let tx = prepare_create_eth(&c, "0.1", true, ESCROW).unwrap();
    assert_eq!(tx.to, escrow());
    assert_eq!(tx.value, 100_000_000_000_000_000);
    assert_eq!(tx.data, encode_deposit_eth(c.commitment, 1_700_086_400, true));
}

#[test]
fn create_eth_reads_the_amount_first() {
    let c = sample();
    assert_eq!(prepare_create_eth(&c, "-1", true, "nonsense"), Err(Error::InvalidAmount));
    assert_eq!(
        prepare_create_eth(&c, "1", true, "nonsense"),
        Err(Error::InvalidArgument(Field::Contract))
    );
}

#[test]
fn deposit_erc20_requests() {
    let c = sample();
    let plan = prepare_deposit_erc20(&c, TOKEN, "1.5", 6, false, ESCROW).unwrap();
    assert_eq!(plan.approve.to, token());
    assert_eq!(plan.approve.value, 0);
    assert_eq!(plan.approve.data, encode_approve(escrow(), 1_500_000));
    assert_eq!(plan.deposit.to, escrow());
    assert_eq!(plan.deposit.value, 0);
    assert_eq!(
        plan.deposit.data,
        encode_deposit_erc20(c.commitment, token(), 1_500_000, 1_700_086_400, false)
    );
}

#[test]
fn deposit_erc20_reads_token_then_contract_then_amount() {
    let c = sample();
    assert_eq!(
        prepare_deposit_erc20(&c, "x", "-1", 6, false, "y"),
        Err(Error::InvalidArgument(Field::Token))
    );
    assert_eq!(
        prepare_deposit_erc20(&c, TOKEN, "-1", 6, false, "y"),
        Err(Error::InvalidArgument(Field::Contract))
    );
    assert_eq!(prepare_deposit_erc20(&c, TOKEN, "-1", 6, false, ESCROW), Err(Error::InvalidAmount));
    assert_eq!(prepare_deposit_erc20(&c, TOKEN, "1", 39, false, ESCROW), Err(Error::InvalidAmount));
}

#[test]
fn redeem_request() {
    let secret = format!("0x{}", "ab".repeat(32));
    let salt = format!("0x{}", "cd".repeat(32));
    let tx = prepare_redeem(&secret, &salt, TOKEN, ESCROW).unwrap();
    assert_eq!(tx.to, escrow());
    assert_eq!(tx.value, 0);
    assert_eq!(tx.data, encode_redeem([0xab; 32], [0xcd; 32], token()));
}

#[test]
fn redeem_names_the_first_malformed_input() {
    let good = format!("0x{}", "ab".repeat(32));
    assert_eq!(prepare_redeem("s", "t", "u", "v"), Err(Error::InvalidArgument(Field::Contract)));
    assert_eq!(prepare_redeem("s", "t", "u", ESCROW), Err(Error::InvalidArgument(Field::To)));
    assert_eq!(prepare_redeem("s", "t", TOKEN, ESCROW), Err(Error::InvalidArgument(Field::Secret)));
    assert_eq!(prepare_redeem(&good, "t", TOKEN, ESCROW), Err(Error::InvalidArgument(Field::Salt)));
    assert_eq!(
        prepare_redeem(&good, ESCROW, TOKEN, ESCROW),
        Err(Error::InvalidArgument(Field::Salt))
    );
}

#[test]
fn refund_request() {
    let secret = format!("0x{}", "01".repeat(32));
    let salt = "02".repeat(32);
    let tx = prepare_refund(&secret, &salt, ESCROW).unwrap();
    assert_eq!(tx.to, escrow());
    assert_eq!(tx.value, 0);
    assert_eq!(tx.data, encode_refund([1; 32], [2; 32]));
    assert_eq!(prepare_refund(&secret, &salt, ""), Err(Error::InvalidArgument(Field::Contract)));
    assert_eq!(prepare_refund("", &salt, ESCROW), Err(Error::InvalidArgument(Field::Secret)));
    assert_eq!(prepare_refund(&secret, "0x", ESCROW), Err(Error::InvalidArgument(Field::Salt)));
}

#[test]
fn configuration_needs_both_settings() {
    assert_eq!(
        configure(Some("key".to_string()), Some("http://node".to_string())),
        Ok(Config { signing_key: "key".to_string(), endpoint_url: "http://node".to_string() })
    );
    assert_eq!(
        configure(None, Some("http://node".to_string())),
        Err(Error::MissingConfiguration(Setting::SigningKey))
    );
    assert_eq!(
        configure(Some("key".to_string()), None),
        Err(Error::MissingConfiguration(Setting::EndpointUrl))
    );
    assert_eq!(configure(None, None), Err(Error::MissingConfiguration(Setting::SigningKey)));
}

#[test]
fn receipt_lines() {
    let hash = [0x1fu8; 32];
    let url = format!("https://sepolia.etherscan.io/tx/0x{}", "1f".repeat(32));
    assert_eq!(receipt_line(Command::CreateEth, Some(hash)), format!("TX confirmed: {}", url));
    assert_eq!(
        receipt_line(Command::DepositErc20, Some(hash)),
        format!("ERC20 deposit TX confirmed: {}", url)
    );
    assert_eq!(receipt_line(Command::Redeem, Some(hash)), format!("Redeem TX confirmed: {}", url));
    assert_eq!(receipt_line(Command::Refund, Some(hash)), format!("Refund TX confirmed: {}", url));
    assert_eq!(receipt_line(Command::CreateEth, None), "TX sent but not confirmed.");
    assert_eq!(receipt_line(Command::DepositErc20, None), "ERC20 deposit TX sent but not confirmed.");
    assert_eq!(receipt_line(Command::Redeem, None), "\u{23F3} Redeem TX sent but not confirmed.");
    assert_eq!(receipt_line(Command::Refund, None), "Refund TX sent but not confirmed.");
}

#[test]
fn what_a_commitment_prints_redeems_it() {
    let c = sample();
    let tx = prepare_redeem(&c.secret_hex(), &c.salt_hex(), TOKEN, ESCROW).unwrap();
    assert_eq!(decode_redeem(&tx.data), Some((c.secret, c.salt, token())));
    let back = prepare_refund(&c.secret_hex(), &c.salt_hex(), ESCROW).unwrap();
    assert_eq!(back.data, encode_refund(c.secret, c.salt));
}

#[test]
fn approval_goes_out_before_the_deposit() {
    let c = sample();
    let plan = prepare_deposit_erc20(&c, TOKEN, "2", 18, true, ESCROW).unwrap();
    let requests = funding_requests(plan.clone());
    assert_eq!(requests.len(), 2);
    assert_eq!(requests[0], plan.approve);
    assert_eq!(requests[1], plan.deposit);
    assert_eq!(requests[0].to, token());
    assert_eq!(&requests[0].data[..4], &[0x09, 0x5e, 0xa7, 0xb3]);
    assert_eq!(requests[1].to, escrow());
}
