use qrcode::QrCode;
use vaporpay::error::Error;
use vaporpay::voucher::{draw_modules, generate_qr, redeem_url, QrMatrix, MODULE_PIXELS};

const SECRET: &str = "0xabababababababababababababababababababababababababababababababab";
const SALT: &str = "0xcdcdcdcdcdcdcdcdcdcdcdcdcdcdcdcdcdcdcdcdcdcdcdcdcdcdcdcdcdcdcdcd";
const CONTRACT: &str = "0x00112233445566778899aabbccddeeff01020304";

#[test]
fn redemption_url() {
    assert_eq!(
        redeem_url("S", "T", "C"),
        "https://somethingcorrosive.github.io/vaporpay/?secret=S&salt=T&contract=C"
    );
    assert_eq!(
        redeem_url(SECRET, SALT, CONTRACT),
        format!(
            "https://somethingcorrosive.github.io/vaporpay/?secret={}&salt={}&contract={}",
            SECRET, SALT, CONTRACT
        )
    );
}

#[test]
fn voucher_holds_the_code_of_the_url() {
    let v = generate_qr(SECRET, SALT, CONTRACT).unwrap();
    let code = QrCode::new(v.url.as_bytes()).unwrap();
    assert_eq!(v.url, redeem_url(SECRET, SALT, CONTRACT));
    assert_eq!(v.matrix.side, code.width());
    assert_eq!(v.matrix.modules.len(), code.width() * code.width());
    for y in 0..code.width() {
        for x in 0..code.width() {
            assert_eq!(v.matrix.modules[y * code.width() + x], code[(x, y)] == qrcode::Color::Dark);
        }
    }
    assert!(v.matrix.modules.iter().any(|m| *m));
    assert!(v.matrix.modules.iter().any(|m| !*m));
    let text: String = code.render::<char>().quiet_zone(true).module_dimensions(2, 1).build();
    assert_eq!(v.text_art, text);
    assert!(v.text_art.lines().count() >= code.width());
}

#[test]
fn image_has_ten_pixels_to_a_module() {
    let v = generate_qr(SECRET, SALT, CONTRACT).unwrap();
    let side = v.matrix.side * 10;
    assert_eq!(MODULE_PIXELS, 10);
    assert_eq!(v.image.width, side);
    assert_eq!(v.image.height, side);
    assert_eq!(v.image.pixels.len(), side * side);
    for y in 0..side {
        for x in 0..side {
            let dark = v.matrix.modules[(y / 10) * v.matrix.side + x / 10];
            assert_eq!(v.image.pixels[y * side + x], if dark { 0 } else { 255 });
        }
    }
}

#[test]
fn a_url_too_long_for_a_code_is_refused() {
    let long = "a".repeat(4000);
    assert_eq!(generate_qr(&long, SALT, CONTRACT), Err(Error::VoucherTooLarge));
}

#[test]
fn a_code_wider_than_a_voucher_is_refused() {
    // 300 bytes of query fit a code of version 13 or more, which is 69 modules wide.
    let long = "a".repeat(300);
    assert!(QrCode::new(redeem_url(&long, SALT, CONTRACT).as_bytes()).unwrap().width() > 65);
    assert_eq!(generate_qr(&long, SALT, CONTRACT), Err(Error::VoucherTooLarge));
}

#[test]
fn the_widest_voucher() {
    let mut widest = 0;
    for extra in 0..60 {
        let secret = format!("{}{}", SECRET, "f".repeat(extra));
        let width = QrCode::new(redeem_url(&secret, SALT, CONTRACT).as_bytes()).unwrap().width();
        match generate_qr(&secret, SALT, CONTRACT) {
            Ok(v) => {
                assert!(width <= 65);
                assert_eq!(v.matrix.side, width);
                if width > widest {
                    widest = width;
                }
            }
            Err(e) => {
                assert!(width > 65);
                assert_eq!(e, Error::VoucherTooLarge);
            }
        }
    }
    assert_eq!(widest, 65);
}

#[test]
fn a_url_longer_than_is_looked_at_is_refused() {
    let fill = 4096 - redeem_url("", SALT, CONTRACT).len();
    assert_eq!(redeem_url(&"1".repeat(fill), SALT, CONTRACT).len(), 4096);
    assert_eq!(generate_qr(&"1".repeat(fill), SALT, CONTRACT), Err(Error::VoucherTooLarge));
    assert_eq!(generate_qr(&"1".repeat(fill + 1), SALT, CONTRACT), Err(Error::VoucherTooLarge));
    assert_eq!(generate_qr(&"1".repeat(1 << 20), SALT, CONTRACT), Err(Error::VoucherTooLarge));
}

#[test]
fn the_image_is_as_wide_as_the_code() {
    let v = generate_qr(SECRET, SALT, CONTRACT).unwrap();
    let code = QrCode::new(v.url.as_bytes()).unwrap();
    assert_eq!(v.matrix.side, code.width());
    assert_eq!(v.image.width, code.width() * 10);
    assert_eq!(v.matrix.side * v.matrix.side, v.matrix.modules.len());
}

#[test]
fn modules_must_fill_a_square() {
    assert_eq!(QrMatrix::from_modules(vec![]), Some(QrMatrix { side: 0, modules: vec![] }));
    assert_eq!(QrMatrix::from_modules(vec![true]), Some(QrMatrix { side: 1, modules: vec![true] }));
    assert_eq!(QrMatrix::from_modules(vec![true, false]), None);
    assert_eq!(QrMatrix::from_modules(vec![true; 3]), None);
    assert_eq!(QrMatrix::from_modules(vec![false; 4]).map(|m| m.side), Some(2));
    assert_eq!(QrMatrix::from_modules(vec![false; 8]), None);
    assert_eq!(QrMatrix::from_modules(vec![false; 441]).map(|m| m.side), Some(21));
}

#[test]
fn drawing_a_small_square() {
    let matrix = QrMatrix::from_modules(vec![true, false, false, true]).unwrap();
    let image = draw_modules(&matrix, 2);
    assert_eq!(image.width, 4);
    assert_eq!(image.height, 4);
    assert_eq!(
        image.pixels,
        vec![0, 0, 255, 255, 0, 0, 255, 255, 255, 255, 0, 0, 255, 255, 0, 0]
    );
    let same = draw_modules(&matrix, 1);
    assert_eq!(same.pixels, vec![0, 255, 255, 0]);
    let none = draw_modules(&matrix, 0);
    assert_eq!((none.width, none.height, none.pixels.len()), (0, 0, 0));
}
