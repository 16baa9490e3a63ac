//! Vouchers: the redemption URL, and its QR code as text and as pixels.

use vstd::prelude::*;
use vstd::string::StringSliceAdditionalSpecFns;
use qrcode::bits::encode_auto;
use qrcode::{EcLevel, QrCode};
use crate::error::{Error, ErrorModel};

verus! {

/// How many pixels a module is wide and high in a voucher's image.
pub const MODULE_PIXELS: usize = 10;

/// The widest code that a voucher may have, in modules a side: that of a
/// code of version 12.
pub const MAX_SIDE: i16 = 65;

/// How many modules a side the QR code of `data` has: the width of the
/// version that `qrcode::bits::encode_auto` picks for `data` at the medium
/// correction level, which is the version of the code that
/// `qrcode::QrCode::new` makes; `None` where no version holds the data.
pub uninterp spec fn qr_side(data: Seq<u8>) -> Option<int>;

/// The longest data that is looked at for a voucher, in bytes. No code of
/// 65 modules a side holds as much.
pub const MAX_DATA_BYTES: usize = 4096;

/// Whether `data` makes a voucher's code: it is not longer than is looked
/// at, and its code is no wider than a voucher's may be.
pub open spec fn fits_voucher(data: Seq<u8>) -> bool {
    &&& data.len() <= MAX_DATA_BYTES
    &&& qr_side(data) matches Some(side)
    &&& 0 <= side <= MAX_SIDE
}

/// The modules of the QR code that `qrcode::QrCode::new` makes of `data`,
/// row by row, `true` for a dark one; `None` where it makes none.
pub uninterp spec fn qr_modules(data: Seq<u8>) -> Option<Seq<bool>>;

/// The QR code that `qrcode::QrCode::new` makes of `data`, as the text that
/// its renderer for characters draws, with or without the quiet zone and
/// with `width` by `height` characters to a module; `None` where it makes
/// none.
pub uninterp spec fn qr_text_art(data: Seq<u8>, quiet_zone: bool, width: u32, height: u32) -> Option<
    Seq<char>,
>;

/// `qrcode::bits::encode_auto` at the medium correction level, then the
/// width of the version of what it gives. This is the first step of
/// `QrCode::new`, which lays the bits out on a canvas of that version; it
/// draws nothing and scores no mask. Admitted is data of at most 4096
/// bytes, for which the bit counts that it adds up stay far within the
/// machine's range.
#[verifier::external_body]
pub(crate) fn qr_side_of(data: &[u8]) -> (r: Option<i16>)
    requires
        data@.len() <= MAX_DATA_BYTES,
    ensures
        match r {
            Some(side) => qr_side(data@) == Some(side as int),
            None => qr_side(data@) is None,
        },
{
    match encode_auto(data, EcLevel::M) {
        Ok(bits) => Some(bits.version().width()),
        Err(_) => None,
    }
}

/// `qrcode::QrCode::new`, then `to_colors`: the code's modules in row
/// order, each as whether it is dark. The code depends on the data alone,
/// and its canvas holds as many modules as the square of its version's
/// width.
///
/// Admitted is data whose code is at most 65 modules wide. `QrCode::new`
/// picks the mask by penalty scores that it sums in 16 bits without a check.
/// At a width `w` of at most 65 the sum stays below 61,800: runs of one
/// colour score at most `w` a line, so `2 * 65 * 65`; blocks score 3 for
/// each of `64 * 64` places; finder-like patterns score 40 each, and of
/// three that score in a line the first and the third begin at least 15
/// apart, so at most 8 score in a line, `2 * 65 * 8 * 40` in all; the balance
/// scores at most 100.
#[verifier::external_body]
pub(crate) fn qr_encode(data: &[u8]) -> (r: Option<Vec<bool>>)
    requires
        fits_voucher(data@),
    ensures
        match r {
            Some(m) => qr_modules(data@) == Some(m@),
            None => qr_modules(data@) is None,
        },
        r matches Some(m) ==> m@.len() == qr_side(data@)->0 * qr_side(data@)->0,
{
    match QrCode::new(data) {
        Ok(code) => Some(code.to_colors().into_iter().map(|c| c.select(true, false)).collect()),
        Err(_) => None,
    }
}

/// `qrcode::QrCode::new`, then its renderer for `char` with the given
/// quiet zone and module dimensions: the code as lines of text. The text
/// depends on the data and these settings alone. Admitted is data whose
/// code is at most 65 modules wide, for which `QrCode::new` sums its
/// penalty scores within 16 bits, as said of [`qr_encode`]; module
/// dimensions are kept to 8 at most, where the renderer's arithmetic stays
/// in range.
#[verifier::external_body]
pub(crate) fn qr_render_text(data: &[u8], quiet_zone: bool, width: u32, height: u32) -> (r: Option<
    String,
>)
    requires
        fits_voucher(data@),
        width <= 8,
        height <= 8,
    ensures
        match r {
            Some(s) => qr_text_art(data@, quiet_zone, width, height) == Some(s@),
            None => qr_text_art(data@, quiet_zone, width, height) is None,
        },
{
    match QrCode::new(data) {
        Ok(code) => Some(
            code.render::<char>().quiet_zone(quiet_zone).module_dimensions(width, height).build(),
        ),
        Err(_) => None,
    }
}

/// The URL that redeems a deposit: the secret, the salt and the contract's
/// address as they are given, as the query of the redemption page.
pub open spec fn spec_redeem_url(secret: Seq<char>, salt: Seq<char>, contract: Seq<char>) -> Seq<
    char,
> {
    "https://somethingcorrosive.github.io/vaporpay/?secret="@ + secret + "&salt="@ + salt
        + "&contract="@ + contract
}

/// The URL that redeems a deposit.
pub fn redeem_url(secret: &str, salt: &str, contract: &str) -> (url: String)
    ensures
        url@ == spec_redeem_url(secret@, salt@, contract@),
{
    let mut url = String::from_str("https://somethingcorrosive.github.io/vaporpay/?secret=");
    url.append(secret);
    url.append("&salt=");
    url.append(salt);
    url.append("&contract=");
    url.append(contract);
    url
}

/// Whether `len` modules fill a square.
pub open spec fn is_square(len: nat) -> bool {
    exists|w: nat| #[trigger] (w * w) == len
}

/// The side of the square that `len` modules fill.
pub open spec fn side_of(len: nat) -> nat {
    choose|w: nat| #[trigger] (w * w) == len
}

/// A square has one side.
pub proof fn lemma_side_unique(len: nat, w: nat)
    requires
        w * w == len,
    ensures
        is_square(len),
        side_of(len) == w,
{
    let v = side_of(len);
    assert(v * v == len);
    assert(v == w) by (nonlinear_arith)
        requires
            v * v == w * w,
            v >= 0,
            w >= 0,
    ;
}

/// A QR code: a square of modules in row order, `true` for a dark one.
#[derive(Debug, Clone, PartialEq, Eq)]
pub struct QrMatrix {
    pub side: usize,
    pub modules: Vec<bool>,
}

impl QrMatrix {
    /// Whether the modules fill the square.
    pub open spec fn wf(&self) -> bool {
        self.side * self.side == self.modules@.len()
    }

    /// The square that `modules` fill, where they fill one.
    pub fn from_modules(modules: Vec<bool>) -> (r: Option<QrMatrix>)
        ensures
            r is Some <==> is_square(modules@.len()),
            r matches Some(m) ==> m.wf() && m.modules == modules && m.side == side_of(
                modules@.len(),
            ),
    {
        let len = modules.len();
        let mut w: usize = 0;
        while w < len
            invariant
                w <= len,
                len == modules@.len(),
                forall|v: nat| v < w ==> #[trigger] (v * v) != len,
            decreases len - w,
        {
            match w.checked_mul(w) {
                Some(sq) => {
                    if sq == len {
                        proof {
                            lemma_side_unique(len as nat, w as nat);
                        }
                        return Some(QrMatrix { side: w, modules });
                    }
                    if sq > len {
                        proof {
                            lemma_no_side(len as nat, w as nat);
                        }
                        return None;
                    }
                },
                None => {
                    proof {
                        lemma_no_side(len as nat, w as nat);
                    }
                    return None;
                },
            }
            w = w + 1;
        }
        // Here w == len, and no smaller side fits: only 0 and 1 are their own squares.
        if len <= 1 {
            proof {
                assert(len * len == len) by (nonlinear_arith)
                    requires
                        len <= 1,
                ;
                lemma_side_unique(len as nat, len as nat);
            }
            Some(QrMatrix { side: len, modules })
        } else {
            proof {
                assert(len * len > len) by (nonlinear_arith)
                    requires
                        len > 1,
                ;
                lemma_no_side(len as nat, len as nat);
            }
            None
        }
    }
}

/// Where no side below `w` fits and the square of `w` is too large, no side
/// fits.
proof fn lemma_no_side(len: nat, w: nat)
    requires
        forall|v: nat| v < w ==> #[trigger] (v * v) != len,
        w * w > len,
    ensures
        !is_square(len),
{
    assert forall|v: nat| #[trigger] (v * v) != len by {
        if v >= w {
            assert(v * v >= w * w) by (nonlinear_arith)
                requires
                    v >= w,
                    w >= 0,
            ;
        }
    }
}

/// An image of one byte per pixel, row by row: 0 is black, 255 white.
#[derive(Debug, Clone, PartialEq, Eq)]
pub struct GrayImage {
    pub width: usize,
    pub height: usize,
    pub pixels: Vec<u8>,
}

/// The pixel at (`x`, `y`) of a code drawn with `scale` pixels to a
/// module: black on a dark module, white on a light one.
pub open spec fn spec_pixel(modules: Seq<bool>, side: nat, scale: nat, x: int, y: int) -> u8 {
    if modules[(y / scale as int) * side + x / scale as int] {
        0u8
    } else {
        255u8
    }
}

/// The pixels of a code drawn with `scale` pixels to a module, row by row.
pub open spec fn spec_pixels(modules: Seq<bool>, side: nat, scale: nat) -> Seq<u8> {
    Seq::new(
        (side * scale) * (side * scale),
        |i: int| spec_pixel(modules, side, scale, i % (side * scale) as int, i / (side * scale) as int),
    )
}

/// The code drawn with `scale` pixels to a module, without a margin.
pub fn draw_modules(matrix: &QrMatrix, scale: usize) -> (image: GrayImage)
    requires
        matrix.wf(),
        (matrix.side * scale) * (matrix.side * scale) <= usize::MAX,
    ensures
        image.width == matrix.side * scale,
        image.height == matrix.side * scale,
        image.pixels@ == spec_pixels(matrix.modules@, matrix.side as nat, scale as nat),
{
    let w = matrix.side;
    let count = matrix.modules.len();
    if scale == 0 {
        assert(w * 0 == 0) by (nonlinear_arith);
        let pixels: Vec<u8> = Vec::new();
        assert(pixels@ =~= spec_pixels(matrix.modules@, w as nat, 0));
        return GrayImage { width: 0, height: 0, pixels };
    }
    assert(w * scale <= (w * scale) * (w * scale)) by (nonlinear_arith)
        requires
            w >= 0,
            scale >= 1,
    ;
    let side: usize = w * scale;
    let mut pixels: Vec<u8> = Vec::new();
    let mut y: usize = 0;
    while y < side
        invariant
            y <= side,
            side == w * scale,
            w == matrix.side,
            scale >= 1,
            matrix.wf(),
            w * w == count,
            side * side <= usize::MAX,
            pixels@.len() == y * side,
            forall|i: int|
                0 <= i < pixels@.len() ==> #[trigger] pixels@[i] == spec_pixel(
                    matrix.modules@,
                    w as nat,
                    scale as nat,
                    i % side as int,
                    i / side as int,
                ),
        decreases side - y,
    {
        let mut x: usize = 0;
        while x < side
            invariant
                x <= side,
                y < side,
                side == w * scale,
                w == matrix.side,
                scale >= 1,
                matrix.wf(),
                w * w == count,
                side * side <= usize::MAX,
                pixels@.len() == y * side + x,
                forall|i: int|
                    0 <= i < pixels@.len() ==> #[trigger] pixels@[i] == spec_pixel(
                        matrix.modules@,
                        w as nat,
                        scale as nat,
                        i % side as int,
                        i / side as int,
                    ),
            decreases side - x,
        {
            let row = y / scale;
            let col = x / scale;
            proof {
                lemma_cell(y as int, x as int, w as int, scale as int);
                lemma_index(y as int, x as int, side as int);
            }
            let dark = matrix.modules[row * w + col];
            let ghost before = pixels@;
            pixels.push(if dark { 0u8 } else { 255u8 });
            x = x + 1;
            proof {
                assert forall|i: int| 0 <= i < pixels@.len() implies #[trigger] pixels@[i]
                    == spec_pixel(
                    matrix.modules@,
                    w as nat,
                    scale as nat,
                    i % side as int,
                    i / side as int,
                ) by {
                    if i < before.len() {
                        assert(pixels@[i] == before[i]);
                    }
                }
            }
        }
        y = y + 1;
        assert(y * side == (y - 1) * side + side) by (nonlinear_arith);
    }
    assert(pixels@ =~= spec_pixels(matrix.modules@, w as nat, scale as nat));
    GrayImage { width: side, height: side, pixels }
}

/// The module under the pixel (`x`, `y`) lies in the square.
proof fn lemma_cell(y: int, x: int, w: int, scale: int)
    requires
        scale >= 1,
        0 <= y < w * scale,
        0 <= x < w * scale,
    ensures
        0 <= y / scale < w,
        0 <= x / scale < w,
        0 <= (y / scale) * w <= (y / scale) * w + x / scale < w * w,
{
    vstd::arithmetic::div_mod::lemma_div_by_multiple_is_strongly_ordered(y, w * scale, w, scale);
    vstd::arithmetic::div_mod::lemma_div_by_multiple_is_strongly_ordered(x, w * scale, w, scale);
    vstd::arithmetic::div_mod::lemma_div_pos_is_pos(y, scale);
    vstd::arithmetic::div_mod::lemma_div_pos_is_pos(x, scale);
    vstd::arithmetic::div_mod::lemma_div_multiples_vanish(w, scale);
    assert(w * scale == scale * w) by (nonlinear_arith);
    let r = y / scale;
    let c = x / scale;
    assert(0 <= r * w <= r * w + c < w * w) by (nonlinear_arith)
        requires
            0 <= r < w,
            0 <= c < w,
    ;
}

/// The pixel (`x`, `y`) is the pixel of index `y * side + x`.
proof fn lemma_index(y: int, x: int, side: int)
    requires
        0 <= x < side,
        0 <= y < side,
    ensures
        0 <= y * side + x < side * side,
        (y * side + x) / side == y,
        (y * side + x) % side == x,
{
    assert(0 <= y * side + x < side * side) by (nonlinear_arith)
        requires
            0 <= x < side,
            0 <= y < side,
    ;
    assert(y * side == side * y) by (nonlinear_arith);
    vstd::arithmetic::div_mod::lemma_fundamental_div_mod_converse(y * side + x, side, y, x);
}

/// The redemption URL's QR code as text for a terminal: with the quiet
/// zone, two characters wide and one high to a module.
pub open spec fn voucher_text(data: Seq<u8>) -> Option<Seq<char>> {
    qr_text_art(data, true, 2, 1)
}

/// A voucher: the redemption URL, its QR code as text for a terminal, and
/// as an image.
#[derive(Debug, Clone, PartialEq, Eq)]
pub struct Voucher {
    pub url: String,
    pub text_art: String,
    pub matrix: QrMatrix,
    pub image: GrayImage,
}

/// The voucher for a deposit: the redemption URL and its QR code, as text
/// and at ten pixels to a module. Fails where the URL is longer than 4096
/// bytes or fits no QR code of at most 65 modules a side, which is looked
/// at before any code is made; and where no code comes back.
pub fn generate_qr(secret: &str, salt: &str, contract: &str) -> (r: Result<Voucher, Error>)
    ensures
        ({
            let url = spec_redeem_url(secret@, salt@, contract@);
            let data = vstd::utf8::encode_utf8(url);
            match (qr_modules(data), voucher_text(data)) {
                _ if !fits_voucher(data) => r matches Err(e) && e@ == ErrorModel::VoucherTooLarge,
                (Some(modules), Some(art)) => r matches Ok(v) && v.url@ == url && v.text_art@ == art
                    && v.matrix.modules@ == modules && v.matrix.side == qr_side(data)->0
                    && v.matrix.wf() && v.image.width == v.matrix.side * MODULE_PIXELS
                    && v.image.height == v.image.width && v.image.pixels@ == spec_pixels(
                    modules,
                    v.matrix.side as nat,
                    MODULE_PIXELS as nat,
                ),
                _ => r matches Err(e) && e@ == ErrorModel::VoucherTooLarge,
            }
        }),
{
    let url = redeem_url(secret, salt, contract);
    if url.as_str().as_bytes().len() > MAX_DATA_BYTES {
        return Err(Error::VoucherTooLarge);
    }
    let side: usize = match qr_side_of(url.as_str().as_bytes()) {
        Some(side) => {
            if side < 0 || side > MAX_SIDE {
                return Err(Error::VoucherTooLarge);
            }
            side as usize
        },
        None => {
            return Err(Error::VoucherTooLarge);
        },
    };
    let modules = match qr_encode(url.as_str().as_bytes()) {
        Some(m) => m,
        None => {
            return Err(Error::VoucherTooLarge);
        },
    };
    let text_art = match qr_render_text(url.as_str().as_bytes(), true, 2, 1) {
        Some(t) => t,
        None => {
            return Err(Error::VoucherTooLarge);
        },
    };
    let matrix = QrMatrix { side, modules };
    assert((side * MODULE_PIXELS) * (side * MODULE_PIXELS) <= usize::MAX) by (nonlinear_arith)
        requires
            side <= 65,
            MODULE_PIXELS == 10,
            usize::MAX >= 0xffff_ffff,
    ;
    let image = draw_modules(&matrix, MODULE_PIXELS);
    Ok(Voucher { url, text_art, matrix, image })
}

} // verus!
