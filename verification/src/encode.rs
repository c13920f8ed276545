//! Encoding of the bokeh pass's output as a PNG data URL for the preview.
use vstd::prelude::*;
use crate::error::DepthOfFieldError;
use crate::half_float::{rgba8_from_rgba16f, rgba16f_to_rgba8};

verus! {

#[verifier::external_type_specification]
#[verifier::external_body]
pub struct ExImageError(image::ImageError);

/// The PNG file that `image::write_buffer_with_format` writes for `pixels`
/// (Rgba8, `width` x `height`) when both sides are positive.
pub uninterp spec fn png_rgba8(width: u32, height: u32, pixels: Seq<u8>) -> Seq<u8>;

/// The value of four big-endian bytes.
pub open spec fn be_u32_value(b: Seq<u8>) -> int {
    0x100_0000 * b[0] + 0x1_0000 * b[1] + 0x100 * b[2] + b[3]
}

/// The width and height that a PNG file's header records: the 8-byte
/// signature is followed by the IHDR chunk (4-byte length, 4-byte type), whose
/// data starts with the width and then the height, both big-endian.
pub open spec fn png_header_size(png: Seq<u8>) -> (int, int) {
    (be_u32_value(png.subrange(16, 20)), be_u32_value(png.subrange(20, 24)))
}

/// Calls `image::write_buffer_with_format` with the PNG format and the Rgba8
/// color type, writing into memory. Claimed: the bytes written are a function
/// of the arguments alone; the png encoder fails exactly when a side is zero
/// (its only check that an Rgba8 buffer of the right length can fail, and
/// writing to memory does not fail); a `Vec` never holds more than
/// `isize::MAX` bytes; the png encoder writes the signature and then the IHDR
/// chunk first, so the file's header records `width` and `height`
/// (png `encoder.rs`, `encode_header`). The encoder asserts that the buffer holds exactly
/// `4 * width * height` bytes. The error's content is not claimed.
#[verifier::external_body]
fn write_png_rgba8(pixels: &[u8], width: u32, height: u32) -> (r: Result<Vec<u8>, image::ImageError>)
    requires
        pixels@.len() == 4 * width * height,
    ensures
        r is Ok <==> (width > 0 && height > 0),
        r matches Ok(png) ==> png@ == png_rgba8(width, height, pixels@) && png@.len() <= isize::MAX,
        r matches Ok(png) ==> png@.len() >= 24 && png_header_size(png@) == (width as int, height as int),
{
    let mut png: Vec<u8> = Vec::new();
    match image::write_buffer_with_format(
        &mut std::io::Cursor::new(&mut png),
        pixels,
        width,
        height,
        image::ExtendedColorType::Rgba8,
        image::ImageFormat::Png,
    ) {
        Ok(()) => Ok(png),
        Err(e) => Err(e),
    }
}

/// Calls the `Display` impl of `image::ImageError`; nothing is claimed of the text.
#[verifier::external_body]
fn image_error_text(e: &image::ImageError) -> String {
    format!("{}", e)
}

/// The character of the standard base64 alphabet (RFC 4648) for the 6-bit value `v`.
pub open spec fn base64_char(v: int) -> char {
    if v < 26 {
        (65 + v) as char
    } else if v < 52 {
        (71 + v) as char
    } else if v < 62 {
        (v - 4) as char
    } else if v == 62 {
        '+'
    } else {
        '/'
    }
}

/// Length of the padded base64 encoding of `n` bytes.
pub open spec fn base64_padded_len(n: int) -> int {
    4 * ((n + 2) / 3)
}

/// Padded standard base64 of `bytes` (RFC 4648): each group of three bytes
/// gives four characters of six bits each, high bits first; a last group of
/// one or two bytes is completed with zero bits and padded with `=`.
pub open spec fn base64_standard(bytes: Seq<u8>) -> Seq<char> {
    Seq::new(
        base64_padded_len(bytes.len() as int) as nat,
        |i: int|
            {
                let g = 3 * (i / 4);
                let b0 = bytes[g] as int;
                let b1 = if g + 1 < bytes.len() { bytes[g + 1] as int } else { 0 };
                let b2 = if g + 2 < bytes.len() { bytes[g + 2] as int } else { 0 };
                if i % 4 == 0 {
                    base64_char(b0 / 4)
                } else if i % 4 == 1 {
                    base64_char((b0 % 4) * 16 + b1 / 16)
                } else if i % 4 == 2 {
                    if g + 1 < bytes.len() {
                        base64_char((b1 % 16) * 4 + b2 / 64)
                    } else {
                        '='
                    }
                } else {
                    if g + 2 < bytes.len() {
                        base64_char(b2 % 64)
                    } else {
                        '='
                    }
                }
            },
    )
}

/// The 6-bit value of a character of the standard base64 alphabet.
pub open spec fn base64_value(c: char) -> int {
    let x = c as int;
    if 65 <= x <= 90 {
        x - 65
    } else if 97 <= x <= 122 {
        x - 71
    } else if 48 <= x <= 57 {
        x + 4
    } else if c == '+' {
        62
    } else {
        63
    }
}

proof fn lemma_base64_char_value(v: int)
    requires
        0 <= v < 64,
    ensures
        base64_value(base64_char(v)) == v,
        base64_char(v) != '=',
{
}

/// The encoding can be decoded: every group of four characters gives back
/// its (up to) three bytes, and a short last group is padded with `=`.
pub proof fn lemma_base64_decodes(bytes: Seq<u8>)
    ensures
        base64_standard(bytes).len() == 4 * ((bytes.len() + 2) / 3),
        forall|g: int| 0 <= g && 3 * g < bytes.len() ==> {
            let t = #[trigger] base64_standard(bytes).subrange(4 * g, 4 * g + 4);
            &&& t[0] != '=' && t[1] != '='
            &&& bytes[3 * g] == base64_value(t[0]) * 4 + base64_value(t[1]) / 16
            &&& (3 * g + 1 < bytes.len() ==> t[2] != '='
                && bytes[3 * g + 1] == (base64_value(t[1]) % 16) * 16 + base64_value(t[2]) / 4)
            &&& (3 * g + 1 >= bytes.len() ==> t[2] == '=' && t[3] == '=')
            &&& (3 * g + 2 < bytes.len() ==> t[3] != '='
                && bytes[3 * g + 2] == (base64_value(t[2]) % 4) * 64 + base64_value(t[3]))
            &&& (3 * g + 2 == bytes.len() ==> t[3] == '=')
        },
{
    let e = base64_standard(bytes);
    assert forall|g: int| 0 <= g && 3 * g < bytes.len() implies {
        let t = #[trigger] base64_standard(bytes).subrange(4 * g, 4 * g + 4);
        &&& t[0] != '=' && t[1] != '='
        &&& bytes[3 * g] == base64_value(t[0]) * 4 + base64_value(t[1]) / 16
        &&& (3 * g + 1 < bytes.len() ==> t[2] != '='
            && bytes[3 * g + 1] == (base64_value(t[1]) % 16) * 16 + base64_value(t[2]) / 4)
        &&& (3 * g + 1 >= bytes.len() ==> t[2] == '=' && t[3] == '=')
        &&& (3 * g + 2 < bytes.len() ==> t[3] != '='
            && bytes[3 * g + 2] == (base64_value(t[2]) % 4) * 64 + base64_value(t[3]))
        &&& (3 * g + 2 == bytes.len() ==> t[3] == '=')
    } by {
        let t = e.subrange(4 * g, 4 * g + 4);
        assert(4 * g + 4 <= e.len());
        let b0 = bytes[3 * g] as int;
        let b1 = if 3 * g + 1 < bytes.len() { bytes[3 * g + 1] as int } else { 0 };
        let b2 = if 3 * g + 2 < bytes.len() { bytes[3 * g + 2] as int } else { 0 };
        assert((4 * g) / 4 == g && (4 * g + 1) / 4 == g && (4 * g + 2) / 4 == g && (4 * g + 3) / 4 == g);
        assert((4 * g) % 4 == 0 && (4 * g + 1) % 4 == 1 && (4 * g + 2) % 4 == 2 && (4 * g + 3) % 4 == 3);
        assert(t[0] == e[4 * g] && t[1] == e[4 * g + 1] && t[2] == e[4 * g + 2] && t[3] == e[4 * g + 3]);
        lemma_base64_char_value(b0 / 4);
        lemma_base64_char_value((b0 % 4) * 16 + b1 / 16);
        lemma_base64_char_value((b1 % 16) * 4 + b2 / 64);
        lemma_base64_char_value(b2 % 64);
    }
}

/// Calls `base64::Engine::encode` with `base64::engine::general_purpose::STANDARD`.
/// Claimed: the text is the padded standard base64 encoding of exactly `bytes`,
/// as RFC 4648 defines it. The engine panics where the encoded length does
/// not fit in `usize`.
#[verifier::external_body]
fn base64_encode(bytes: &[u8]) -> (text: String)
    requires
        base64_padded_len(bytes@.len() as int) <= usize::MAX,
    ensures
        text@ == base64_standard(bytes@),
{
    base64::Engine::encode(&base64::engine::general_purpose::STANDARD, bytes)
}

/// The base64 PNG of `width` x `height` Rgba16Float readback data, or `None`
/// where the conversion fails.
pub open spec fn preview_png_base64(data: Seq<u8>, width: u32, height: u32) -> Option<Seq<char>> {
    let rgba8 = rgba8_from_rgba16f(data);
    let needed = 4 * width * height;
    if rgba8.len() < needed || width == 0 || height == 0 {
        None
    } else {
        Some(base64_standard(png_rgba8(width, height, rgba8.take(needed))))
    }
}

/// `e` is the error that the conversion of `data` stops at: too few pixels
/// first, then the encoder's refusal of an empty image.
pub open spec fn f16_to_png_base64_error(data: Seq<u8>, width: u32, height: u32, e: DepthOfFieldError) -> bool {
    if rgba8_from_rgba16f(data).len() < 4 * width * height {
        e == DepthOfFieldError::ImageBufferTooSmall
    } else {
        e is PngEncode
    }
}

/// Converts `width` x `height` Rgba16Float data to Rgba8, encodes it as PNG
/// and the PNG as standard base64. Pixels beyond `width * height` are not encoded.
pub fn f16_to_png_base64(data: &[u8], width: u32, height: u32) -> (r: Result<String, DepthOfFieldError>)
    requires
        data@.len() % 2 == 0,
        width * height <= u32::MAX,
        4 * width * height <= usize::MAX,
    ensures
        match preview_png_base64(data@, width, height) {
            Some(text) => r matches Ok(t) && t@ == text,
            None => r matches Err(e) && f16_to_png_base64_error(data@, width, height, e),
        },
        r matches Ok(t) ==> t@ == base64_standard(
            png_rgba8(width, height, rgba8_from_rgba16f(data@).take(4 * width * height)),
        ),
        r matches Ok(t) ==> exists|png: Seq<u8>| #[trigger] base64_standard(png) == t@ && png.len() >= 24
            && png_header_size(png) == (width as int, height as int),
{
    let mut rgba8 = rgba16f_to_rgba8(data);
    assert(4 * width * height == (width * height) * 4) by (nonlinear_arith);
    let needed: usize = (width * height) as usize * 4;
    if rgba8.len() < needed {
        return Err(DepthOfFieldError::ImageBufferTooSmall);
    }
    rgba8.truncate(needed);
    match write_png_rgba8(rgba8.as_slice(), width, height) {
        Ok(png) => {
            assert(base64_padded_len(png@.len() as int) <= usize::MAX);
            let text = base64_encode(png.as_slice());
            assert(base64_standard(png@) == text@);
            Ok(text)
        },
        Err(e) => Err(DepthOfFieldError::PngEncode(image_error_text(&e))),
    }
}

/// The start of every preview URL: a base64 PNG data URL.
pub open spec fn data_url_prefix() -> Seq<char> {
    "data:image/png;base64,"@
}

/// Result of applying depth-of-field blur.
pub struct DepthOfFieldResult {
    /// Base64-encoded PNG image data (with "data:image/png;base64," prefix).
    pub preview_url: String,
    pub width: u32,
    pub height: u32,
}

impl DepthOfFieldResult {
    /// The result for a PNG already encoded in base64.
    pub fn from_png_base64(png_base64: &str, width: u32, height: u32) -> (r: DepthOfFieldResult)
        ensures
            r.preview_url@ == data_url_prefix() + png_base64@,
            r.width == width,
            r.height == height,
    {
        let mut preview_url = String::from_str("data:image/png;base64,");
        preview_url.append(png_base64);
        DepthOfFieldResult { preview_url, width, height }
    }
}

/// Encodes the bokeh pass's `width` x `height` Rgba16Float output as the
/// effect's result: a PNG data URL and the image's size.
pub fn encode_result(readback: &[u8], width: u32, height: u32) -> (r: Result<DepthOfFieldResult, DepthOfFieldError>)
    requires
        readback@.len() % 2 == 0,
        width * height <= u32::MAX,
        4 * width * height <= usize::MAX,
    ensures
        match preview_png_base64(readback@, width, height) {
            Some(text) => r matches Ok(res) && res.preview_url@ == data_url_prefix() + text
                && res.width == width && res.height == height,
            None => r matches Err(e) && f16_to_png_base64_error(readback@, width, height, e),
        },
        r matches Ok(res) ==> exists|png: Seq<u8>| res.preview_url@ == data_url_prefix() + #[trigger] base64_standard(png)
            && png.len() >= 24 && png_header_size(png) == (width as int, height as int),
{
    match f16_to_png_base64(readback, width, height) {
        Ok(text) => {
            let res = DepthOfFieldResult::from_png_base64(text.as_str(), width, height);
            proof {
                let png = choose|png: Seq<u8>| #[trigger] base64_standard(png) == text@ && png.len() >= 24
                    && png_header_size(png) == (width as int, height as int);
                assert(res.preview_url@ == data_url_prefix() + base64_standard(png));
            }
            Ok(res)
        },
        Err(e) => Err(e),
    }
}

} // verus!
