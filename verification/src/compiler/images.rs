use vstd::prelude::*;

verus! {

/// How the samples of a PNG image are laid out.
#[derive(Debug, Clone, Copy, PartialEq, Eq, Structural)]
pub enum PngColor {
    Grayscale,
    Rgb,
    Indexed,
    GrayscaleAlpha,
    Rgba,
}

/// What the header of a PNG image says.
#[derive(Debug, Clone, Copy, PartialEq, Eq, Structural)]
pub struct PngHeader {
    pub color: PngColor,
    pub width: u32,
    pub height: u32,
}

/// Why an image cannot be used as a background or sprite.
#[derive(Debug, Clone, Copy, PartialEq, Eq, Structural)]
pub enum ImageError {
    /// The bytes are not a PNG image.
    NotPng,
    /// The image does not store palette indices.
    NotIndexed,
    /// The image is not of the size asked for.
    WrongDimensions { width: u32, height: u32 },
    /// The header is fine, but the image data cannot be decoded.
    BadFrame,
}

/// The header that the `png` crate reads from `bytes`, if it reads one.
pub uninterp spec fn png_header(bytes: Seq<u8>) -> Option<PngHeader>;

/// The first frame that the `png` crate decodes from `bytes`, with its
/// default settings, if it decodes one.
pub uninterp spec fn png_first_frame(bytes: Seq<u8>) -> Option<Seq<u8>>;

/// Reads the header of a PNG image with `png::Decoder::read_info`: the
/// color type and size that the crate reports, or `None` where it fails.
#[verifier::external_body]
fn read_png_header(bytes: &[u8]) -> (r: Option<PngHeader>)
    ensures
        r == png_header(bytes@),
{
    let reader = match png::Decoder::new(bytes).read_info() {
        Ok(reader) => reader,
        Err(_) => return None,
    };
    let info = reader.info();
    let color = match info.color_type {
        png::ColorType::Grayscale => PngColor::Grayscale,
        png::ColorType::Rgb => PngColor::Rgb,
        png::ColorType::Indexed => PngColor::Indexed,
        png::ColorType::GrayscaleAlpha => PngColor::GrayscaleAlpha,
        png::ColorType::Rgba => PngColor::Rgba,
    };
    Some(PngHeader { color, width: info.width, height: info.height })
}

/// Decodes the first frame of a PNG image with `png::Reader::next_frame`
/// into a buffer of the size the reader asks for, and keeps the bytes the
/// frame filled; `None` where decoding fails. Only called on images whose
/// header reads and is at most 256 by 240, so the buffer stays small.
#[verifier::external_body]
fn read_png_frame(bytes: &[u8]) -> (r: Option<Vec<u8>>)
    requires
        png_header(bytes@) matches Some(h) && h.width <= 256 && h.height <= 240,
    ensures
        match r {
            Some(v) => png_first_frame(bytes@) == Some(v@),
            None => png_first_frame(bytes@) is None,
        },
{
    let mut reader = png::Decoder::new(bytes).read_info().ok()?;
    let mut buf = vec![0; reader.output_buffer_size()];
    let frame = reader.next_frame(&mut buf).ok()?;
    Some(buf[..frame.buffer_size()].to_vec())
}

/// What a header says of an image that should be a `width` by `height`
/// palette-indexed PNG.
pub open spec fn header_check_spec(header: Option<PngHeader>, width: u32, height: u32) -> Result<(), ImageError> {
    match header {
        None => Err(ImageError::NotPng),
        Some(h) => if h.color != PngColor::Indexed {
            Err(ImageError::NotIndexed)
        } else if h.width != width || h.height != height {
            Err(ImageError::WrongDimensions { width, height })
        } else {
            Ok(())
        },
    }
}

/// Checks a decoded header against the size an image should have.
pub fn check_png_header(header: Option<PngHeader>, width: u32, height: u32) -> (r: Result<(), ImageError>)
    ensures
        r == header_check_spec(header, width, height),
{
    match header {
        None => Err(ImageError::NotPng),
        Some(h) => {
            if h.color != PngColor::Indexed {
                Err(ImageError::NotIndexed)
            } else if h.width != width || h.height != height {
                Err(ImageError::WrongDimensions { width, height })
            } else {
                Ok(())
            }
        },
    }
}

/// The pixels of an image of the right kind, given its decoded frame.
pub fn frame_pixels(frame: Option<Vec<u8>>) -> (r: Result<Vec<u8>, ImageError>)
    ensures
        match frame {
            Some(v) => r matches Ok(p) && p@ == v@,
            None => r == Err::<Vec<u8>, ImageError>(ImageError::BadFrame),
        },
{
    match frame {
        Some(v) => Ok(v),
        None => Err(ImageError::BadFrame),
    }
}

/// What encoding `bytes` as a `width` by `height` image gives: the palette
/// indices of its pixels, or why it cannot be used.
pub open spec fn encode_img_spec(bytes: Seq<u8>, width: u32, height: u32) -> Result<Seq<u8>, ImageError> {
    match header_check_spec(png_header(bytes), width, height) {
        Err(e) => Err(e),
        Ok(()) => match png_first_frame(bytes) {
            Some(p) => Ok(p),
            None => Err(ImageError::BadFrame),
        },
    }
}

/// Whether a result holds what `encode_img_spec` gives.
pub open spec fn encoded_as(r: Result<Vec<u8>, ImageError>, expected: Result<Seq<u8>, ImageError>) -> bool {
    match expected {
        Ok(p) => r matches Ok(v) && v@ == p,
        Err(e) => r == Err::<Vec<u8>, ImageError>(e),
    }
}

/// The palette indices of a `width` by `height` palette-indexed PNG image.
fn encode_img(bytes: &[u8], width: u32, height: u32) -> (r: Result<Vec<u8>, ImageError>)
    requires
        width <= 256,
        height <= 240,
    ensures
        encoded_as(r, encode_img_spec(bytes@, width, height)),
{
    let header = read_png_header(bytes);
    match check_png_header(header, width, height) {
        Err(e) => Err(e),
        Ok(()) => frame_pixels(read_png_frame(bytes)),
    }
}

/// The palette indices of a background: a 256 by 240 palette-indexed PNG.
pub fn encode_bg(bytes: &[u8]) -> (r: Result<Vec<u8>, ImageError>)
    ensures
        encoded_as(r, encode_img_spec(bytes@, 256, 240)),
{
    encode_img(bytes, 256, 240)
}

/// The palette indices of a sprite: an 8 by 8 palette-indexed PNG.
pub fn encode_chr(bytes: &[u8]) -> (r: Result<Vec<u8>, ImageError>)
    ensures
        encoded_as(r, encode_img_spec(bytes@, 8, 8)),
{
    encode_img(bytes, 8, 8)
}

} // verus!
