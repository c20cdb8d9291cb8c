//! Pixel buffers and their encoding into the raster container of the cache.

use vstd::prelude::*;

verus! {

/// Why a decoded image was refused.
#[derive(Clone, Copy, Debug, PartialEq, Eq, Structural)]
pub enum DecodeError {
    /// The decoder gave up on the input.
    Malformed,
    /// Width or height is not positive.
    EmptyImage,
    /// The buffer does not hold four bytes for each pixel.
    WrongLength,
}

/// Why an image could not be stored.
#[derive(Clone, Copy, Debug, PartialEq, Eq, Structural)]
pub enum EncodeError {
    /// The encoder refused the image.
    Encoder,
    /// The sink failed before every byte was written and flushed.
    Sink,
}

/// Number of bytes of an RGBA image with eight bits per channel.
pub open spec fn rgba_len(width: int, height: int) -> int {
    4 * width * height
}

/// Whether `len` bytes are exactly a `width` by `height` RGBA image.
pub open spec fn fits_rgba(len: int, width: int, height: int) -> bool {
    width > 0 && height > 0 && len == rgba_len(width, height)
}

/// Whether the bits of a row of this width can be counted in a `usize`, as
/// the encoder counts them: four channels of eight bits for each pixel.
pub open spec fn row_fits(width: u32) -> bool {
    32 * width <= usize::MAX
}

/// The error with which a buffer of `len` bytes is refused for the given
/// dimensions, if it is refused.
pub open spec fn shape_error(len: int, width: int, height: int) -> Option<DecodeError> {
    if width <= 0 || height <= 0 {
        Some(DecodeError::EmptyImage)
    } else if len != rgba_len(width, height) {
        Some(DecodeError::WrongLength)
    } else {
        None
    }
}

/// Number of bytes that a decoder's output of the given dimensions occupies,
/// or `None` where the dimensions are not positive or the size does not fit
/// in memory.
pub fn decoded_len(width: i32, height: i32) -> (len: Option<usize>)
    ensures
        len matches Some(n) ==> width > 0 && height > 0 && n == rgba_len(width as int, height as int),
        len is None <==> width <= 0 || height <= 0 || rgba_len(width as int, height as int)
            > usize::MAX,
{
    if width <= 0 || height <= 0 {
        return None;
    }
    let w: u64 = width as u64;
    let h: u64 = height as u64;
    assert(w * h <= 0x7fff_ffff * 0x7fff_ffff) by (nonlinear_arith)
        requires
            0 < w <= 0x7fff_ffff,
            0 < h <= 0x7fff_ffff,
    ;
    let area: u64 = w * h;
    let total: u64 = 4 * area;
    assert(total == rgba_len(width as int, height as int)) by (nonlinear_arith)
        requires
            total == 4 * area,
            area == w * h,
            w == width,
            h == height,
    ;
    if total > usize::MAX as u64 {
        None
    } else {
        Some(total as usize)
    }
}

/// A decoded image: RGBA bytes, row by row, with its dimensions.
pub struct PixelBuffer {
    pixels: Vec<u8>,
    width: u32,
    height: u32,
}

impl PixelBuffer {
    /// Every buffer holds exactly four bytes for each of its pixels.
    #[verifier::type_invariant]
    pub closed spec fn wf(self) -> bool {
        fits_rgba(self.pixels@.len() as int, self.width as int, self.height as int)
    }

    /// The bytes, four for each pixel, rows from the top.
    pub closed spec fn pixels(self) -> Seq<u8> {
        self.pixels@
    }

    /// Width in pixels.
    pub closed spec fn width(self) -> u32 {
        self.width
    }

    /// Height in pixels.
    pub closed spec fn height(self) -> u32 {
        self.height
    }

    /// Every buffer has pixels, and four bytes for each of them.
    pub proof fn lemma_shape(self)
        requires
            self.wf(),
        ensures
            fits_rgba(self.pixels().len() as int, self.width() as int, self.height() as int),
    {
    }

    /// Takes a decoder's output. The buffer is accepted exactly when both
    /// dimensions are positive and it holds four bytes for each pixel.
    pub fn new(pixels: Vec<u8>, width: u32, height: u32) -> (res: Result<PixelBuffer, DecodeError>)
        ensures
            match res {
                Ok(buffer) => shape_error(pixels@.len() as int, width as int, height as int)
                    is None && buffer.wf() && buffer.pixels() == pixels@ && buffer.width() == width
                    && buffer.height() == height,
                Err(e) => shape_error(pixels@.len() as int, width as int, height as int) == Some(
                    e,
                ),
            },
    {
        if width == 0 || height == 0 {
            return Err(DecodeError::EmptyImage);
        }
        let w: u64 = width as u64;
        let h: u64 = height as u64;
        assert(w * h <= 0xffff_ffff * 0xffff_ffff) by (nonlinear_arith)
            requires
                w <= 0xffff_ffff,
                h <= 0xffff_ffff,
        ;
        let area: u64 = w * h;
        assert(4 * area == rgba_len(width as int, height as int)) by (nonlinear_arith)
            requires
                area == w * h,
                w == width,
                h == height,
        ;
        let len: usize = pixels.len();
        if area > 0x3fff_ffff_ffff_ffff {
            return Err(DecodeError::WrongLength);
        }
        if len as u64 != 4 * area {
            return Err(DecodeError::WrongLength);
        }
        Ok(PixelBuffer { pixels, width, height })
    }

    /// The bytes of the image.
    pub fn as_bytes(&self) -> (bytes: &Vec<u8>)
        ensures
            bytes@ == self.pixels(),
    {
        &self.pixels
    }

    /// Width and height in pixels.
    pub fn dimensions(&self) -> (dims: (u32, u32))
        ensures
            dims.0 == self.width(),
            dims.1 == self.height(),
            dims.0 > 0,
            dims.1 > 0,
    {
        proof {
            use_type_invariant(self);
        }
        (self.width, self.height)
    }

    /// Encodes the image as a raster container.
    ///
    /// Every image whose rows the encoder can count is encoded, and the bytes
    /// are the container of exactly this image; any other is refused.
    pub fn encode(&self) -> (res: Result<Vec<u8>, EncodeError>)
        ensures
            match res {
                Ok(bytes) => row_fits(self.width()) && bytes@ == png_encoding(
                    self.pixels(),
                    self.width(),
                    self.height(),
                ),
                Err(e) => !row_fits(self.width()) && e == EncodeError::Encoder,
            },
    {
        proof {
            use_type_invariant(self);
        }
        if self.width as u64 > usize::MAX as u64 / 32 {
            return Err(EncodeError::Encoder);
        }
        let written = png_encode(&self.pixels, self.width, self.height);
        container_or_error(written)
    }
}

/// The bytes of the raster container that holds the given RGBA image.
pub uninterp spec fn png_encoding(pixels: Seq<u8>, width: u32, height: u32) -> Seq<u8>;

/// The error of `std::io`, as the encoder returns it. Nothing is known of
/// what it holds.
#[verifier::external_type_specification]
#[verifier::external_body]
pub struct ExIoError(std::io::Error);

/// Calls `image::png::PNGEncoder::encode` on an in-memory sink, with eight-bit
/// RGBA as the colour type. The encoder fails only on a colour type it does
/// not know, on an image without pixels, on a buffer of another length than
/// the image has, and where the sink fails; it counts the bits of a row in a
/// `usize`. `requires` leaves out what it refuses and what it cannot count,
/// and the sink is a vector, so the call succeeds. The sink then holds the
/// container of the image, which depends on the bytes and the dimensions
/// alone.
#[verifier::external_body]
fn png_encode(pixels: &Vec<u8>, width: u32, height: u32) -> (res: Result<Vec<u8>, std::io::Error>)
    requires
        fits_rgba(pixels@.len() as int, width as int, height as int),
        row_fits(width),
    ensures
        res is Ok,
        res matches Ok(bytes) ==> bytes@ == png_encoding(pixels@, width, height),
{
    let mut sink: Vec<u8> = Vec::new();
    let color = image::ColorType::RGBA(8);
    match image::png::PNGEncoder::new(&mut sink).encode(pixels, width, height, color) {
        Ok(()) => Ok(sink),
        Err(e) => Err(e),
    }
}

/// Turns what the encoder returned into the library's result: the container
/// where it succeeded, `EncodeError::Encoder` where it did not.
pub fn container_or_error(written: Result<Vec<u8>, std::io::Error>) -> (res: Result<
    Vec<u8>,
    EncodeError,
>)
    ensures
        match written {
            Ok(bytes) => res == Ok::<Vec<u8>, EncodeError>(bytes),
            Err(_) => res == Err::<Vec<u8>, EncodeError>(EncodeError::Encoder),
        },
{
    match written {
        Ok(bytes) => Ok(bytes),
        Err(_) => Err(EncodeError::Encoder),
    }
}

} // verus!
