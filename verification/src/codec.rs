//! From PNG files to rasters and back, by way of the `image` crate.

use crate::raster::{
    byte_len,
    bytes_of_picture,
    fits_raster,
    picture_of_bytes,
    Picture,
    Raster,
};
use vstd::prelude::*;

verus! {

/// A decoded image as the decoder hands it over: its size and its RGBA
/// bytes, row by row.
#[derive(Debug, PartialEq, Eq)]
pub struct RawImage {
    pub width: u32,
    pub height: u32,
    pub data: Vec<u8>,
}

/// Why bytes gave no raster, or a raster no bytes.
#[derive(Debug, PartialEq, Eq)]
pub enum CodecError {
    /// The decoder found no image; `detail` is its message.
    NotAnImage { detail: String },
    /// The decoder's buffer does not have the length of an image of the size it names.
    Inconsistent { width: u32, height: u32, byte_length: usize },
    /// The encoder gave up; `detail` is its message.
    NotEncodable { detail: String },
}

/// What the PNG decoder of the `image` crate makes of `bytes`: width, height
/// and the RGBA bytes of the picture, or `None` where it finds no PNG image
/// in them.
pub uninterp spec fn decoded_png(bytes: Seq<u8>) -> Option<(u32, u32, Seq<u8>)>;

/// The PNG file that the `image` crate writes for a `width` by `height`
/// picture with the given RGBA bytes, or `None` where it writes none.
pub uninterp spec fn encoded_png(width: u32, height: u32, data: Seq<u8>) -> Option<Seq<u8>>;

/// Calls `image::load_from_memory_with_format` for the PNG format and turns
/// the result into eight-bit RGBA with `DynamicImage::into_rgba8`.
///
/// Trusted: the outcome depends on the bytes alone. Nothing is claimed of
/// what is decoded, nor of the length of the buffer that comes back.
#[verifier::external_body]
pub(crate) fn decode_png(bytes: &[u8]) -> (res: Result<RawImage, String>)
    ensures
        match res {
            Ok(raw) => decoded_png(bytes@) == Some((raw.width, raw.height, raw.data@)),
            Err(_) => decoded_png(bytes@) is None,
        },
{
    match image::load_from_memory_with_format(bytes, image::ImageFormat::Png) {
        Ok(decoded) => {
            let rgba = decoded.into_rgba8();
            Ok(RawImage { width: rgba.width(), height: rgba.height(), data: rgba.into_raw() })
        },
        Err(error) => Err(error.to_string()),
    }
}

/// Calls `image::write_buffer_with_format` for eight-bit RGBA and the PNG
/// format, writing into memory.
///
/// Trusted: the outcome depends on the size and the bytes alone. The encoder
/// does not take a buffer of another length than that of the image; such a
/// buffer is kept out.
#[verifier::external_body]
fn png_of(width: u32, height: u32, data: &[u8]) -> (res: Result<Vec<u8>, String>)
    requires
        data@.len() == byte_len(width as nat, height as nat),
    ensures
        match res {
            Ok(file) => encoded_png(width, height, data@) == Some(file@),
            Err(_) => encoded_png(width, height, data@) is None,
        },
{
    let mut file = std::io::Cursor::new(Vec::new());
    match image::write_buffer_with_format(
        &mut file,
        data,
        width,
        height,
        image::ExtendedColorType::Rgba8,
        image::ImageFormat::Png,
    ) {
        Ok(()) => Ok(file.into_inner()),
        Err(error) => Err(error.to_string()),
    }
}

/// What the decoder handed over, as mathematics sees it.
pub open spec fn decoder_outcome(decoded: Result<RawImage, String>) -> Option<
    (u32, u32, Seq<u8>),
> {
    match decoded {
        Ok(raw) => Some((raw.width, raw.height, raw.data@)),
        Err(_) => None,
    }
}

/// The picture that the decoder's outcome holds, if it holds one.
pub open spec fn picture_in(decoded: Option<(u32, u32, Seq<u8>)>) -> Option<Picture> {
    match decoded {
        Some((width, height, data)) => if fits_raster(width as nat, height as nat, data.len()) {
            Some(picture_of_bytes(width as nat, height as nat, data))
        } else {
            None
        },
        None => None,
    }
}

/// The raster that the decoder's outcome holds.
///
/// Refused where the decoder found no image, with its message, and where
/// its buffer does not have the length of an image of the size it names.
pub fn accept_decoded(decoded: Result<RawImage, String>) -> (res: Result<Raster, CodecError>)
    ensures
        match res {
            Ok(raster) => picture_in(decoder_outcome(decoded)) == Some(raster@),
            Err(CodecError::NotAnImage { detail }) => decoded == Err::<RawImage, String>(detail),
            Err(CodecError::Inconsistent { width, height, byte_length }) => {
                &&& decoded matches Ok(raw)
                &&& width == raw.width && height == raw.height && byte_length == raw.data@.len()
                &&& !fits_raster(width as nat, height as nat, byte_length as nat)
            },
            Err(CodecError::NotEncodable { .. }) => false,
        },
{
    match decoded {
        Err(detail) => Err(CodecError::NotAnImage { detail }),
        Ok(raw) => {
            let width = raw.width;
            let height = raw.height;
            let byte_length = raw.data.len();
            match Raster::from_raw(width, height, raw.data) {
                Some(raster) => Ok(raster),
                None => Err(CodecError::Inconsistent { width, height, byte_length }),
            }
        },
    }
}

/// The raster that the PNG file `bytes` holds.
pub fn read_png(bytes: &[u8]) -> (res: Result<Raster, CodecError>)
    ensures
        match res {
            Ok(raster) => picture_in(decoded_png(bytes@)) == Some(raster@),
            Err(CodecError::NotAnImage { .. }) => decoded_png(bytes@) is None,
            Err(CodecError::Inconsistent { width, height, byte_length }) => {
                &&& decoded_png(bytes@) matches Some((w, h, data))
                &&& width == w && height == h && byte_length == data.len()
                &&& !fits_raster(width as nat, height as nat, byte_length as nat)
            },
            Err(CodecError::NotEncodable { .. }) => false,
        },
{
    accept_decoded(decode_png(bytes))
}

/// What the encoder's outcome is worth: the file, or the encoder's message.
pub fn accept_encoded(encoded: Result<Vec<u8>, String>) -> (res: Result<Vec<u8>, CodecError>)
    ensures
        match res {
            Ok(file) => encoded == Ok::<Vec<u8>, String>(file),
            Err(CodecError::NotEncodable { detail }) => encoded == Err::<Vec<u8>, String>(detail),
            Err(_) => false,
        },
{
    match encoded {
        Ok(file) => Ok(file),
        Err(detail) => Err(CodecError::NotEncodable { detail }),
    }
}

/// The PNG file of a picture, if the encoder writes one.
pub open spec fn png_file_of(picture: Picture) -> Option<Seq<u8>> {
    encoded_png(picture.width as u32, picture.height as u32, bytes_of_picture(picture))
}

/// The PNG file of a raster.
pub fn write_png(raster: &Raster) -> (res: Result<Vec<u8>, CodecError>)
    ensures
        match res {
            Ok(file) => png_file_of(raster@) == Some(file@),
            Err(CodecError::NotEncodable { .. }) => png_file_of(raster@) is None,
            Err(_) => false,
        },
{
    let (width, height) = raster.size();
    let data = raster.as_bytes();
    accept_encoded(png_of(width, height, data))
}

impl CodecError {
    /// What the user is told.
    pub open spec fn message_text(self) -> Seq<char> {
        match self {
            CodecError::NotAnImage { detail } => "Failed to decode image: "@ + detail@,
            CodecError::Inconsistent { width, height, byte_length } =>
                "Failed to decode image: the decoder's buffer does not hold an image"@,
            CodecError::NotEncodable { detail } => "Failed to encode image: "@ + detail@,
        }
    }

    /// What the user is told.
    pub fn message(&self) -> (message: String)
        ensures
            message@ == self.message_text(),
    {
        match self {
            CodecError::NotAnImage { detail } => {
                let mut message = String::from_str("Failed to decode image: ");
                message.append(detail.as_str());
                message
            },
            CodecError::Inconsistent { width, height, byte_length } => String::from_str(
                "Failed to decode image: the decoder's buffer does not hold an image",
            ),
            CodecError::NotEncodable { detail } => {
                let mut message = String::from_str("Failed to encode image: ");
                message.append(detail.as_str());
                message
            },
        }
    }
}

} // verus!
