use immediate_earth::codec::{
    accept_decoded, accept_encoded, read_png, write_png, CodecError, RawImage,
};
use immediate_earth::raster::{Pixel, Raster};
use std::io::Cursor;

fn gradient_bytes(width: u32, height: u32) -> Vec<u8> {
    let mut data = Vec::new();
    for y in 0..height {
        for x in 0..width {
            data.extend_from_slice(&[x as u8, y as u8, 3, (255 - x) as u8]);
        }
    }
    data
}

fn png_by_the_image_crate(width: u32, height: u32) -> Vec<u8> {
    let picture = image::RgbaImage::from_raw(width, height, gradient_bytes(width, height)).unwrap();
    let mut file = Cursor::new(Vec::new());
    picture.write_to(&mut file, image::ImageFormat::Png).unwrap();
    file.into_inner()
}

#[test]
fn image_is_read_from_png_bytes() {
    let raster = read_png(&png_by_the_image_crate(7, 5)).unwrap();
    assert_eq!(raster.size(), (7, 5));
    assert_eq!(raster.pixel(6, 4), Some(Pixel { r: 6, g: 4, b: 3, a: 249 }));
    assert_eq!(raster.into_raw(), gradient_bytes(7, 5));
}

#[test]
fn image_without_alpha_becomes_opaque() {
    let picture = image::RgbImage::from_raw(2, 1, vec![1, 2, 3, 4, 5, 6]).unwrap();
    let mut file = Cursor::new(Vec::new());
    picture.write_to(&mut file, image::ImageFormat::Png).unwrap();
    let raster = read_png(&file.into_inner()).unwrap();
    assert_eq!(raster.into_raw(), vec![1, 2, 3, 255, 4, 5, 6, 255]);
}

#[test]
fn bytes_that_are_no_image_give_the_decoder_message() {
    let res = read_png(b"no picture here");
    assert!(matches!(res, Err(CodecError::NotAnImage { .. })));
    let message = res.err().unwrap().message();
    assert!(message.starts_with("Failed to decode image: "));
    assert!(message.len() > "Failed to decode image: ".len());
    assert!(matches!(read_png(&[]), Err(CodecError::NotAnImage { .. })));
}

#[test]
fn decoder_outcome_becomes_a_raster_or_an_error() {
    let good = Ok(RawImage { width: 2, height: 2, data: gradient_bytes(2, 2) });
    assert_eq!(accept_decoded(good).unwrap().into_raw(), gradient_bytes(2, 2));
    let bad = Err(String::from("bad magic"));
    assert_eq!(
        accept_decoded(bad).err(),
        Some(CodecError::NotAnImage { detail: String::from("bad magic") })
    );
    let long = Ok(RawImage { width: 2, height: 2, data: vec![0; 17] });
    assert_eq!(
        accept_decoded(long).err(),
        Some(CodecError::Inconsistent { width: 2, height: 2, byte_length: 17 })
    );
}

#[test]
fn png_written_by_the_library_is_read_back_unchanged() {
    let raster = Raster::from_raw(9, 4, gradient_bytes(9, 4)).unwrap();
    let file = write_png(&raster).unwrap();
    assert_eq!(&file[..8], &[0x89, b'P', b'N', b'G', 0x0d, 0x0a, 0x1a, 0x0a]);
    assert_ne!(file, gradient_bytes(9, 4));
    let back = read_png(&file).unwrap();
    assert_eq!(back.size(), (9, 4));
    assert_eq!(back.into_raw(), gradient_bytes(9, 4));
}

#[test]
fn png_of_the_same_raster_is_the_same_file() {
    let first = write_png(&Raster::from_raw(9, 4, gradient_bytes(9, 4)).unwrap()).unwrap();
    let second = write_png(&Raster::from_raw(9, 4, gradient_bytes(9, 4)).unwrap()).unwrap();
    assert_eq!(first, second);
    assert_eq!(first, png_by_the_image_crate(9, 4));
}

#[test]
fn raster_without_pixels_has_no_png() {
    let res = write_png(&Raster::empty());
    assert!(matches!(res, Err(CodecError::NotEncodable { .. })));
}

#[test]
fn encoder_outcome_becomes_the_file_or_an_error() {
    assert_eq!(accept_encoded(Ok(vec![1, 2, 3])), Ok(vec![1, 2, 3]));
    assert_eq!(
        accept_encoded(Err(String::from("disk full"))),
        Err(CodecError::NotEncodable { detail: String::from("disk full") })
    );
}

#[test]
fn codec_messages_name_the_stage() {
    assert_eq!(
        CodecError::NotAnImage { detail: String::from("bad magic") }.message(),
        "Failed to decode image: bad magic"
    );
    assert_eq!(
        CodecError::Inconsistent { width: 2, height: 2, byte_length: 17 }.message(),
        "Failed to decode image: the decoder's buffer does not hold an image"
    );
    assert_eq!(
        CodecError::NotEncodable { detail: String::from("zero width") }.message(),
        "Failed to encode image: zero width"
    );
}
