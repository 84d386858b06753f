//! The border augmenter: a black margin round the mosaic, so that a crop has
//! room on every side of the disk.

use crate::raster::{byte_len, lemma_picture_ext, Picture, Pixel, Raster};
use crate::rounding::{lemma_rounded_div_bounded, lemma_rounded_div_is_nearest, rounded_div};
use vstd::prelude::*;

verus! {

/// The border is one part in this many of the picture's width.
pub const BORDER_DIVISOR: u32 = 10;

/// How wide the border of a picture `width` pixels wide is: a tenth of the
/// width, rounded to the nearest pixel.
pub open spec fn border_of(width: nat) -> nat {
    rounded_div(width as int, BORDER_DIVISOR as int) as nat
}

/// The picture with an opaque black border of `border_of(width)` pixels on
/// every side.
pub open spec fn bordered(picture: Picture) -> Picture {
    let border = border_of(picture.width);
    Picture::filled(
        picture.width + 2 * border,
        picture.height + 2 * border,
        Pixel::spec_opaque_black(),
    ).pasted(picture, border as int, border as int)
}

/// The bordered picture of a `width` by `height` picture fits into a raster.
pub open spec fn border_fits(width: nat, height: nat) -> bool {
    &&& width + 2 * border_of(width) <= u32::MAX
    &&& height + 2 * border_of(width) <= u32::MAX
    &&& byte_len(width + 2 * border_of(width), height + 2 * border_of(width)) <= isize::MAX
}

/// How wide the border of a raster `width` pixels wide is.
pub fn border_width(width: u32) -> (border: u32)
    ensures
        border == border_of(width as nat),
        border <= width,
{
    proof {
        lemma_rounded_div_is_nearest(width as int, BORDER_DIVISOR as int);
        lemma_rounded_div_bounded(width as int, BORDER_DIVISOR as int, width as int);
    }
    let doubled: u64 = 2 * (width as u64) + (BORDER_DIVISOR as u64);
    (doubled / (2 * (BORDER_DIVISOR as u64))) as u32
}

/// The mosaic with its border, unless the bordered picture is too large for
/// a raster.
pub fn add_border(mosaic: &Raster) -> (res: Option<Raster>)
    ensures
        res is Some <==> border_fits(mosaic@.width, mosaic@.height),
        res matches Some(framed) ==> {
            &&& framed@ == bordered(mosaic@)
            &&& framed@.width == mosaic@.width + 2 * border_of(mosaic@.width)
            &&& framed@.height == mosaic@.height + 2 * border_of(mosaic@.width)
        },
{
    proof {
        mosaic.lemma_view_wf();
    }
    let border = border_width(mosaic.width());
    let width: u64 = mosaic.width() as u64 + 2 * (border as u64);
    let height: u64 = mosaic.height() as u64 + 2 * (border as u64);
    if width > u32::MAX as u64 || height > u32::MAX as u64 {
        return None;
    }
    match Raster::filled(width as u32, height as u32, Pixel::opaque_black()) {
        Some(canvas) => {
            let mut canvas = canvas;
            canvas.paste(mosaic, border, border);
            Some(canvas)
        },
        None => None,
    }
}

/// The bordered picture is larger than the picture by twice the border in
/// each direction; all of the border is opaque black; and cutting the border
/// off again gives the picture back.
pub proof fn lemma_border(picture: Picture)
    requires
        picture.wf(),
    ensures
        bordered(picture).wf(),
        bordered(picture).width == picture.width + 2 * border_of(picture.width),
        bordered(picture).height == picture.height + 2 * border_of(picture.width),
        forall|x: int, y: int|
            bordered(picture).contains(x, y) && !picture.contains(
                x - border_of(picture.width),
                y - border_of(picture.width),
            ) ==> bordered(picture).at(x, y) == Pixel::spec_opaque_black(),
        forall|x: int, y: int|
            picture.contains(x, y) ==> bordered(picture).at(
                x + border_of(picture.width),
                y + border_of(picture.width),
            ) == picture.at(x, y),
        bordered(picture).cropped(
            border_of(picture.width),
            border_of(picture.width),
            picture.width,
            picture.height,
        ) == picture,
{
    let border = border_of(picture.width);
    let framed = bordered(picture);
    let back = framed.cropped(border, border, picture.width, picture.height);
    lemma_picture_ext(back, picture);
}

} // verus!
