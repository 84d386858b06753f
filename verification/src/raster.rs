//! RGBA rasters: the mathematical picture, and the byte buffer that holds one.

use vstd::prelude::*;

verus! {

/// One RGBA sample, eight bits per channel.
#[derive(Clone, Copy, Debug, PartialEq, Eq, Structural)]
pub struct Pixel {
    pub r: u8,
    pub g: u8,
    pub b: u8,
    pub a: u8,
}

impl Pixel {
    /// Black that hides whatever lies under it.
    pub open spec fn spec_opaque_black() -> Pixel {
        Pixel { r: 0, g: 0, b: 0, a: 255 }
    }

    /// The all-zero sample of a canvas that nothing has been drawn on.
    pub open spec fn spec_clear() -> Pixel {
        Pixel { r: 0, g: 0, b: 0, a: 0 }
    }

    #[verifier::when_used_as_spec(spec_opaque_black)]
    pub fn opaque_black() -> (p: Pixel)
        ensures
            p == Pixel::spec_opaque_black(),
    {
        Pixel { r: 0, g: 0, b: 0, a: 255 }
    }

    #[verifier::when_used_as_spec(spec_clear)]
    pub fn clear() -> (p: Pixel)
        ensures
            p == Pixel::spec_clear(),
    {
        Pixel { r: 0, g: 0, b: 0, a: 0 }
    }
}

/// A picture as mathematics sees it: `height` rows of `width` pixels each,
/// the first row on top, the first pixel of a row on the left.
pub struct Picture {
    pub width: nat,
    pub height: nat,
    pub rows: Seq<Seq<Pixel>>,
}

impl Picture {
    /// Every row is there and has the full width.
    pub open spec fn wf(self) -> bool {
        &&& self.rows.len() == self.height
        &&& forall|y: int| 0 <= y < self.height ==> (#[trigger] self.rows[y]).len() == self.width
    }

    /// `(x, y)` names a pixel of the picture.
    pub open spec fn contains(self, x: int, y: int) -> bool {
        0 <= x < self.width && 0 <= y < self.height
    }

    /// The pixel in column `x` of row `y`.
    pub open spec fn at(self, x: int, y: int) -> Pixel {
        self.rows[y][x]
    }

    /// The picture whose pixel at `(x, y)` is `f(x, y)`.
    pub open spec fn from_fn(width: nat, height: nat, f: spec_fn(int, int) -> Pixel) -> Picture {
        Picture {
            width,
            height,
            rows: Seq::new(height, |y: int| Seq::new(width, |x: int| f(x, y))),
        }
    }

    /// A picture of one colour.
    pub open spec fn filled(width: nat, height: nat, pixel: Pixel) -> Picture {
        Picture::from_fn(width, height, |x: int, y: int| pixel)
    }

    /// This picture with `top` laid over it, the top-left pixel of `top` at
    /// `(x0, y0)`. What of `top` falls outside the picture is lost.
    pub open spec fn pasted(self, top: Picture, x0: int, y0: int) -> Picture {
        Picture::from_fn(
            self.width,
            self.height,
            |x: int, y: int|
                if x0 <= x < x0 + top.width && y0 <= y < y0 + top.height {
                    top.at(x - x0, y - y0)
                } else {
                    self.at(x, y)
                },
        )
    }

    /// The left edge of a cut that was asked to start at column `x0`.
    pub open spec fn clamp_x(self, x0: nat) -> nat {
        if x0 <= self.width {
            x0
        } else {
            self.width
        }
    }

    /// The top edge of a cut that was asked to start at row `y0`.
    pub open spec fn clamp_y(self, y0: nat) -> nat {
        if y0 <= self.height {
            y0
        } else {
            self.height
        }
    }

    /// The width of a cut that was asked to be `width` wide from column `x0`.
    pub open spec fn clamp_width(self, x0: nat, width: nat) -> nat {
        let room = (self.width - self.clamp_x(x0)) as nat;
        if width <= room {
            width
        } else {
            room
        }
    }

    /// The height of a cut that was asked to be `height` high from row `y0`.
    pub open spec fn clamp_height(self, y0: nat, height: nat) -> nat {
        let room = (self.height - self.clamp_y(y0)) as nat;
        if height <= room {
            height
        } else {
            room
        }
    }

    /// The rectangle of this picture that starts at `(x0, y0)` and is `width`
    /// by `height`, cut down to what the picture holds.
    pub open spec fn cropped(self, x0: nat, y0: nat, width: nat, height: nat) -> Picture {
        Picture::from_fn(
            self.clamp_width(x0, width),
            self.clamp_height(y0, height),
            |x: int, y: int| self.at(self.clamp_x(x0) + x, self.clamp_y(y0) + y),
        )
    }
}

/// Two well-formed pictures of one size that agree pixel by pixel are the same picture.
pub proof fn lemma_picture_ext(a: Picture, b: Picture)
    requires
        a.wf(),
        b.wf(),
        a.width == b.width,
        a.height == b.height,
        forall|x: int, y: int| a.contains(x, y) ==> a.at(x, y) == b.at(x, y),
    ensures
        a == b,
{
    assert forall|y: int| 0 <= y < a.height implies a.rows[y] =~= b.rows[y] by {
        assert forall|x: int| 0 <= x < a.width implies a.rows[y][x] == b.rows[y][x] by {
            assert(a.contains(x, y));
            assert(a.at(x, y) == b.at(x, y));
        }
    }
    assert(a.rows =~= b.rows);
}

/// Where pixel `(x, y)` starts in a row-major RGBA buffer `width` pixels wide.
pub open spec fn byte_index(width: nat, x: int, y: int) -> int {
    (y * width + x) * 4
}

/// How many bytes a `width` by `height` RGBA buffer holds.
pub open spec fn byte_len(width: nat, height: nat) -> nat {
    (width * height * 4) as nat
}

/// A buffer of `len` bytes holds a `width` by `height` raster: it has one
/// byte for each channel of each pixel, and is no larger than a buffer can be.
pub open spec fn fits_raster(width: nat, height: nat, len: nat) -> bool {
    len == byte_len(width, height) && len <= isize::MAX
}

/// The pixel that a row-major RGBA buffer holds at `(x, y)`.
pub open spec fn pixel_of_bytes(data: Seq<u8>, width: nat, x: int, y: int) -> Pixel {
    let k = byte_index(width, x, y);
    Pixel { r: data[k], g: data[k + 1], b: data[k + 2], a: data[k + 3] }
}

/// The picture that a row-major RGBA buffer holds.
pub open spec fn picture_of_bytes(width: nat, height: nat, data: Seq<u8>) -> Picture {
    Picture::from_fn(width, height, |x: int, y: int| pixel_of_bytes(data, width, x, y))
}

/// Channel `c` (0 red, 1 green, 2 blue, 3 alpha) of the pixel that a buffer holds at `(x, y)`.
spec fn channel(data: Seq<u8>, width: nat, x: int, y: int, c: int) -> u8 {
    data[byte_index(width, x, y) + c]
}

/// Channel `c` of a pixel.
pub open spec fn channel_of(pixel: Pixel, c: int) -> u8 {
    if c == 0 {
        pixel.r
    } else if c == 1 {
        pixel.g
    } else if c == 2 {
        pixel.b
    } else {
        pixel.a
    }
}

/// The row-major RGBA buffer of a picture.
pub open spec fn bytes_of_picture(picture: Picture) -> Seq<u8> {
    Seq::new(
        byte_len(picture.width, picture.height),
        |k: int|
            channel_of(
                picture.at((k / 4) % (picture.width as int), (k / 4) / (picture.width as int)),
                k % 4,
            ),
    )
}

/// A buffer that holds a picture is the buffer of that picture: pictures and
/// buffers of their size stand for each other.
pub proof fn lemma_bytes_of_picture(width: nat, height: nat, data: Seq<u8>)
    requires
        data.len() == byte_len(width, height),
    ensures
        bytes_of_picture(picture_of_bytes(width, height, data)) == data,
{
    let picture = picture_of_bytes(width, height, data);
    let back = bytes_of_picture(picture);
    assert forall|k: int| 0 <= k < data.len() implies back[k] == data[k] by {
        let p = k / 4;
        let c = k % 4;
        assert(width > 0) by (nonlinear_arith)
            requires
                0 <= k < width * height * 4,
                width >= 0,
                height >= 0,
        ;
        let w = width as int;
        let x = p % w;
        let y = p / w;
        vstd::arithmetic::div_mod::lemma_fundamental_div_mod(p, w);
        vstd::arithmetic::div_mod::lemma_mod_bound(p, w);
        assert(w * y == y * w) by (nonlinear_arith);
        assert(0 <= y < height) by (nonlinear_arith)
            requires
                p == y * w + x,
                0 <= x < w,
                0 <= p < w * height,
                w > 0,
        ;
        assert(byte_index(width, x, y) + c == k);
        assert(picture.at(x, y) == pixel_of_bytes(data, width, x, y));
    }
    assert(back =~= data);
}

/// The four bytes of a pixel inside the picture lie inside the buffer.
proof fn lemma_index_in_range(width: nat, height: nat, x: int, y: int)
    requires
        0 <= x < width,
        0 <= y < height,
    ensures
        0 <= byte_index(width, x, y),
        byte_index(width, x, y) + 4 <= byte_len(width, height),
        0 <= y * width,
        y * width + width <= width * height,
{
    assert(0 <= y * width && (y + 1) * width <= height * width && (y + 1) * width == y * width
        + width && height * width == width * height) by (nonlinear_arith)
        requires
            0 <= y < height,
            0 <= width,
    ;
}

/// A pixel of an earlier row ends before any pixel of a later row starts.
proof fn lemma_rows_apart(width: nat, x1: int, y1: int, x2: int, y2: int)
    requires
        0 <= x1 < width,
        0 <= x2 < width,
        y1 < y2,
    ensures
        byte_index(width, x1, y1) + 4 <= byte_index(width, x2, y2),
{
    assert((y1 + 1) * width <= y2 * width && (y1 + 1) * width == y1 * width + width)
        by (nonlinear_arith)
        requires
            y1 < y2,
            0 <= width,
    ;
}

/// Overwrites `count` bytes of `dst` from `dst_start` on with those of `src` from `src_start` on.
fn copy_bytes(dst: &mut Vec<u8>, dst_start: usize, src: &Vec<u8>, src_start: usize, count: usize)
    requires
        dst_start + count <= old(dst).len(),
        src_start + count <= src.len(),
    ensures
        final(dst)@.len() == old(dst)@.len(),
        forall|k: int|
            0 <= k < old(dst)@.len() ==> #[trigger] final(dst)@[k] == if dst_start <= k < dst_start
                + count {
                src@[src_start + k - dst_start]
            } else {
                old(dst)@[k]
            },
{
    let mut i: usize = 0;
    while i < count
        invariant
            i <= count,
            dst_start + count <= dst.len(),
            src_start + count <= src.len(),
            dst@.len() == old(dst)@.len(),
            forall|k: int|
                0 <= k < dst@.len() ==> #[trigger] dst@[k] == if dst_start <= k < dst_start + i {
                    src@[src_start + k - dst_start]
                } else {
                    old(dst)@[k]
                },
        decreases count - i,
    {
        let value = src[src_start + i];
        dst.set(dst_start + i, value);
        i = i + 1;
    }
}

/// Appends to `dst` the `count` bytes of `src` from `start` on.
fn append_bytes(dst: &mut Vec<u8>, src: &Vec<u8>, start: usize, count: usize)
    requires
        start + count <= src.len(),
    ensures
        final(dst)@ == old(dst)@ + src@.subrange(start as int, start + count),
{
    let mut i: usize = 0;
    while i < count
        invariant
            i <= count,
            start + count <= src.len(),
            dst@ == old(dst)@ + src@.subrange(start as int, start + i),
        decreases count - i,
    {
        dst.push(src[start + i]);
        i = i + 1;
        assert(dst@ =~= old(dst)@ + src@.subrange(start as int, start + i));
    }
    assert(dst@ =~= old(dst)@ + src@.subrange(start as int, start + count));
}

/// An RGBA raster: `width * height` pixels, four bytes each, row by row.
pub struct Raster {
    width: u32,
    height: u32,
    data: Vec<u8>,
}

impl View for Raster {
    type V = Picture;

    closed spec fn view(&self) -> Picture {
        picture_of_bytes(self.width as nat, self.height as nat, self.data@)
    }
}

impl Raster {
    #[verifier::type_invariant]
    spec fn inv(self) -> bool {
        fits_raster(self.width as nat, self.height as nat, self.data@.len())
    }

    /// The picture of a raster is always well formed and no larger than
    /// thirty-two bits allow on either side.
    pub proof fn lemma_view_wf(&self)
        ensures
            self@.wf(),
            self@.width <= u32::MAX,
            self@.height <= u32::MAX,
    {
    }

    /// The size of the raster, and that its buffer is one that can exist.
    pub fn size(&self) -> (size: (u32, u32))
        ensures
            size.0 == self@.width,
            size.1 == self@.height,
            byte_len(self@.width, self@.height) <= isize::MAX,
    {
        proof {
            use_type_invariant(self);
        }
        (self.width, self.height)
    }

    /// The raster without pixels.
    pub fn empty() -> (r: Raster)
        ensures
            r@ == Picture::filled(0, 0, Pixel::spec_clear()),
    {
        let r = Raster { width: 0, height: 0, data: Vec::new() };
        proof {
            lemma_picture_ext(r@, Picture::filled(0, 0, Pixel::spec_clear()));
        }
        r
    }

    /// How many pixels a row has.
    pub fn width(&self) -> (w: u32)
        ensures
            w == self@.width,
    {
        self.width
    }

    /// How many rows the raster has.
    pub fn height(&self) -> (h: u32)
        ensures
            h == self@.height,
    {
        self.height
    }

    /// A raster of one colour, unless its buffer would be larger than any
    /// buffer can be.
    pub fn filled(width: u32, height: u32, pixel: Pixel) -> (r: Option<Raster>)
        ensures
            r is Some <==> byte_len(width as nat, height as nat) <= isize::MAX,
            r matches Some(raster) ==> raster@ == Picture::filled(
                width as nat,
                height as nat,
                pixel,
            ),
    {
        assert(width * height <= 0xffff_ffff * 0xffff_ffff) by (nonlinear_arith)
            requires
                0 <= width <= 0xffff_ffff,
                0 <= height <= 0xffff_ffff,
        ;
        let count: u64 = (width as u64) * (height as u64);
        let limit: u64 = (isize::MAX as u64) / 4;
        if count > limit {
            return None;
        }
        let n: usize = count as usize;
        let mut data: Vec<u8> = Vec::new();
        let mut i: usize = 0;
        while i < n
            invariant
                i <= n,
                4 * n <= isize::MAX,
                data@.len() == 4 * i,
                forall|k: int| 0 <= k < data@.len() ==> #[trigger] data@[k] == channel_of(pixel, k % 4),
            decreases n - i,
        {
            data.push(pixel.r);
            data.push(pixel.g);
            data.push(pixel.b);
            data.push(pixel.a);
            i = i + 1;
        }
        let raster = Raster { width, height, data };
        proof {
            let want = Picture::filled(width as nat, height as nat, pixel);
            assert forall|x: int, y: int| raster@.contains(x, y) implies raster@.at(x, y)
                == want.at(x, y) by {
                lemma_index_in_range(width as nat, height as nat, x, y);
                let k = byte_index(width as nat, x, y);
                assert(raster.data@[k] == channel_of(pixel, k % 4));
                assert(raster.data@[k + 1] == channel_of(pixel, (k + 1) % 4));
                assert(raster.data@[k + 2] == channel_of(pixel, (k + 2) % 4));
                assert(raster.data@[k + 3] == channel_of(pixel, (k + 3) % 4));
            }
            lemma_picture_ext(raster@, want);
        }
        Some(raster)
    }

    /// The all-zero canvas of the given size.
    pub fn blank(width: u32, height: u32) -> (r: Option<Raster>)
        ensures
            r is Some <==> byte_len(width as nat, height as nat) <= isize::MAX,
            r matches Some(raster) ==> raster@ == Picture::filled(
                width as nat,
                height as nat,
                Pixel::spec_clear(),
            ),
    {
        Raster::filled(width, height, Pixel::clear())
    }

    /// The raster that a row-major RGBA buffer holds, if the buffer has
    /// exactly the length of a `width` by `height` raster.
    pub fn from_raw(width: u32, height: u32, data: Vec<u8>) -> (r: Option<Raster>)
        ensures
            r is Some <==> fits_raster(width as nat, height as nat, data@.len()),
            r matches Some(raster) ==> raster@ == picture_of_bytes(
                width as nat,
                height as nat,
                data@,
            ),
    {
        assert(width * height <= 0xffff_ffff * 0xffff_ffff) by (nonlinear_arith)
            requires
                0 <= width <= 0xffff_ffff,
                0 <= height <= 0xffff_ffff,
        ;
        let want: u128 = 4 * ((width as u128) * (height as u128));
        if data.len() as u128 == want && data.len() <= isize::MAX as usize {
            Some(Raster { width, height, data })
        } else {
            None
        }
    }

    /// The buffer of the raster, row by row, four bytes a pixel.
    pub fn into_raw(self) -> (data: Vec<u8>)
        ensures
            fits_raster(self@.width, self@.height, data@.len()),
            self@ == picture_of_bytes(self@.width, self@.height, data@),
            data@ == bytes_of_picture(self@),
    {
        proof {
            use_type_invariant(&self);
            lemma_bytes_of_picture(self.width as nat, self.height as nat, self.data@);
        }
        self.data
    }

    /// The buffer of the raster, row by row, four bytes a pixel.
    pub fn as_bytes(&self) -> (data: &[u8])
        ensures
            fits_raster(self@.width, self@.height, data@.len()),
            self@ == picture_of_bytes(self@.width, self@.height, data@),
            data@ == bytes_of_picture(self@),
    {
        proof {
            use_type_invariant(self);
            lemma_bytes_of_picture(self.width as nat, self.height as nat, self.data@);
        }
        self.data.as_slice()
    }

    /// The pixel at `(x, y)`, if the raster has one there.
    pub fn pixel(&self, x: u32, y: u32) -> (p: Option<Pixel>)
        ensures
            p is Some <==> self@.contains(x as int, y as int),
            p matches Some(pixel) ==> pixel == self@.at(x as int, y as int),
    {
        proof {
            use_type_invariant(self);
        }
        if x < self.width && y < self.height {
            proof {
                lemma_index_in_range(self.width as nat, self.height as nat, x as int, y as int);
            }
            let k: usize = ((y as usize) * (self.width as usize) + (x as usize)) * 4;
            Some(
                Pixel {
                    r: self.data[k],
                    g: self.data[k + 1],
                    b: self.data[k + 2],
                    a: self.data[k + 3],
                },
            )
        } else {
            None
        }
    }

    /// Lays `top` over this raster with its top-left pixel at `(x, y)`.
    /// What of `top` falls outside this raster is left out.
    pub fn paste(&mut self, top: &Raster, x: u32, y: u32)
        ensures
            final(self)@ == old(self)@.pasted(top@, x as int, y as int),
    {
        proof {
            use_type_invariant(&*self);
            use_type_invariant(top);
        }
        let mut taken = Raster::empty();
        core::mem::swap(self, &mut taken);
        let Raster { width, height, data } = taken;
        let mut data = data;
        let ghost before = data@;
        let ghost w = width as nat;
        let ghost tw = top.width as nat;
        let mut cw: u32 = 0;
        let mut ch: u32 = 0;
        if x < width && y < height {
            cw = if top.width <= width - x {
                top.width
            } else {
                width - x
            };
            ch = if top.height <= height - y {
                top.height
            } else {
                height - y
            };
        }
        let mut j: u32 = 0;
        while j < ch
            invariant
                j <= ch,
                cw == if x < width && y < height {
                    if top.width <= width - x {
                        top.width
                    } else {
                        (width - x) as u32
                    }
                } else {
                    0
                },
                ch == if x < width && y < height {
                    if top.height <= height - y {
                        top.height
                    } else {
                        (height - y) as u32
                    }
                } else {
                    0
                },
                w == width,
                tw == top.width,
                fits_raster(w, height as nat, data@.len()),
                before.len() == data.len(),
                top.data.len() == byte_len(tw, top.height as nat),
                forall|px: int, py: int, c: int|
                    0 <= px < width && 0 <= py < height && 0 <= c < 4 ==> #[trigger] channel(
                        data@,
                        w,
                        px,
                        py,
                        c,
                    ) == if x <= px < x + cw && y <= py < y + j {
                        channel(top.data@, tw, px - x, py - y, c)
                    } else {
                        channel(before, w, px, py, c)
                    },
            decreases ch - j,
        {
            if cw > 0 {
                proof {
                    lemma_index_in_range(w, height as nat, x as int, y + j);
                    lemma_index_in_range(w, height as nat, x + cw - 1, y + j);
                    lemma_index_in_range(tw, top.height as nat, 0, j as int);
                    lemma_index_in_range(tw, top.height as nat, cw - 1, j as int);
                }
                let dst_start: usize = ((y as usize + j as usize) * (width as usize) + (
                x as usize)) * 4;
                let src_start: usize = ((j as usize) * (top.width as usize)) * 4;
                let ghost mid = data@;
                copy_bytes(&mut data, dst_start, &top.data, src_start, 4 * (cw as usize));
                proof {
                    assert forall|px: int, py: int, c: int|
                        0 <= px < width && 0 <= py < height && 0 <= c < 4 implies #[trigger] channel(
                        data@,
                        w,
                        px,
                        py,
                        c,
                    ) == if x <= px < x + cw && y <= py < y + j + 1 {
                        channel(top.data@, tw, px - x, py - y, c)
                    } else {
                        channel(before, w, px, py, c)
                    } by {
                        lemma_index_in_range(w, height as nat, px, py);
                        let k = byte_index(w, px, py) + c;
                        assert(channel(mid, w, px, py, c) == mid[k]);
                        if py < y + j {
                            lemma_rows_apart(w, px, py, x as int, y + j);
                        } else if py > y + j {
                            lemma_rows_apart(w, x + cw - 1, y + j, px, py);
                        } else {
                            assert(py * w == (y + j) * w);
                        }
                    }
                }
            }
            j = j + 1;
        }
        let ghost old_view = picture_of_bytes(w, height as nat, before);
        *self = Raster { width, height, data };
        proof {
            let want = old_view.pasted(top@, x as int, y as int);
            assert forall|px: int, py: int| self@.contains(px, py) implies self@.at(px, py)
                == want.at(px, py) by {
                assert(channel(self.data@, w, px, py, 0) == self.data@[byte_index(w, px, py)]);
                assert(channel(self.data@, w, px, py, 1) == self.data@[byte_index(w, px, py) + 1]);
                assert(channel(self.data@, w, px, py, 2) == self.data@[byte_index(w, px, py) + 2]);
                assert(channel(self.data@, w, px, py, 3) == self.data@[byte_index(w, px, py) + 3]);
                if x <= px < x + top.width && y <= py < y + top.height {
                    assert(top@.contains(px - x, py - y));
                }
            }
            lemma_picture_ext(self@, want);
        }
    }

    /// The rectangle of this raster that starts at `(x, y)` and is `width` by
    /// `height`, cut down to what the raster holds.
    pub fn crop(&self, x: u32, y: u32, width: u32, height: u32) -> (r: Raster)
        ensures
            r@ == self@.cropped(x as nat, y as nat, width as nat, height as nat),
    {
        proof {
            use_type_invariant(self);
        }
        let cx: u32 = if x <= self.width {
            x
        } else {
            self.width
        };
        let cy: u32 = if y <= self.height {
            y
        } else {
            self.height
        };
        let cw: u32 = if width <= self.width - cx {
            width
        } else {
            self.width - cx
        };
        let ch: u32 = if height <= self.height - cy {
            height
        } else {
            self.height - cy
        };
        let ghost w = self.width as nat;
        let mut data: Vec<u8> = Vec::new();
        let mut j: u32 = 0;
        assert(byte_index(cw as nat, 0, 0) == 0) by (nonlinear_arith);
        while j < ch
            invariant
                j <= ch,
                cx + cw <= self.width,
                cy + ch <= self.height,
                w == self.width,
                fits_raster(w, self.height as nat, self.data@.len()),
                data@.len() == byte_index(cw as nat, 0, j as int),
                forall|px: int, py: int, c: int|
                    0 <= px < cw && 0 <= py < j && 0 <= c < 4 ==> #[trigger] channel(
                        data@,
                        cw as nat,
                        px,
                        py,
                        c,
                    ) == channel(self.data@, w, cx + px, cy + py, c),
            decreases ch - j,
        {
            let ghost mid = data@;
            if cw > 0 {
                proof {
                    lemma_index_in_range(w, self.height as nat, cx as int, cy + j);
                    lemma_index_in_range(w, self.height as nat, cx + cw - 1, cy + j);
                }
                let start: usize = ((cy as usize + j as usize) * (self.width as usize) + (
                cx as usize)) * 4;
                append_bytes(&mut data, &self.data, start, 4 * (cw as usize));
            }
            proof {
                assert(byte_index(cw as nat, 0, j + 1) == byte_index(cw as nat, 0, j as int) + 4
                    * cw) by (nonlinear_arith);
                assert forall|px: int, py: int, c: int|
                    0 <= px < cw && 0 <= py < j + 1 && 0 <= c < 4 implies #[trigger] channel(
                    data@,
                    cw as nat,
                    px,
                    py,
                    c,
                ) == channel(self.data@, w, cx + px, cy + py, c) by {
                    if py < j {
                        lemma_rows_apart(cw as nat, px, py, 0, j as int);
                        assert(channel(mid, cw as nat, px, py, c) == mid[byte_index(
                            cw as nat,
                            px,
                            py,
                        ) + c]);
                    } else {
                        assert(py * cw == j * cw);
                        assert((cy + py) * w == (cy + j) * w);
                    }
                }
            }
            j = j + 1;
        }
        proof {
            assert(byte_index(cw as nat, 0, ch as int) == byte_len(cw as nat, ch as nat))
                by (nonlinear_arith);
            assert(cw * ch * 4 <= w * self.height * 4) by (nonlinear_arith)
                requires
                    0 <= cw <= w,
                    0 <= ch <= self.height,
            ;
        }
        let r = Raster { width: cw, height: ch, data };
        proof {
            let want = self@.cropped(x as nat, y as nat, width as nat, height as nat);
            assert forall|px: int, py: int| r@.contains(px, py) implies r@.at(px, py) == want.at(
                px,
                py,
            ) by {
                assert(channel(r.data@, cw as nat, px, py, 0) == r.data@[byte_index(
                    cw as nat,
                    px,
                    py,
                )]);
                assert(channel(r.data@, cw as nat, px, py, 1) == r.data@[byte_index(
                    cw as nat,
                    px,
                    py,
                ) + 1]);
                assert(channel(r.data@, cw as nat, px, py, 2) == r.data@[byte_index(
                    cw as nat,
                    px,
                    py,
                ) + 2]);
                assert(channel(r.data@, cw as nat, px, py, 3) == r.data@[byte_index(
                    cw as nat,
                    px,
                    py,
                ) + 3]);
                assert(self@.contains(cx + px, cy + py));
                assert(channel(self.data@, w, cx + px, cy + py, 0) == self.data@[byte_index(
                    w,
                    cx + px,
                    cy + py,
                )]);
            }
            lemma_picture_ext(r@, want);
        }
        r
    }
}

} // verus!
