//! Pictures as rows of red, green and blue bytes: what the `image` crate
//! does with them (decoding, resizing, writing as JPEG), how they are laid
//! out for a model, and how detections are drawn on them.

use crate::geometry::{XYXYc, XYXY};
use vstd::prelude::*;

verus! {

/// A picture of `width` by `height` pixels. `data` holds the pixels row by
/// row, three bytes each: red, green, blue.
#[derive(Clone, Debug, PartialEq, Eq)]
pub struct Picture {
    pub width: u32,
    pub height: u32,
    pub data: Vec<u8>,
}

/// What decoding the bytes of an encoded image gives: width, height and
/// the pixels, or nothing where the bytes are no image that can be read.
pub uninterp spec fn decoded_rgb8(bytes: Seq<u8>) -> Option<(u32, u32, Seq<u8>)>;

/// The pixels of a picture of `width` by `height` after resizing it to
/// `new_width` by `new_height` with the nearest-neighbour filter.
pub uninterp spec fn resized_rgb8(
    data: Seq<u8>,
    width: u32,
    height: u32,
    new_width: u32,
    new_height: u32,
) -> Seq<u8>;

/// The JPEG file for the pixels of a picture of `width` by `height`, or
/// nothing where the picture cannot be written as JPEG.
pub uninterp spec fn jpeg_rgb8(data: Seq<u8>, width: u32, height: u32) -> Option<Seq<u8>>;

/// A picture of `width` by `height` can be resized to `new_width` by
/// `new_height`: its sides are below 2^23, so that the positions between
/// its pixels are exact in single precision, and the buffers needed can be
/// allocated.
pub open spec fn resize_fits(width: u32, height: u32, new_width: u32, new_height: u32) -> bool {
    &&& width < 0x80_0000
    &&& height < 0x80_0000
    &&& 16 * (width * new_height) <= isize::MAX
    &&& 16 * (new_width * new_height) <= isize::MAX
}

/// The three colour planes of the pixels `data`, one after the other: all
/// red values, then all green values, then all blue values.
pub open spec fn planes(data: Seq<u8>) -> Seq<u8> {
    let n = data.len() as int / 3;
    Seq::new(
        (3 * n) as nat,
        |i: int|
            if i < n {
                data[3 * i]
            } else if i < 2 * n {
                data[3 * (i - n) + 1]
            } else {
                data[3 * (i - 2 * n) + 2]
            },
    )
}

/// `image::load_from_memory` followed by `DynamicImage::into_rgb8`: guesses
/// the format of the encoded image `bytes`, decodes it and converts it to
/// eight-bit RGB. The buffer that comes back holds at least the pixels of
/// the decoded picture.
#[verifier::external_body]
fn load_rgb8(bytes: &[u8]) -> (loaded: Option<(u32, u32, Vec<u8>)>)
    ensures
        loaded matches Some((width, height, data)) ==> decoded_rgb8(bytes@) == Some(
            (width, height, data@),
        ) && data@.len() >= 3 * (width * height),
        loaded is None ==> decoded_rgb8(bytes@) is None,
{
    match image::load_from_memory(bytes) {
        Ok(image) => {
            let rgb = image.into_rgb8();
            Some((rgb.width(), rgb.height(), rgb.into_raw()))
        },
        Err(_) => None,
    }
}

/// `image::imageops::resize` with `FilterType::Nearest` on an RGB picture.
/// The result has exactly the pixels of the new size, and is a copy of the
/// picture where the size does not change. The call is kept to pictures
/// for which its arithmetic in single precision is exact and its buffers
/// can be allocated; beyond them it may panic.
#[verifier::external_body]
fn resize_rgb8(picture: &Picture, new_width: u32, new_height: u32) -> (data: Vec<u8>)
    requires
        picture.valid(),
        resize_fits(picture.width, picture.height, new_width, new_height),
    ensures
        data@ == resized_rgb8(picture.data@, picture.width, picture.height, new_width, new_height),
        data@.len() == 3 * (new_width * new_height),
        new_width == picture.width && new_height == picture.height ==> data@ == picture.data@,
{
    let source = image::RgbImage::from_raw(picture.width, picture.height, picture.data.clone());
    let filter = image::imageops::FilterType::Nearest;
    image::imageops::resize(&source.unwrap(), new_width, new_height, filter).into_raw()
}

/// `JpegEncoder::new(..).encode(..)` of the `image` crate, with its default
/// quality, on an RGB picture. The encoder refuses a picture without
/// extent and one with a side above 65535, and no other.
#[verifier::external_body]
fn encode_jpeg(picture: &Picture) -> (encoded: Option<Vec<u8>>)
    requires
        picture.valid(),
    ensures
        encoded matches Some(bytes) ==> jpeg_rgb8(picture.data@, picture.width, picture.height)
            == Some(bytes@),
        encoded is None ==> jpeg_rgb8(picture.data@, picture.width, picture.height) is None,
        encoded is Some <==> (1 <= picture.width && picture.width <= 0xffff && 1 <= picture.height
            && picture.height <= 0xffff),
{
    let mut bytes = Vec::new();
    let colour = image::ExtendedColorType::Rgb8;
    let done = image::codecs::jpeg::JpegEncoder::new(&mut bytes).encode(
        &picture.data,
        picture.width,
        picture.height,
        colour,
    );
    match done {
        Ok(()) => Some(bytes),
        Err(_) => None,
    }
}

/// The point `(x, y)` lies on the outline of the box.
pub open spec fn on_outline(outline: XYXY, x: int, y: int) -> bool {
    &&& outline.x1 <= x <= outline.x2
    &&& outline.y1 <= y <= outline.y2
    &&& x == outline.x1 || x == outline.x2 || y == outline.y1 || y == outline.y2
}

/// The point `(x, y)` lies on the outline of one of the boxes.
pub open spec fn outlined(boxes: Seq<XYXYc>, x: int, y: int) -> bool {
    exists|k: int| 0 <= k < boxes.len() && on_outline((#[trigger] boxes[k]).xyxy, x, y)
}

/// The pixels `data` of a picture `width` wide with the outlines of the
/// boxes drawn in the colour `colour`: a pixel on an outline has that
/// colour, every other pixel is as it was.
pub open spec fn annotated(
    data: Seq<u8>,
    width: int,
    boxes: Seq<XYXYc>,
    colour: (u8, u8, u8),
) -> Seq<u8> {
    Seq::new(
        data.len(),
        |i: int|
            if outlined(boxes, (i / 3) % width, (i / 3) / width) {
                if i % 3 == 0 {
                    colour.0
                } else if i % 3 == 1 {
                    colour.1
                } else {
                    colour.2
                }
            } else {
                data[i]
            },
    )
}

/// The pixel after column `x` of row `y` is the next of the row, or the
/// first of the next row.
proof fn lemma_next_pixel(pixel: int, width: int)
    requires
        pixel >= 0,
        width > 0,
    ensures
        (pixel + 1) % width == (if pixel % width + 1 == width {
            0
        } else {
            pixel % width + 1
        }),
        (pixel + 1) / width == (if pixel % width + 1 == width {
            pixel / width + 1
        } else {
            pixel / width
        }),
        0 <= pixel % width < width,
        0 <= pixel / width <= pixel,
{
    let x = pixel % width;
    let y = pixel / width;
    vstd::arithmetic::div_mod::lemma_fundamental_div_mod(pixel, width);
    assert(width * y == y * width && (y + 1) * width == y * width + width) by (nonlinear_arith);
    if x + 1 == width {
        vstd::arithmetic::div_mod::lemma_fundamental_div_mod_converse(pixel + 1, width, y + 1, 0);
    } else {
        vstd::arithmetic::div_mod::lemma_fundamental_div_mod_converse(pixel + 1, width, y, x + 1);
    }
    assert(0 <= y <= pixel) by (nonlinear_arith)
        requires
            pixel == width * y + x,
            0 <= x < width,
            pixel >= 0,
            width > 0,
    ;
}

/// Whether the point `(x, y)` lies on the outline of one of the boxes.
fn is_outlined(boxes: &Vec<XYXYc>, x: u32, y: u32) -> (hit: bool)
    ensures
        hit == outlined(boxes@, x as int, y as int),
{
    let px = x as i64;
    let py = y as i64;
    let mut k: usize = 0;
    while k < boxes.len()
        invariant
            k <= boxes.len(),
            px == x,
            py == y,
            forall|j: int| 0 <= j < k ==> !on_outline((#[trigger] boxes[j]).xyxy, x as int, y as int),
        decreases boxes.len() - k,
    {
        let b = &boxes[k].xyxy;
        if b.x1 as i64 <= px && px <= b.x2 as i64 && b.y1 as i64 <= py && py <= b.y2 as i64 && (px
            == b.x1 as i64 || px == b.x2 as i64 || py == b.y1 as i64 || py == b.y2 as i64) {
            return true;
        }
        k += 1;
    }
    false
}

impl Picture {
    /// The buffer holds exactly the pixels of the picture.
    pub open spec fn valid(&self) -> bool {
        self.data@.len() == 3 * (self.width * self.height)
    }

    /// A picture of the given size over `data`, or nothing where `data` is
    /// not three bytes for each pixel.
    pub fn new(width: u32, height: u32, data: Vec<u8>) -> (made: Option<Picture>)
        ensures
            made is Some <==> data@.len() == 3 * (width * height),
            made matches Some(picture) ==> picture.valid() && picture.width == width
                && picture.height == height && picture.data@ == data@,
    {
        assert(width * height <= 0xffff_ffff * 0xffff_ffff) by (nonlinear_arith)
            requires
                width <= 0xffff_ffff,
                height <= 0xffff_ffff,
        ;
        let pixels: u64 = width as u64 * height as u64;
        if 3 * (pixels as u128) == data.len() as u128 {
            Some(Picture { width, height, data })
        } else {
            None
        }
    }

    /// Decodes an encoded image (PNG, JPEG, ..) to a picture, or gives
    /// nothing where the bytes cannot be read as an image.
    pub fn decode(bytes: &[u8]) -> (read: Option<Picture>)
        ensures
            match decoded_rgb8(bytes@) {
                Some((width, height, data)) => read matches Some(picture) && picture.valid()
                    && picture.width == width && picture.height == height && picture.data@
                    == data.take(3 * (width * height)),
                None => read is None,
            },
    {
        match load_rgb8(bytes) {
            Some((width, height, data)) => {
                let mut data = data;
                assert(width * height <= 0xffff_ffff * 0xffff_ffff) by (nonlinear_arith)
                    requires
                        width <= 0xffff_ffff,
                        height <= 0xffff_ffff,
                ;
                let len: u128 = 3 * (width as u128 * height as u128);
                data.truncate(len as usize);
                Some(Picture { width, height, data })
            },
            None => None,
        }
    }

    /// Resizes the picture with the nearest-neighbour filter.
    pub fn resize(&self, new_width: u32, new_height: u32) -> (out: Picture)
        requires
            self.valid(),
            resize_fits(self.width, self.height, new_width, new_height),
        ensures
            out.valid(),
            out.width == new_width,
            out.height == new_height,
            out.data@ == resized_rgb8(self.data@, self.width, self.height, new_width, new_height),
            new_width == self.width && new_height == self.height ==> out.data@ == self.data@,
    {
        Picture { width: new_width, height: new_height, data: resize_rgb8(self, new_width, new_height) }
    }

    /// The colour planes of the picture: the layout of a tensor with the
    /// channel first, then the row, then the column.
    pub fn to_planes(&self) -> (out: Vec<u8>)
        requires
            self.valid(),
        ensures
            out@ == planes(self.data@),
            out@.len() == self.data@.len(),
    {
        let n: usize = self.data.len() / 3;
        let mut out: Vec<u8> = Vec::new();
        let mut i: usize = 0;
        while i < self.data.len()
            invariant
                i <= self.data@.len(),
                self.data@.len() == 3 * n,
                out@.len() == i,
                forall|j: int| 0 <= j < i ==> out@[j] == #[trigger] planes(self.data@)[j],
            decreases self.data@.len() - i,
        {
            let from: usize = if i < n {
                3 * i
            } else if i < 2 * n {
                3 * (i - n) + 1
            } else {
                3 * (i - 2 * n) + 2
            };
            out.push(self.data[from]);
            i += 1;
        }
        assert(out@ =~= planes(self.data@));
        out
    }

    /// The picture as a JPEG file, or nothing where it has no extent or a
    /// side above 65535.
    pub fn to_jpeg(&self) -> (file: Option<Vec<u8>>)
        requires
            self.valid(),
        ensures
            match file {
                Some(bytes) => jpeg_rgb8(self.data@, self.width, self.height) == Some(bytes@),
                None => jpeg_rgb8(self.data@, self.width, self.height) is None,
            },
            file is Some <==> 1 <= self.width <= 0xffff && 1 <= self.height <= 0xffff,
    {
        encode_jpeg(self)
    }

    /// Draws the outline of each box in the colour `colour`. What of an
    /// outline lies outside the picture is left out.
    pub fn draw_boxes(&mut self, boxes: &Vec<XYXYc>, colour: (u8, u8, u8))
        requires
            old(self).valid(),
        ensures
            final(self).valid(),
            final(self).width == old(self).width,
            final(self).height == old(self).height,
            final(self).data@ == annotated(old(self).data@, old(self).width as int, boxes@, colour),
    {
        let n: usize = self.data.len() / 3;
        let ghost before = self.data@;
        let ghost width = self.width as int;
        let mut pixel: usize = 0;
        let mut x: u32 = 0;
        let mut y: u32 = 0;
        assert(n > 0 ==> self.width > 0) by (nonlinear_arith)
            requires
                n == self.width * self.height,
        ;
        proof {
            if n > 0 {
                vstd::arithmetic::div_mod::lemma_fundamental_div_mod_converse(0, width, 0, 0);
            }
        }
        while pixel < n
            invariant
                pixel <= n,
                width == self.width,
                self.width == old(self).width,
                self.height == old(self).height,
                n > 0 ==> width > 0,
                before.len() == 3 * n,
                3 * n <= usize::MAX,
                self.data@.len() == before.len(),
                n == self.width * self.height,
                pixel < n ==> x == (pixel as int) % width && y == (pixel as int) / width,
                forall|i: int|
                    0 <= i < 3 * pixel ==> self.data@[i] == #[trigger] annotated(
                        before,
                        width,
                        boxes@,
                        colour,
                    )[i],
                forall|i: int| 3 * pixel <= i < 3 * n ==> self.data@[i] == before[i],
            decreases n - pixel,
        {
            proof {
                lemma_next_pixel(pixel as int, width);
                vstd::arithmetic::div_mod::lemma_fundamental_div_mod(pixel as int, width);
                let row = (pixel as int) / width;
                let column = (pixel as int) % width;
                let height = self.height as int;
                assert(row < height) by (nonlinear_arith)
                    requires
                        pixel == width * row + column,
                        0 <= column,
                        pixel < width * height,
                        width > 0,
                ;
            }
            if is_outlined(boxes, x, y) {
                self.data.set(3 * pixel, colour.0);
                self.data.set(3 * pixel + 1, colour.1);
                self.data.set(3 * pixel + 2, colour.2);
            }
            assert forall|i: int| 0 <= i < 3 * (pixel + 1) implies self.data@[i]
                == #[trigger] annotated(before, width, boxes@, colour)[i] by {
                if i >= 3 * pixel {
                    assert(i / 3 == pixel);
                }
            }
            pixel += 1;
            if x + 1 == self.width {
                x = 0;
                y += 1;
            } else {
                x += 1;
            }
        }
        assert(self.data@ =~= annotated(before, width, boxes@, colour));
    }
}

} // verus!
