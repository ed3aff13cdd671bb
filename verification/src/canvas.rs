//! The picture that a render fills, kept in a buffer of the image crate.
use crate::color::Color;
use image::{ImageBuffer, Rgb, RgbImage};
use vstd::prelude::*;

verus! {

/// A picture of red, green and blue bytes. It is an `RgbImage` of the image
/// crate; what is known of it is what the functions of this module state.
#[verifier::external_body]
pub struct Canvas {
    image: RgbImage,
}

/// The pixels of a picture: for each place `(x, y)` of the picture, with `x`
/// counted from the left and `y` from the top, the red, green and blue
/// channels of the pixel there.
pub uninterp spec fn canvas_pixels(canvas: Canvas) -> Map<(int, int), (u8, u8, u8)>;

/// The number of pixels in each row of a picture.
pub uninterp spec fn canvas_width(canvas: Canvas) -> int;

/// The number of rows of a picture.
pub uninterp spec fn canvas_height(canvas: Canvas) -> int;

/// The places of a picture of the given size.
pub open spec fn pixel_places(width: int, height: int) -> Set<(int, int)> {
    Set::new(|place: (int, int)| 0 <= place.0 < width && 0 <= place.1 < height)
}

/// The pixels of a picture of the given size that is all black.
pub open spec fn blank_pixels(width: int, height: int) -> Map<(int, int), (u8, u8, u8)> {
    Map::new(
        |place: (int, int)| 0 <= place.0 < width && 0 <= place.1 < height,
        |place: (int, int)| (0u8, 0u8, 0u8),
    )
}

/// The place in a row-by-row list of bytes, three for each pixel, of the
/// first byte of the pixel in column `x` of row `y`.
pub open spec fn byte_place(width: int, x: int, y: int) -> int {
    3 * (y * width + x)
}

/// Whether `(x, y)` is a place of the picture.
pub open spec fn canvas_has(canvas: Canvas, x: int, y: int) -> bool {
    0 <= x < canvas_width(canvas) && 0 <= y < canvas_height(canvas)
}

impl Canvas {
    /// Makes a picture with `ImageBuffer::new`, which fills a buffer of
    /// three bytes for each pixel with zeros, so that every pixel is black.
    /// It panics where that buffer would be longer than a vector can be,
    /// which `requires` leaves out.
    #[verifier::external_body]
    pub(crate) fn blank(width: u32, height: u32) -> (canvas: Canvas)
        requires
            3 * width * height <= isize::MAX,
        ensures
            canvas_width(canvas) == width,
            canvas_height(canvas) == height,
            canvas_pixels(canvas) == blank_pixels(width as int, height as int),
    {
        Canvas { image: ImageBuffer::new(width, height) }
    }

    /// The width that the picture was made with, from `ImageBuffer::width`.
    #[verifier::external_body]
    pub(crate) fn buffer_width(&self) -> (w: u32)
        ensures
            w == canvas_width(*self),
    {
        self.image.width()
    }

    /// The height that the picture was made with, from
    /// `ImageBuffer::height`.
    #[verifier::external_body]
    pub(crate) fn buffer_height(&self) -> (h: u32)
        ensures
            h == canvas_height(*self),
    {
        self.image.height()
    }

    /// Sets one pixel with `ImageBuffer::put_pixel`, which writes the three
    /// channels at the pixel's own place in the buffer: every other pixel
    /// and the size stay as they were. It panics for a place outside the
    /// picture, which `requires` leaves out.
    #[verifier::external_body]
    pub(crate) fn put_pixel(&mut self, x: u32, y: u32, color: Color)
        requires
            canvas_has(*old(self), x as int, y as int),
        ensures
            canvas_width(*final(self)) == canvas_width(*old(self)),
            canvas_height(*final(self)) == canvas_height(*old(self)),
            canvas_pixels(*final(self)) == canvas_pixels(*old(self)).insert(
                (x as int, y as int),
                (color.red, color.green, color.blue),
            ),
    {
        self.image.put_pixel(x, y, Rgb([color.red, color.green, color.blue]))
    }

    /// Reads one pixel with `ImageBuffer::get_pixel`. It panics for a place
    /// outside the picture, which `requires` leaves out.
    #[verifier::external_body]
    pub(crate) fn get_pixel(&self, x: u32, y: u32) -> (color: Color)
        requires
            canvas_has(*self, x as int, y as int),
        ensures
            (color.red, color.green, color.blue) == canvas_pixels(*self)[(x as int, y as int)],
    {
        let pixel = self.image.get_pixel(x, y);
        Color { red: pixel.0[0], green: pixel.0[1], blue: pixel.0[2] }
    }

    /// The numbers of columns and of rows.
    pub fn size(&self) -> (size: (u32, u32))
        ensures
            size.0 == canvas_width(*self),
            size.1 == canvas_height(*self),
    {
        (self.buffer_width(), self.buffer_height())
    }

    /// The bytes of the picture: its rows from the top, each from the left,
    /// with the red, green and blue byte of each pixel in turn.
    pub fn to_bytes(&self) -> (bytes: Vec<u8>)
        ensures
            bytes@.len() == 3 * (canvas_width(*self) * canvas_height(*self)),
            forall|x: int, y: int| #[trigger]
                canvas_has(*self, x, y) ==> {
                    let first = byte_place(canvas_width(*self), x, y);
                    0 <= first && first + 2 < bytes@.len() && (
                        bytes@[first],
                        bytes@[first + 1],
                        bytes@[first + 2],
                    ) == canvas_pixels(*self)[(x, y)]
                },
    {
        let width = self.buffer_width();
        let height = self.buffer_height();
        let mut bytes: Vec<u8> = Vec::new();
        let mut y: u32 = 0;
        while y < height
            invariant
                y <= height,
                width == canvas_width(*self),
                height == canvas_height(*self),
                bytes@.len() == 3 * (y * width),
                forall|a: int, b: int|
                    0 <= a < width && 0 <= b < y ==> {
                        let first = #[trigger] byte_place(width as int, a, b);
                        0 <= first && first + 2 < bytes@.len() && (
                            bytes@[first],
                            bytes@[first + 1],
                            bytes@[first + 2],
                        ) == canvas_pixels(*self)[(a, b)]
                    },
            decreases height - y,
        {
            let mut x: u32 = 0;
            while x < width
                invariant
                    x <= width,
                    y < height,
                    width == canvas_width(*self),
                    height == canvas_height(*self),
                    bytes@.len() == 3 * (y * width + x),
                    forall|a: int, b: int|
                        0 <= a < width && 0 <= b < y ==> {
                            let first = #[trigger] byte_place(width as int, a, b);
                            0 <= first && first + 2 < bytes@.len() && (
                                bytes@[first],
                                bytes@[first + 1],
                                bytes@[first + 2],
                            ) == canvas_pixels(*self)[(a, b)]
                        },
                    forall|a: int|
                        0 <= a < x ==> {
                            let first = #[trigger] byte_place(width as int, a, y as int);
                            0 <= first && first + 2 < bytes@.len() && (
                                bytes@[first],
                                bytes@[first + 1],
                                bytes@[first + 2],
                            ) == canvas_pixels(*self)[(a, y as int)]
                        },
                decreases width - x,
            {
                let color = self.get_pixel(x, y);
                proof {
                    lemma_byte_places(width as int, x as int, y as int);
                }
                bytes.push(color.red);
                bytes.push(color.green);
                bytes.push(color.blue);
                x = x + 1;
            }
            proof {
                assert(3 * (y * width + width) == 3 * ((y + 1) * width)) by (nonlinear_arith);
            }
            y = y + 1;
        }
        proof {
            assert(height * width == width * height) by (nonlinear_arith);
        }
        bytes
    }

    /// The pixel in column `x` of row `y`, or `None` where the picture has
    /// no such place.
    pub fn pixel(&self, x: u32, y: u32) -> (color: Option<Color>)
        ensures
            color.is_some() <==> canvas_has(*self, x as int, y as int),
            color matches Some(c) ==> (c.red, c.green, c.blue) == canvas_pixels(*self)[(
                x as int,
                y as int,
            )],
    {
        if x < self.buffer_width() && y < self.buffer_height() {
            Some(self.get_pixel(x, y))
        } else {
            None
        }
    }
}

/// The bytes of a pixel come after those of every pixel before it in its
/// row and in the rows above.
proof fn lemma_byte_places(width: int, x: int, y: int)
    requires
        0 <= x < width,
        0 <= y,
    ensures
        byte_place(width, x, y) == 3 * (y * width + x),
        0 <= byte_place(width, x, y),
        forall|a: int|
            0 <= a < x ==> #[trigger] byte_place(width, a, y) + 3 <= byte_place(width, x, y),
        forall|a: int, b: int|
            0 <= a < width && 0 <= b < y ==> #[trigger] byte_place(width, a, b) + 3 <= byte_place(
                width,
                x,
                y,
            ),
{
    assert(y * width >= 0) by (nonlinear_arith)
        requires
            y >= 0,
            width > 0,
    ;
    assert forall|a: int, b: int| 0 <= a < width && 0 <= b < y implies #[trigger] byte_place(
        width,
        a,
        b,
    ) + 3 <= byte_place(width, x, y) by {
        assert(b * width + width <= y * width) by (nonlinear_arith)
            requires
                0 <= b < y,
                width > 0,
        ;
    }
}

} // verus!
