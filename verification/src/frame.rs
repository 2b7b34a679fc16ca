//! The geometry of a frame: its dimensions, the length of its buffer, and the
//! row-major correspondence between pixel indices and pixel positions.

use vstd::prelude::*;

verus! {

/// The width of the default frame in pixels.
pub const WIDTH: u32 = 1024;

/// The height of the default frame in pixels.
pub const HEIGHT: u32 = 1024;

/// Half the width of the default frame.
pub const HALF_WIDTH: u32 = WIDTH / 2;

/// Half the height of the default frame.
pub const HALF_HEIGHT: u32 = HEIGHT / 2;

/// The number of bytes that hold one pixel: red, green, blue and alpha.
pub const BYTES_PER_PIXEL: usize = 4;

/// The dimensions of a frame whose buffer can be addressed: both are positive,
/// and the length of the buffer fits the machine's word.
#[derive(Clone, Copy, Debug)]
pub struct FrameSize {
    width: usize,
    height: usize,
}

/// The dimensions that a frame can have.
pub open spec fn valid_dimensions(width: usize, height: usize) -> bool {
    &&& width > 0
    &&& height > 0
    &&& width * height * BYTES_PER_PIXEL <= usize::MAX
}

impl FrameSize {
    /// The number of pixels in a row.
    pub closed spec fn spec_width(&self) -> usize {
        self.width
    }

    /// The number of rows.
    pub closed spec fn spec_height(&self) -> usize {
        self.height
    }

    /// The invariant of the type.
    pub open spec fn wf(&self) -> bool {
        valid_dimensions(self.width(), self.height())
    }

    /// The number of pixels of the frame.
    pub open spec fn pixels(&self) -> nat {
        (self.width() * self.height()) as nat
    }

    /// The length of the frame's buffer in bytes.
    pub open spec fn bytes(&self) -> nat {
        (self.width() * self.height() * BYTES_PER_PIXEL) as nat
    }

    /// The column and the row of the pixel with the given index, rows first.
    pub open spec fn spec_position(&self, index: int) -> (int, int) {
        (index % (self.width() as int), index / (self.width() as int))
    }

    /// The index of the pixel in column `x` of row `y`.
    pub open spec fn spec_index_of(&self, x: int, y: int) -> int {
        y * self.width() + x
    }

    /// Accepts the dimensions if a frame can have them.
    pub fn new(width: usize, height: usize) -> (size: Option<FrameSize>)
        ensures
            size is Some <==> valid_dimensions(width, height),
            size matches Some(s) ==> s.wf() && s.width() == width && s.height() == height,
    {
        if width == 0 || height == 0 {
            return None;
        }
        match width.checked_mul(height) {
            Some(pixels) => match pixels.checked_mul(BYTES_PER_PIXEL) {
                Some(_) => Some(FrameSize { width, height }),
                None => None,
            },
            None => {
                assert(width * height * BYTES_PER_PIXEL > usize::MAX) by (nonlinear_arith)
                    requires
                        width * height > usize::MAX,
                ;
                None
            },
        }
    }

    /// The number of pixels in a row.
    #[verifier::when_used_as_spec(spec_width)]
    pub fn width(&self) -> (w: usize)
        ensures
            w == self.width(),
    {
        self.width
    }

    /// The number of rows.
    #[verifier::when_used_as_spec(spec_height)]
    pub fn height(&self) -> (h: usize)
        ensures
            h == self.height(),
    {
        self.height
    }

    /// Half the width, rounded down: the column of the frame's centre.
    pub fn half_width(&self) -> (half: usize)
        ensures
            half == self.width() / 2,
    {
        self.width / 2
    }

    /// Half the height, rounded down: the row of the frame's centre.
    pub fn half_height(&self) -> (half: usize)
        ensures
            half == self.height() / 2,
    {
        self.height / 2
    }

    /// The number of pixels of the frame.
    pub fn pixel_count(&self) -> (count: usize)
        requires
            self.wf(),
        ensures
            count == self.pixels(),
    {
        proof {
            lemma_pixels_fit(self.width, self.height);
        }
        self.width * self.height
    }

    /// The length of the frame's buffer in bytes.
    pub fn byte_len(&self) -> (len: usize)
        requires
            self.wf(),
        ensures
            len == self.bytes(),
    {
        proof {
            lemma_pixels_fit(self.width, self.height);
        }
        self.width * self.height * BYTES_PER_PIXEL
    }

    /// The column and the row of the pixel with the given index, rows first.
    pub fn position(&self, index: usize) -> (at: (usize, usize))
        requires
            self.wf(),
            index < self.pixels(),
        ensures
            (at.0 as int, at.1 as int) == self.spec_position(index as int),
            at.0 < self.width(),
            at.1 < self.height(),
    {
        proof {
            lemma_position_in_frame(*self, index as int);
        }
        (index % self.width, index / self.width)
    }

    /// The index of the pixel in column `x` of row `y`.
    pub fn index_of(&self, x: usize, y: usize) -> (index: usize)
        requires
            self.wf(),
            x < self.width(),
            y < self.height(),
        ensures
            index == self.spec_index_of(x as int, y as int),
            index < self.pixels(),
    {
        proof {
            lemma_index_in_frame(*self, x as int, y as int);
            lemma_pixels_fit(self.width, self.height);
        }
        y * self.width + x
    }
}

/// The number of pixels of a frame is no more than the length of its buffer.
proof fn lemma_pixels_fit(width: usize, height: usize)
    requires
        valid_dimensions(width, height),
    ensures
        0 < width * height <= width * height * BYTES_PER_PIXEL <= usize::MAX,
{
    assert(0 < width * height) by (nonlinear_arith)
        requires
            width > 0,
            height > 0,
    ;
}

/// The position of a pixel of the frame lies in the frame.
pub proof fn lemma_position_in_frame(size: FrameSize, index: int)
    requires
        size.wf(),
        0 <= index < size.pixels(),
    ensures
        0 <= size.spec_position(index).0 < size.width(),
        0 <= size.spec_position(index).1 < size.height(),
{
    let w = size.width() as int;
    let h = size.height() as int;
    assert(0 <= index % w < w && 0 <= index / w < h) by (nonlinear_arith)
        requires
            0 <= index < w * h,
            w > 0,
    ;
}

/// The index of a position in the frame is the index of a pixel of the frame.
pub proof fn lemma_index_in_frame(size: FrameSize, x: int, y: int)
    requires
        size.wf(),
        0 <= x < size.width(),
        0 <= y < size.height(),
    ensures
        0 <= size.spec_index_of(x, y) < size.pixels(),
        0 <= y * size.width() <= size.spec_index_of(x, y),
{
    let w = size.width() as int;
    let h = size.height() as int;
    assert(0 <= y * w && y * w + x < w * h) by (nonlinear_arith)
        requires
            0 <= x < w,
            0 <= y < h,
    ;
}

/// Indices and positions correspond one to one: the pixel at the position of
/// an index has that index, and the position of the index of a pixel is the
/// position of that pixel.
pub proof fn lemma_index_position_inverse(size: FrameSize, index: int, x: int, y: int)
    requires
        size.wf(),
    ensures
        0 <= index < size.pixels() ==> size.spec_index_of(
            size.spec_position(index).0,
            size.spec_position(index).1,
        ) == index,
        0 <= x < size.width() && 0 <= y < size.height() ==> size.spec_position(
            size.spec_index_of(x, y),
        ) == (x, y),
{
    let w = size.width() as int;
    if 0 <= index < size.pixels() {
        assert((index / w) * w + index % w == index) by (nonlinear_arith)
            requires
                w > 0,
        ;
    }
    if 0 <= x < size.width() && 0 <= y < size.height() {
        assert((y * w + x) % w == x && (y * w + x) / w == y) by (nonlinear_arith)
            requires
                0 <= x < w,
        ;
    }
}

} // verus!
