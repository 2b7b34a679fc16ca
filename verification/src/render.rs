//! Painting a frame: every pixel is mapped to a point of the plane, the
//! escape-time iteration is run for that point, and the pixel gets the point's
//! grey level and full opacity. The pixels are worked on in parallel.
//!
//! The map from pixel positions to points is the caller's, like the arithmetic
//! of the iteration: a function `locate` from the column and the row of a pixel
//! to the point that the pixel shows.

use crate::escape::{calculate_escape, can_advance, is_escape_level, Step};
use crate::frame::{FrameSize, BYTES_PER_PIXEL};
use rayon::iter::{IndexedParallelIterator, ParallelIterator};
use rayon::slice::ParallelSliceMut;
use vstd::prelude::*;

verus! {

/// The alpha value of a fully opaque pixel.
pub const OPAQUE: u8 = 255;

/// The bytes of an opaque grey pixel: red, green and blue at `level`.
pub open spec fn gray(level: u8) -> Seq<u8> {
    seq![level, level, level, OPAQUE]
}

/// The bytes of the pixel with the given index in a frame's buffer.
pub open spec fn pixel_at(frame: Seq<u8>, index: int) -> Seq<u8> {
    frame.subrange(BYTES_PER_PIXEL * index, BYTES_PER_PIXEL * index + BYTES_PER_PIXEL)
}

/// `locate` may be called on every position of a frame of the given size, and
/// `advance` on every state of the orbit of every point that `locate` gives.
pub open spec fn can_render<Z, C, L: Fn(usize, usize) -> C, A: Fn(Z, C) -> Step<Z>>(
    size: FrameSize,
    max_iterations: u16,
    locate: L,
    origin: Z,
    advance: A,
) -> bool {
    &&& forall|x: usize, y: usize|
        x < size.width() && y < size.height() ==> #[trigger] locate.requires((x, y))
    &&& forall|x: usize, y: usize, c: C|
        x < size.width() && y < size.height() && #[trigger] locate.ensures((x, y), c)
            ==> can_advance(advance, origin, c, max_iterations)
}

/// `pixel` holds an opaque grey whose level is a grey level of the point that
/// `locate` gives the position `(x, y)`.
pub open spec fn is_rendered<Z, C, L: Fn(usize, usize) -> C, A: Fn(Z, C) -> Step<Z>>(
    max_iterations: u16,
    locate: L,
    origin: Z,
    advance: A,
    x: int,
    y: int,
    pixel: Seq<u8>,
) -> bool {
    exists|c: C, level: u8|
        {
            &&& locate.ensures((x as usize, y as usize), c)
            &&& #[trigger] is_escape_level(advance, origin, c, max_iterations, level)
            &&& pixel == gray(level)
        }
}

/// The pixel with the given index in the buffer `frame` holds the grey level
/// of the point at its position.
pub open spec fn is_rendered_at<Z, C, L: Fn(usize, usize) -> C, A: Fn(Z, C) -> Step<Z>>(
    size: FrameSize,
    max_iterations: u16,
    locate: L,
    origin: Z,
    advance: A,
    frame: Seq<u8>,
    index: int,
) -> bool {
    is_rendered(
        max_iterations,
        locate,
        origin,
        advance,
        size.spec_position(index).0,
        size.spec_position(index).1,
        pixel_at(frame, index),
    )
}

/// Writes an opaque grey of the given level into the four bytes of a pixel.
pub fn paint_pixel(pixel: &mut [u8], level: u8)
    requires
        old(pixel)@.len() == BYTES_PER_PIXEL,
    ensures
        final(pixel)@ == gray(level),
{
    pixel[0] = level;
    pixel[1] = level;
    pixel[2] = level;
    pixel[3] = OPAQUE;
    assert(pixel@ =~= gray(level));
}

/// Renders one pixel of a frame: finds the position of the pixel with the
/// given index, the point of the plane at that position and the grey level of
/// the point, and writes the level into the pixel's bytes.
pub fn render_pixel<Z: Copy, C: Copy, L: Fn(usize, usize) -> C, A: Fn(Z, C) -> Step<Z>>(
    pixel: &mut [u8],
    index: usize,
    size: &FrameSize,
    max_iterations: u16,
    locate: &L,
    origin: Z,
    advance: &A,
)
    requires
        old(pixel)@.len() == BYTES_PER_PIXEL,
        size.wf(),
        index < size.pixels(),
        can_render(*size, max_iterations, *locate, origin, *advance),
    ensures
        is_rendered(
            max_iterations,
            *locate,
            origin,
            *advance,
            size.spec_position(index as int).0,
            size.spec_position(index as int).1,
            final(pixel)@,
        ),
{
    let (x, y) = size.position(index);
    let c: C = locate(x, y);
    let level: u8 = calculate_escape(c, max_iterations, origin, advance);
    paint_pixel(pixel, level);
    proof {
        let at = size.spec_position(index as int);
        assert(at.0 as usize == x && at.1 as usize == y);
        assert(locate.ensures((at.0 as usize, at.1 as usize), c));
        assert(is_escape_level(*advance, origin, c, max_iterations, level));
    }
}

/// Hands the byte groups of a frame to worker threads, each with its index, to
/// be rendered by [`render_pixel`].
///
/// Calls rayon's `par_chunks_exact_mut`, `enumerate` and `for_each`. The claim
/// made of them: the buffer is cut into consecutive groups of `group_len`
/// bytes, the group that starts at byte `index * group_len` is handed over
/// once, together with `index`, every group has been handed over when the call
/// returns, and nothing else touches the buffer; so what `render_pixel` ensures
/// of one group then holds of each.
#[verifier::external_body]
fn render_groups_in_parallel<Z, C, L, A>(
    frame: &mut [u8],
    group_len: usize,
    size: &FrameSize,
    max_iterations: u16,
    locate: &L,
    origin: Z,
    advance: &A,
) where
    Z: Copy + Sync,
    C: Copy,
    L: Fn(usize, usize) -> C + Sync,
    A: Fn(Z, C) -> Step<Z> + Sync,

    requires
        group_len == BYTES_PER_PIXEL,
        size.wf(),
        old(frame)@.len() == size.bytes(),
        can_render(*size, max_iterations, *locate, origin, *advance),
    ensures
        final(frame)@.len() == old(frame)@.len(),
        forall|index: int|
            0 <= index < size.pixels() ==> #[trigger] is_rendered_at(
                *size,
                max_iterations,
                *locate,
                origin,
                *advance,
                final(frame)@,
                index,
            ),
{
    frame.par_chunks_exact_mut(group_len).enumerate().for_each(
        |(index, pixel)| render_pixel(pixel, index, size, max_iterations, locate, origin, advance),
    );
}

/// Paints the whole frame. The pixel at each position gets, as an opaque grey,
/// the escape-time level of the point that `locate` gives the position: the
/// iteration in which the orbit of the point, advanced from `origin` by
/// `advance`, escaped, held to 255, or 0 when it ran through `max_iterations`
/// iterations. Every pixel is written, independently of the others and in
/// parallel, and the call returns when all are done.
pub fn render<Z, C, L, A>(
    size: &FrameSize,
    max_iterations: u16,
    locate: &L,
    origin: Z,
    advance: &A,
    frame: &mut [u8],
) where
    Z: Copy + Sync,
    C: Copy,
    L: Fn(usize, usize) -> C + Sync,
    A: Fn(Z, C) -> Step<Z> + Sync,

    requires
        size.wf(),
        old(frame)@.len() == size.bytes(),
        can_render(*size, max_iterations, *locate, origin, *advance),
    ensures
        final(frame)@.len() == old(frame)@.len(),
        forall|index: int|
            0 <= index < size.pixels() ==> #[trigger] is_rendered_at(
                *size,
                max_iterations,
                *locate,
                origin,
                *advance,
                final(frame)@,
                index,
            ),
        forall|k: int|
            0 <= k < final(frame)@.len() && k % 4 == 3 ==> #[trigger] final(frame)@[k] == OPAQUE,
{
    render_groups_in_parallel(
        frame,
        BYTES_PER_PIXEL,
        size,
        max_iterations,
        locate,
        origin,
        advance,
    );
    proof {
        assert forall|k: int| 0 <= k < frame@.len() && k % 4 == 3 implies #[trigger] frame@[k]
            == OPAQUE by {
            let index = k / 4;
            assert(is_rendered_at(
                *size,
                max_iterations,
                *locate,
                origin,
                *advance,
                frame@,
                index,
            ));
            lemma_rendered_is_opaque(
                *size,
                max_iterations,
                *locate,
                origin,
                *advance,
                frame@,
                index,
            );
        }
    }
}

/// Opacity: a rendered pixel is fully opaque, whatever its grey level, and its
/// three colour channels are equal.
pub proof fn lemma_rendered_is_opaque<Z, C, L: Fn(usize, usize) -> C, A: Fn(Z, C) -> Step<Z>>(
    size: FrameSize,
    max_iterations: u16,
    locate: L,
    origin: Z,
    advance: A,
    frame: Seq<u8>,
    index: int,
)
    requires
        size.wf(),
        frame.len() == size.bytes(),
        0 <= index < size.pixels(),
        is_rendered_at(size, max_iterations, locate, origin, advance, frame, index),
    ensures
        frame[4 * index + 3] == OPAQUE,
        frame[4 * index] == frame[4 * index + 1],
        frame[4 * index + 1] == frame[4 * index + 2],
{
    let pixel = pixel_at(frame, index);
    assert(pixel[0] == frame[4 * index]);
    assert(pixel[1] == frame[4 * index + 1]);
    assert(pixel[2] == frame[4 * index + 2]);
    assert(pixel[3] == frame[4 * index + 3]);
}

} // verus!
