//! The decisions of the decoder that turns the video back into the file: the
//! image held by a decoded frame.
use vstd::prelude::*;
use crate::frame::{image_of_frame, lemma_row_position, FrameError, PixelFormat, VideoFrame};

verus! {

/// The frame's rows can be read: the last row ends inside its memory, and the
/// packed image fits in memory.
pub open spec fn frame_readable(frame: &VideoFrame) -> bool {
    let row_len = frame.width * 3;
    &&& frame.height * row_len <= usize::MAX
    &&& frame.height > 0 ==> (frame.height - 1) * frame.stride + row_len <= frame.data@.len()
}

/// The RGB image that a decoded frame holds: row `y` is read from byte
/// `y * stride` of the frame, `width` pixels of three bytes, and the rows are
/// packed one after the other.
///
/// A frame in another format than RGB gives `InvalidData`.
pub fn rgb_image_from_frame(frame: &VideoFrame) -> (res: Result<Vec<u8>, FrameError>)
    requires
        frame.format == PixelFormat::Rgb24 ==> frame_readable(frame),
    ensures
        res is Err <==> frame.format != PixelFormat::Rgb24,
        res matches Ok(v) ==> v@ == image_of_frame(
            frame.data@,
            frame.width * 3,
            frame.stride as int,
            frame.height as int,
        ),
{
    if frame.format != PixelFormat::Rgb24 {
        return Err(FrameError::InvalidData);
    }
    let ghost data = frame.data@;
    let height = frame.height as usize;
    let width = frame.width as usize;
    let stride = frame.stride;
    let mut img: Vec<u8> = Vec::new();
    if height == 0 || width == 0 {
        assert(image_of_frame(data, width * 3, stride as int, height as int) =~= img@) by {
            assert(height * (width * 3) == 0) by (nonlinear_arith)
                requires height == 0 || width == 0;
        }
        return Ok(img);
    }
    assert(width * 3 <= height * (width * 3)) by (nonlinear_arith)
        requires height > 0;
    let row_len = width * 3;
    let data_len = frame.data.len();
    let mut y: usize = 0;
    while y < height
        invariant
            data_len == data.len(),
            data == frame.data@,
            height == frame.height,
            row_len == frame.width * 3,
            row_len > 0,
            stride == frame.stride,
            height * row_len <= usize::MAX,
            (height - 1) * stride + row_len <= data.len(),
            y <= height,
            img@.len() == y * row_len,
            forall|k: int| 0 <= k < img@.len() ==> #[trigger] img@[k] == data[(k / row_len as int) * stride + k % row_len as int],
        decreases height - y,
    {
        assert(y * stride <= (height - 1) * stride) by (nonlinear_arith)
            requires y < height;
        assert(y * row_len + row_len <= height * row_len) by (nonlinear_arith)
            requires y < height;
        let row_start = y * stride;
        let mut j: usize = 0;
        while j < row_len
            invariant
                data_len == data.len(),
                data == frame.data@,
                row_len > 0,
                row_start == y * stride,
                row_start + row_len <= data.len(),
                y * row_len + row_len <= usize::MAX,
                j <= row_len,
                img@.len() == y * row_len + j,
                forall|k: int| 0 <= k < img@.len() ==> #[trigger] img@[k] == data[(k / row_len as int) * stride + k % row_len as int],
            decreases row_len - j,
        {
            let ghost k = img@.len() as int;
            proof {
                lemma_row_position(y as int, j as int, row_len as int);
            }
            img.push(frame.data[row_start + j]);
            assert(img@[k] == data[(k / row_len as int) * stride + k % row_len as int]);
            j = j + 1;
        }
        assert(img@.len() == (y + 1) * row_len) by (nonlinear_arith)
            requires img@.len() == y * row_len + row_len;
        y = y + 1;
    }
    assert(img@ =~= image_of_frame(data, row_len as int, stride as int, height as int));
    Ok(img)
}

} // verus!
