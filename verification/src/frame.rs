//! A video frame as plain values: its pixel format, size, the length of a row
//! in memory (the stride) and its bytes; and the layout of an RGB image in
//! such a frame.
use vstd::prelude::*;
use vstd::arithmetic::div_mod::lemma_fundamental_div_mod_converse;

verus! {

/// The pixel formats that the encoder and the decoder tell apart.
#[derive(Clone, Copy, Debug, PartialEq, Eq, Structural)]
pub enum PixelFormat {
    /// Three bytes per pixel: red, green, blue.
    Rgb24,
    /// Planar luma and subsampled chroma.
    Yuv420p,
    /// Any other format.
    Other,
}

/// The one error of frame handling: the frame does not have the expected
/// size or format.
#[derive(Clone, Copy, Debug, PartialEq, Eq, Structural)]
pub enum FrameError {
    InvalidData,
}

/// The first plane of a video frame.
pub struct VideoFrame {
    pub format: PixelFormat,
    pub width: u32,
    pub height: u32,
    /// The number of bytes from the start of one row to the start of the next.
    pub stride: usize,
    pub data: Vec<u8>,
}

/// The row of an image of `rows` rows, laid out `stride` bytes apart, whose
/// copy is the last one to reach byte `i` of a frame: the last row that
/// starts at or before `i`.
pub open spec fn last_row_at(i: int, stride: int, rows: int) -> int {
    if stride == 0 {
        rows - 1
    } else if i / stride < rows - 1 {
        i / stride
    } else {
        rows - 1
    }
}

/// The bytes of a frame after the rows of an image, `rows` rows of
/// `row_len` bytes, have been copied in one after the other, row `y` to byte
/// `y * stride` of the frame. Where rows overlap (a stride shorter than a
/// row), the later row's bytes stand; bytes that no row reaches keep their
/// value.
pub open spec fn frame_with_image(old: Seq<u8>, image: Seq<u8>, row_len: int, stride: int, rows: int) -> Seq<u8> {
    Seq::new(
        old.len(),
        |i: int|
            {
                let y = last_row_at(i, stride, rows);
                if rows > 0 && y * stride <= i && i < y * stride + row_len {
                    image[y * row_len + (i - y * stride)]
                } else {
                    old[i]
                }
            },
    )
}

/// Positions before the start of row `y` lie in an earlier row, the others
/// in row `y` or later.
pub proof fn lemma_row_of_position(i: int, y: int, stride: int)
    requires
        stride > 0,
        0 <= i,
        0 <= y,
    ensures
        i < y * stride ==> i / stride < y,
        i >= y * stride ==> i / stride >= y,
        (i / stride) * stride <= i,
{
    vstd::arithmetic::div_mod::lemma_fundamental_div_mod(i, stride);
    let q = i / stride;
    let r = i % stride;
    assert(0 <= r < stride);
    assert(i == q * stride + r) by (nonlinear_arith)
        requires i == stride * q + r;
    assert(q * stride <= i);
    if i < y * stride {
        assert(q < y) by (nonlinear_arith)
            requires i == q * stride + r, 0 <= r < stride, i < y * stride, stride > 0;
    } else {
        assert(q >= y) by (nonlinear_arith)
            requires i == q * stride + r, 0 <= r < stride, i >= y * stride, stride > 0;
    }
}

/// The image of `rows` rows of `row_len` bytes that a frame holds, row `y` at
/// byte `y * stride`, with the rows packed one after the other.
pub open spec fn image_of_frame(data: Seq<u8>, row_len: int, stride: int, rows: int) -> Seq<u8> {
    Seq::new((rows * row_len) as nat, |k: int| data[(k / row_len) * stride + k % row_len])
}

/// Byte `j` of row `y` sits at `y * stride + j`, and that position is in row
/// `y` at column `j`.
pub proof fn lemma_row_position(y: int, j: int, stride: int)
    requires
        0 <= j < stride,
    ensures
        (y * stride + j) / stride == y,
        (y * stride + j) % stride == j,
{
    lemma_fundamental_div_mod_converse(y * stride + j, stride, y, j);
}

/// Law: reading back the image that was copied into a frame gives the image.
pub proof fn lemma_frame_image_roundtrip(old: Seq<u8>, image: Seq<u8>, row_len: int, stride: int, rows: int)
    requires
        0 < row_len <= stride,
        0 <= rows,
        rows > 0 ==> (rows - 1) * stride + row_len <= old.len(),
        image.len() == rows * row_len,
    ensures
        image_of_frame(frame_with_image(old, image, row_len, stride, rows), row_len, stride, rows) == image,
{
    let f = frame_with_image(old, image, row_len, stride, rows);
    let back = image_of_frame(f, row_len, stride, rows);
    assert forall|k: int| 0 <= k < image.len() implies #[trigger] back[k] == image[k] by {
        let y = k / row_len;
        let j = k % row_len;
        vstd::arithmetic::div_mod::lemma_fundamental_div_mod(k, row_len);
        assert(0 <= j < row_len);
        assert(k == y * row_len + j);
        assert(0 <= y < rows) by (nonlinear_arith)
            requires k == y * row_len + j, 0 <= j < row_len, 0 <= k < rows * row_len, row_len > 0;
        let i = y * stride + j;
        lemma_row_position(y, j, stride);
        assert(0 <= i) by (nonlinear_arith)
            requires i == y * stride + j, 0 <= j, 0 <= y, stride > 0;
        assert(i < old.len()) by (nonlinear_arith)
            requires i == y * stride + j, 0 <= j < row_len, 0 <= y < rows,
                (rows - 1) * stride + row_len <= old.len(), stride >= 0;
        assert(last_row_at(i, stride, rows) == y);
        assert(f[i] == image[y * row_len + j]);
    }
    assert(back =~= image);
}

} // verus!
