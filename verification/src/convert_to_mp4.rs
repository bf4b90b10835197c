//! The decisions of the encoder that turns the QR code images into a video:
//! its options, the copy of an image into a frame, and the time stamps of the
//! frames.
use vstd::prelude::*;
use crate::frame::{frame_with_image, last_row_at, lemma_row_of_position, FrameError, PixelFormat, VideoFrame};
use crate::digits::{parse_u8, parse_u8_spec};
use crate::text::{char_views, chars_of, join_with, lemma_join_split, lemma_split_on_nonempty, split_chars, split_on, string_of};

verus! {

/// The pieces of `s` between commas, as `str::split_terminator(',')` gives
/// them: those of `split(',')` without the last one when it is empty.
pub open spec fn comma_pieces(s: Seq<char>) -> Seq<Seq<char>> {
    let p = split_on(s, ',');
    if p.len() > 0 && p.last().len() == 0 {
        p.drop_last()
    } else {
        p
    }
}

/// One option `key=value`: the piece split at `=` must give exactly two
/// parts.
pub open spec fn key_value(piece: Seq<char>) -> Option<(Seq<char>, Seq<char>)> {
    let t = split_on(piece, '=');
    if t.len() == 2 {
        Some((t[0], t[1]))
    } else {
        None
    }
}

/// The options written `key=value,key=value`: `None` when one of the pieces
/// is not a single `key=value`.
pub open spec fn parse_opts_spec(s: Seq<char>) -> Option<Seq<(Seq<char>, Seq<char>)>> {
    let pieces = comma_pieces(s);
    if forall|i: int| 0 <= i < pieces.len() ==> (#[trigger] key_value(pieces[i])) is Some {
        Some(Seq::new(pieces.len(), |i: int| key_value(pieces[i]).unwrap()))
    } else {
        None
    }
}

/// The views of a list of options.
pub open spec fn opts_view(v: Seq<(String, String)>) -> Seq<(Seq<char>, Seq<char>)> {
    Seq::new(v.len(), |i: int| (v[i].0@, v[i].1@))
}

/// Each option written back as `key=value`.
pub open spec fn rendered_opts(v: Seq<(Seq<char>, Seq<char>)>) -> Seq<Seq<char>> {
    Seq::new(v.len(), |i: int| v[i].0 + seq!['='] + v[i].1)
}

/// Law: the options read from `s`, written back as `key=value` and joined
/// with commas, give `s` again, or `s` without its trailing comma: every
/// option is kept, in its order, with its key and value whole.
pub proof fn lemma_parse_opts_gives_back_the_text(s: Seq<char>)
    ensures
        parse_opts_spec(s) matches Some(v) ==> (join_with(rendered_opts(v), ',') == s || join_with(
            rendered_opts(v),
            ',',
        ).push(',') == s),
{
    if let Some(v) = parse_opts_spec(s) {
        let p = split_on(s, ',');
        let ps = comma_pieces(s);
        lemma_join_split(s, ',');
        lemma_split_on_nonempty(s, ',');
        assert forall|i: int| 0 <= i < ps.len() implies #[trigger] rendered_opts(v)[i] == ps[i] by {
            assert(key_value(ps[i]) is Some);
            let t = split_on(ps[i], '=');
            lemma_join_split(ps[i], '=');
            assert(t.drop_last() =~= seq![t[0]]);
            assert(join_with(t.drop_last(), '=') == t[0]);
        }
        assert(rendered_opts(v) =~= ps);
        if p.last().len() == 0 {
            if p.len() >= 2 {
                assert(p.drop_last().push(p.last()) =~= p);
                assert(join_with(p, ',') =~= join_with(ps, ',').push(',') + p.last());
                assert(join_with(ps, ',').push(',') + p.last() =~= join_with(ps, ',').push(','));
            } else {
                assert(ps =~= Seq::<Seq<char>>::empty());
                assert(s =~= p[0]);
            }
        }
    }
}

/// Reads the encoder options `key=value,key=value` (a trailing comma is
/// allowed), in their order; `None` when a piece is not a single
/// `key=value`.
pub fn parse_opts(s: &str) -> (res: Option<Vec<(String, String)>>)
    ensures
        match res {
            Some(v) => parse_opts_spec(s@) == Some(opts_view(v@)),
            None => parse_opts_spec(s@) is None,
        },
{
    let cs = chars_of(s);
    let mut pieces = split_chars(cs.as_slice(), ',');
    proof {
        lemma_split_on_nonempty(s@, ',');
    }
    let ghost all = char_views(pieces@);
    let np = pieces.len();
    if pieces[np - 1].len() == 0 {
        pieces.pop();
        assert(char_views(pieces@) =~= all.drop_last());
    }
    let ghost ps = comma_pieces(s@);
    assert(char_views(pieces@) == ps);
    let mut res: Vec<(String, String)> = Vec::new();
    let mut i: usize = 0;
    while i < pieces.len()
        invariant
            i <= pieces@.len(),
            char_views(pieces@) == ps,
            ps == comma_pieces(s@),
            res@.len() == i,
            forall|k: int| 0 <= k < i ==> (#[trigger] key_value(ps[k])) is Some,
            forall|k: int| 0 <= k < i ==> #[trigger] opts_view(res@)[k] == key_value(ps[k]).unwrap(),
        decreases pieces@.len() - i,
    {
        assert(pieces@[i as int]@ == ps[i as int]);
        let tokens = split_chars(pieces[i].as_slice(), '=');
        if tokens.len() != 2 {
            assert(key_value(ps[i as int]) is None);
            return None;
        }
        let key = string_of(tokens[0].as_slice());
        let value = string_of(tokens[1].as_slice());
        let ghost before = opts_view(res@);
        res.push((key, value));
        assert(opts_view(res@) =~= before.push(key_value(ps[i as int]).unwrap()));
        i = i + 1;
    }
    assert(opts_view(res@) =~= Seq::new(ps.len(), |k: int| key_value(ps[k]).unwrap()));
    Some(res)
}

/// The frame bytes while row `y` of the image is being copied: rows before
/// `y` copied, and the first `x` bytes of row `y`.
pub open spec fn frame_partly_copied(old: Seq<u8>, image: Seq<u8>, row_len: int, stride: int, y: int, x: int) -> Seq<u8> {
    Seq::new(
        old.len(),
        |i: int|
            if y * stride <= i < y * stride + x {
                image[y * row_len + (i - y * stride)]
            } else {
                frame_with_image(old, image, row_len, stride, y)[i]
            },
    )
}

/// A row copied in full: the frame now holds the first `y + 1` rows.
proof fn lemma_row_copied(old: Seq<u8>, image: Seq<u8>, row_len: int, stride: int, y: int)
    requires
        0 <= row_len,
        0 <= stride,
        0 <= y,
    ensures
        frame_partly_copied(old, image, row_len, stride, y, row_len) == frame_with_image(
            old,
            image,
            row_len,
            stride,
            y + 1,
        ),
{
    let a = frame_partly_copied(old, image, row_len, stride, y, row_len);
    let b = frame_with_image(old, image, row_len, stride, y + 1);
    let c = frame_with_image(old, image, row_len, stride, y);
    assert forall|i: int| 0 <= i < old.len() implies #[trigger] a[i] == b[i] by {
        if stride > 0 {
            lemma_row_of_position(i, y, stride);
            if i >= y * stride {
                assert(last_row_at(i, stride, y + 1) == y);
                if i >= y * stride + row_len && y > 0 {
                    assert(last_row_at(i, stride, y) == y - 1);
                    assert((y - 1) * stride + stride == y * stride) by (nonlinear_arith);
                }
            } else {
                assert(last_row_at(i, stride, y + 1) == i / stride);
                assert(last_row_at(i, stride, y) == i / stride);
            }
        } else {
            assert(y * stride == 0) by (nonlinear_arith)
                requires stride == 0;
            assert((y - 1) * stride == 0) by (nonlinear_arith)
                requires stride == 0;
        }
    }
    assert(a =~= b);
}

/// The frame can take an image of `image_width` by `image_height` pixels of
/// three bytes each: the last row, copied at `(image_height - 1) * stride`,
/// ends inside the frame's memory, and the image holds that many bytes.
pub open spec fn image_fits_frame(frame: VideoFrame, image: Seq<u8>, image_width: int, image_height: int) -> bool {
    &&& image_height > 0 ==> (image_height - 1) * frame.stride + image_width * 3 <= frame.data@.len()
    &&& image_height * (image_width * 3) <= image.len()
}

/// Copies an RGB image, `image_width` pixels of three bytes per row, row by
/// row into the frame, row `y` at byte `y * stride` of the frame.
///
/// The frame must have the image's size and the RGB format; otherwise the
/// result is `InvalidData` and the frame is left as it was.
pub fn copy_image_to_frame(
    frame: &mut VideoFrame,
    image_data: &[u8],
    image_width: usize,
    image_height: usize,
) -> (res: Result<(), FrameError>)
    requires
        (old(frame).width as int == image_width && old(frame).height as int == image_height
            && old(frame).format == PixelFormat::Rgb24) ==> image_fits_frame(
            *old(frame),
            image_data@,
            image_width as int,
            image_height as int,
        ),
    ensures
        (res is Ok) == (old(frame).width as int == image_width && old(frame).height as int == image_height
            && old(frame).format == PixelFormat::Rgb24),
        res is Ok ==> final(frame).data@ == frame_with_image(
            old(frame).data@,
            image_data@,
            image_width * 3,
            old(frame).stride as int,
            image_height as int,
        ),
        res is Err ==> final(frame).data@ == old(frame).data@,
        final(frame).format == old(frame).format,
        final(frame).width == old(frame).width,
        final(frame).height == old(frame).height,
        final(frame).stride == old(frame).stride,
{
    if frame.width as usize != image_width || frame.height as usize != image_height {
        return Err(FrameError::InvalidData);
    }
    if frame.format != PixelFormat::Rgb24 {
        return Err(FrameError::InvalidData);
    }
    let frame_height = frame.height as usize;
    let stride = frame.stride;
    let ghost old_data = frame.data@;
    if frame_height == 0 {
        assert(0 * (stride as int) == 0);
        assert(frame.data@ =~= frame_with_image(old_data, image_data@, image_width * 3, stride as int, 0));
        return Ok(());
    }
    let image_len = image_data.len();
    assert(image_width * 3 <= image_height * (image_width * 3)) by (nonlinear_arith)
        requires image_height > 0;
    let row_len = image_width * 3;
    assert(0 * (stride as int) == 0);
    assert(frame.data@ =~= frame_with_image(old_data, image_data@, row_len as int, stride as int, 0));
    let data_len = frame.data.len();
    let mut y: usize = 0;
    while y < frame_height
        invariant
            data_len == frame.data@.len(),
            image_len == image_data@.len(),
            frame_height == image_height,
            stride == frame.stride,
            row_len == image_width * 3,
            (frame_height - 1) * stride + row_len <= frame.data@.len(),
            frame_height * row_len <= image_data@.len(),
            frame.data@.len() == old_data.len(),
            y <= frame_height,
            frame.data@ == frame_with_image(old_data, image_data@, row_len as int, stride as int, y as int),
            frame.format == PixelFormat::Rgb24,
            frame.width as int == image_width,
            frame.height as int == image_height,
        decreases frame_height - y,
    {
        assert(y * stride <= (frame_height - 1) * stride) by (nonlinear_arith)
            requires y < frame_height;
        assert(y * row_len + row_len <= frame_height * row_len) by (nonlinear_arith)
            requires y < frame_height;
        let dst_offset = y * stride;
        let src_offset = y * row_len;
        assert(frame.data@ =~= frame_partly_copied(old_data, image_data@, row_len as int, stride as int, y as int, 0));
        let mut x: usize = 0;
        while x < row_len
            invariant
                data_len == frame.data@.len(),
                image_len == image_data@.len(),
                frame_height == image_height,
                stride == frame.stride,
                y < frame_height,
                dst_offset == y * stride,
                src_offset == y * row_len,
                dst_offset + row_len <= frame.data@.len(),
                src_offset + row_len <= image_data@.len(),
                frame.data@.len() == old_data.len(),
                x <= row_len,
                frame.data@ == frame_partly_copied(old_data, image_data@, row_len as int, stride as int, y as int, x as int),
                frame.format == PixelFormat::Rgb24,
                frame.width as int == image_width,
                frame.height as int == image_height,
            decreases row_len - x,
        {
            let ghost before = frame.data@;
            frame.data.set(dst_offset + x, image_data[src_offset + x]);
            assert(frame.data@ =~= frame_partly_copied(
                old_data,
                image_data@,
                row_len as int,
                stride as int,
                y as int,
                x + 1,
            ));
            x = x + 1;
        }
        proof {
            lemma_row_copied(old_data, image_data@, row_len as int, stride as int, y as int);
        }
        y = y + 1;
    }
    Ok(())
}

/// The ticks of the encoder's time base in one second: the time base is
/// `1/15360`.
pub const TIME_BASE_TICKS: usize = 15360;

/// Reads the frame rate given on the command line, as `parse::<u8>` does.
pub fn parse_framerate(framerate: &str) -> (res: Option<u8>)
    ensures
        res == parse_u8_spec(framerate@),
{
    parse_u8(framerate)
}

/// The ticks between two frames at `framerate` frames per second.
pub open spec fn frame_step(framerate: u8) -> nat {
    (TIME_BASE_TICKS as nat) / (framerate as nat)
}

/// What the encoder said to a frame that was sent.
#[derive(Clone, Copy, Debug, PartialEq, Eq, Structural)]
pub enum SendOutcome {
    Accepted,
    Refused,
}

/// What to do after sending a frame.
#[derive(Clone, Copy, Debug, PartialEq, Eq, Structural)]
pub enum SendAction {
    /// The frame is in; go on with the next one.
    Done,
    /// Drain the encoder's packets, then send the same frame again.
    FlushAndRetry,
}

/// What the encoder gave when asked for a packet.
#[derive(Clone, Copy, Debug, PartialEq, Eq, Structural)]
pub enum ReceiveOutcome {
    /// A packet, to be written to the output.
    Packet,
    /// No packet for now (`EAGAIN`).
    Again,
    /// The encoder is drained.
    EndOfStream,
    /// Any other error.
    Failed,
}

/// What to do after asking the encoder for a packet.
#[derive(Clone, Copy, Debug, PartialEq, Eq, Structural)]
pub enum ReceiveAction {
    /// Write the packet to stream 0 and ask again.
    WritePacket,
    /// Stop asking.
    Stop,
}

/// The counters of the encoder: the time stamp of the next frame, the frame
/// rate, the frames accepted so far and the packets written so far.
pub struct TranscoderState {
    pub frame_count: usize,
    pub framerate: u8,
    pub data_encoded_numb: u32,
    pub frame_count_for_packets: u32,
}

impl TranscoderState {
    /// The state before the first frame.
    pub fn new(framerate: u8) -> (res: TranscoderState)
        ensures
            res.frame_count == 0,
            res.framerate == framerate,
            res.data_encoded_numb == 0,
            res.frame_count_for_packets == 0,
    {
        TranscoderState { frame_count: 0, framerate, data_encoded_numb: 0, frame_count_for_packets: 0 }
    }

    /// The time stamp of the next frame, in ticks of the time base; the
    /// stamp then moves on by `TIME_BASE_TICKS / framerate`.
    pub fn next_frame_pts(&mut self) -> (pts: usize)
        requires
            old(self).framerate > 0,
            old(self).frame_count + frame_step(old(self).framerate) <= usize::MAX,
        ensures
            pts == old(self).frame_count,
            final(self).frame_count == old(self).frame_count + frame_step(old(self).framerate),
            final(self).framerate == old(self).framerate,
            final(self).data_encoded_numb == old(self).data_encoded_numb,
            final(self).frame_count_for_packets == old(self).frame_count_for_packets,
    {
        let pts = self.frame_count;
        let step = TIME_BASE_TICKS / (self.framerate as usize);
        self.frame_count = self.frame_count + step;
        pts
    }

    /// The decision after a frame was sent: an accepted frame is counted
    /// and sending is done; a refused one asks for the packets to be drained
    /// and the frame sent again.
    pub fn after_send(&mut self, outcome: SendOutcome) -> (action: SendAction)
        requires
            outcome == SendOutcome::Accepted ==> old(self).data_encoded_numb < u32::MAX,
        ensures
            outcome == SendOutcome::Accepted ==> action == SendAction::Done
                && final(self).data_encoded_numb == old(self).data_encoded_numb + 1,
            outcome == SendOutcome::Refused ==> action == SendAction::FlushAndRetry
                && final(self).data_encoded_numb == old(self).data_encoded_numb,
            final(self).frame_count == old(self).frame_count,
            final(self).framerate == old(self).framerate,
            final(self).frame_count_for_packets == old(self).frame_count_for_packets,
    {
        match outcome {
            SendOutcome::Accepted => {
                self.data_encoded_numb = self.data_encoded_numb + 1;
                SendAction::Done
            },
            SendOutcome::Refused => SendAction::FlushAndRetry,
        }
    }

    /// The decision while draining the encoder: a packet is written and
    /// counted, and anything else ends the draining.
    pub fn after_receive(&mut self, outcome: ReceiveOutcome) -> (action: ReceiveAction)
        requires
            outcome == ReceiveOutcome::Packet ==> old(self).frame_count_for_packets < u32::MAX,
        ensures
            outcome == ReceiveOutcome::Packet ==> action == ReceiveAction::WritePacket
                && final(self).frame_count_for_packets == old(self).frame_count_for_packets + 1,
            outcome != ReceiveOutcome::Packet ==> action == ReceiveAction::Stop
                && final(self).frame_count_for_packets == old(self).frame_count_for_packets,
            final(self).frame_count == old(self).frame_count,
            final(self).framerate == old(self).framerate,
            final(self).data_encoded_numb == old(self).data_encoded_numb,
    {
        match outcome {
            ReceiveOutcome::Packet => {
                self.frame_count_for_packets = self.frame_count_for_packets + 1;
                ReceiveAction::WritePacket
            },
            _ => ReceiveAction::Stop,
        }
    }
}

/// Whether the encoder's progress is due for a log line: logging is on, and
/// at least 100 frames or at least one second (1000 milliseconds) have
/// passed since the last line.
pub fn log_progress_due(
    logging_enabled: bool,
    frame_count: usize,
    last_log_frame_count: usize,
    elapsed_since_last_log_ms: u128,
) -> (due: bool)
    requires
        logging_enabled ==> last_log_frame_count <= frame_count,
    ensures
        due == (logging_enabled && (frame_count - last_log_frame_count >= 100
            || elapsed_since_last_log_ms >= 1000)),
{
    if !logging_enabled || (frame_count - last_log_frame_count < 100 && elapsed_since_last_log_ms < 1000) {
        return false;
    }
    true
}

/// Law: the step between two frames is the whole number of ticks that
/// `framerate` frames take out of the 15360 ticks of one second: `framerate`
/// steps fit in a second, one more step per frame would not.
pub proof fn lemma_frame_step_is_quotient(framerate: u8)
    requires
        framerate > 0,
    ensures
        frame_step(framerate) * (framerate as nat) <= 15360,
        15360 < (frame_step(framerate) + 1) * (framerate as nat),
{
    let r = framerate as int;
    let q = frame_step(framerate) as int;
    vstd::arithmetic::div_mod::lemma_fundamental_div_mod(15360int, r);
    assert(q == 15360int / r);
    let m = 15360int % r;
    assert(0 <= m < r);
    assert(q * r <= 15360 && 15360 < (q + 1) * r) by (nonlinear_arith)
        requires 15360 == r * q + m, 0 <= m < r;
}

/// Law: at any frame rate the stamp moves on by at least 60 ticks from one
/// frame to the next (`next_frame_pts`), so the stamps of the frames grow
/// strictly.
pub proof fn lemma_frame_stamps(framerate: u8)
    requires
        framerate > 0,
    ensures
        frame_step(framerate) >= 60,
{
    assert(frame_step(framerate) >= 60) by (nonlinear_arith)
        requires 0 < framerate <= 255, frame_step(framerate) == 15360nat / (framerate as nat);
}

} // verus!
