use qrcode_video::chunking::{concat_payloads, get_data_from_file, next_chunk, QR_CHUNK_SIZE};
use qrcode_video::convert_to_mp4::{copy_image_to_frame, log_progress_due, ReceiveAction, ReceiveOutcome, SendAction, SendOutcome, TranscoderState};
use qrcode_video::decode_from_mp4::rgb_image_from_frame;
use qrcode_video::frame::{FrameError, PixelFormat, VideoFrame};
use std::collections::VecDeque;

fn bytes(n: usize) -> Vec<u8> {
    (0..n).map(|i| (i * 7 % 251) as u8).collect()
}

#[test]
fn chunks_of_2048_bytes() {
    let data = bytes(5000);
    let mut dq: VecDeque<u8> = data.iter().copied().collect();
    let chunks = get_data_from_file(&mut dq);
    assert!(dq.is_empty());
    assert_eq!(chunks.iter().map(|c| c.len()).collect::<Vec<_>>(), vec![2048, 2048, 904]);
    assert_eq!(concat_payloads(&chunks), data);
}

#[test]
fn chunks_of_exact_multiple_and_empty() {
    let mut dq: VecDeque<u8> = bytes(2 * QR_CHUNK_SIZE).into_iter().collect();
    assert_eq!(get_data_from_file(&mut dq).len(), 2);
    let mut empty: VecDeque<u8> = VecDeque::new();
    assert!(get_data_from_file(&mut empty).is_empty());
}

#[test]
fn next_chunk_takes_the_front() {
    let mut dq: VecDeque<u8> = bytes(3000).into_iter().collect();
    let c = next_chunk(&mut dq);
    assert_eq!(c, bytes(3000)[..2048].to_vec());
    assert_eq!(dq.len(), 952);
    let c2 = next_chunk(&mut dq);
    assert_eq!(c2.len(), 952);
    assert!(next_chunk(&mut dq).is_empty());
}

fn rgb_frame(width: u32, height: u32, stride: usize) -> VideoFrame {
    VideoFrame { format: PixelFormat::Rgb24, width, height, stride, data: vec![0xEE; stride * height as usize] }
}

#[test]
fn copy_image_to_frame_lays_out_rows_at_the_stride() {
    let mut frame = rgb_frame(2, 2, 8);
    let image: Vec<u8> = (1..=12).collect();
    assert_eq!(copy_image_to_frame(&mut frame, &image, 2, 2), Ok(()));
    assert_eq!(frame.data, vec![1, 2, 3, 4, 5, 6, 0xEE, 0xEE, 7, 8, 9, 10, 11, 12, 0xEE, 0xEE]);
    assert_eq!(rgb_image_from_frame(&frame), Ok(image));
}

#[test]
fn copy_image_to_frame_refuses_other_sizes_and_formats() {
    let mut frame = rgb_frame(2, 2, 8);
    let image: Vec<u8> = (1..=12).collect();
    assert_eq!(copy_image_to_frame(&mut frame, &image, 3, 2), Err(FrameError::InvalidData));
    assert_eq!(frame.data, vec![0xEE; 16]);
    frame.format = PixelFormat::Yuv420p;
    assert_eq!(copy_image_to_frame(&mut frame, &image, 2, 2), Err(FrameError::InvalidData));
    assert_eq!(rgb_image_from_frame(&frame), Err(FrameError::InvalidData));
}

#[test]
fn rgb_image_from_frame_skips_the_padding() {
    let frame = VideoFrame { format: PixelFormat::Rgb24, width: 1, height: 2, stride: 4, data: vec![1, 2, 3, 9, 4, 5, 6] };
    assert_eq!(rgb_image_from_frame(&frame), Ok(vec![1, 2, 3, 4, 5, 6]));
}

#[test]
fn frame_stamps_advance_by_the_frame_step() {
    let mut t = TranscoderState::new(30);
    assert_eq!(t.next_frame_pts(), 0);
    assert_eq!(t.next_frame_pts(), 512);
    assert_eq!(t.next_frame_pts(), 1024);
    let mut t = TranscoderState::new(7);
    t.next_frame_pts();
    assert_eq!(t.next_frame_pts(), 15360 / 7);
}

#[test]
fn send_and_receive_decisions() {
    let mut t = TranscoderState::new(30);
    assert_eq!(t.after_send(SendOutcome::Refused), SendAction::FlushAndRetry);
    assert_eq!(t.data_encoded_numb, 0);
    assert_eq!(t.after_send(SendOutcome::Accepted), SendAction::Done);
    assert_eq!(t.data_encoded_numb, 1);
    assert_eq!(t.after_receive(ReceiveOutcome::Packet), ReceiveAction::WritePacket);
    assert_eq!(t.frame_count_for_packets, 1);
    assert_eq!(t.after_receive(ReceiveOutcome::Again), ReceiveAction::Stop);
    assert_eq!(t.after_receive(ReceiveOutcome::EndOfStream), ReceiveAction::Stop);
    assert_eq!(t.after_receive(ReceiveOutcome::Failed), ReceiveAction::Stop);
    assert_eq!(t.frame_count_for_packets, 1);
}

#[test]
fn overlapping_rows_keep_the_later_row() {
    let mut frame = VideoFrame { format: PixelFormat::Rgb24, width: 2, height: 2, stride: 3, data: vec![0; 10] };
    let image: Vec<u8> = (1..=12).collect();
    assert_eq!(copy_image_to_frame(&mut frame, &image, 2, 2), Ok(()));
    assert_eq!(frame.data, vec![1, 2, 3, 7, 8, 9, 10, 11, 12, 0]);
}

#[test]
fn an_empty_image_leaves_the_frame() {
    let mut frame = VideoFrame { format: PixelFormat::Rgb24, width: 0, height: 3, stride: 4, data: vec![5; 12] };
    assert_eq!(copy_image_to_frame(&mut frame, &[], 0, 3), Ok(()));
    assert_eq!(frame.data, vec![5; 12]);
    assert_eq!(rgb_image_from_frame(&frame), Ok(vec![]));
}

#[test]
fn the_fastest_frame_rate_still_advances() {
    let mut t = TranscoderState::new(255);
    assert_eq!(t.next_frame_pts(), 0);
    assert_eq!(t.next_frame_pts(), 60);
}

#[test]
fn progress_is_logged_every_100_frames_or_every_second() {
    assert!(!log_progress_due(false, 500, 0, 5000));
    assert!(!log_progress_due(true, 150, 60, 999));
    assert!(log_progress_due(true, 160, 60, 0));
    assert!(log_progress_due(true, 61, 60, 1000));
}
