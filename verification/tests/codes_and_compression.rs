use qrcode_video::chunking::get_data_from_file;
use qrcode_video::compression::{compress_file, decompress_data, decompressed_len, restore_file_data};
use qrcode_video::qr::{create_qr_code_from_data, debug_data, decode_img_with_data, first_grid_payload, GrayImage};

fn read_grids(img: &GrayImage) -> Vec<Option<Vec<u8>>> {
    let buffer: image::ImageBuffer<image::Luma<u8>, Vec<u8>> =
        image::ImageBuffer::from_raw(img.width, img.height, img.pixels.clone()).unwrap();
    let mut prepared = rqrr::PreparedImage::prepare(buffer);
    prepared
        .detect_grids()
        .iter()
        .map(|g| {
            let mut out = Vec::new();
            g.decode_to(&mut out).ok().map(|_| out)
        })
        .collect()
}
use std::collections::VecDeque;

fn sample(n: usize) -> Vec<u8> {
    (0..n).map(|i| ((i * i + 3 * i) % 256) as u8).collect()
}

#[test]
fn compression_round_trip() {
    let data = sample(10000);
    let mut compressed: VecDeque<u8> = VecDeque::new();
    compress_file(&data, &mut compressed).unwrap();
    let bytes: Vec<u8> = compressed.iter().copied().collect();
    assert_eq!(&bytes[..6], &[0xFD, b'7', b'z', b'X', b'Z', 0x00]);
    assert_ne!(bytes, data);
    assert_eq!(decompress_data(&bytes), Some(data));
}

#[test]
fn compression_appends() {
    let mut compressed: VecDeque<u8> = VecDeque::from(vec![1, 2, 3]);
    compress_file(b"abc", &mut compressed).unwrap();
    assert_eq!(compressed.iter().take(3).copied().collect::<Vec<_>>(), vec![1, 2, 3]);
    assert!(compressed.len() > 3);
}

#[test]
fn decompressing_garbage_fails() {
    assert_eq!(decompress_data(b"not an xz stream"), None);
}

#[test]
fn pieces_of_the_compressed_file_restore_it() {
    let data = sample(20000);
    let mut compressed: VecDeque<u8> = VecDeque::new();
    compress_file(&data, &mut compressed).unwrap();
    let chunks = get_data_from_file(&mut compressed);
    assert_eq!(restore_file_data(&chunks), Some(data));
}

#[test]
fn qr_code_file_and_read_back() {
    let payload = b"hello qr".to_vec();
    let f = create_qr_code_from_data(&payload, 3, "/tmp/qrcode_files").unwrap();
    assert_eq!(f.path, "/tmp/qrcode_files/3.png");
    assert_eq!(f.image.width, f.image.height);
    assert_eq!(f.image.pixels.len(), (f.image.width * f.image.height) as usize);
    assert_ne!(f.image.pixels, payload);
    let grids = read_grids(&f.image);
    assert_eq!(first_grid_payload(grids.clone()), Some(payload.clone()));
    assert_eq!(decode_img_with_data(grids.clone()), payload);
    assert_eq!(debug_data(&payload, grids.clone()), Ok(()));
    assert_eq!(debug_data(b"other", grids), Err("AAAAAAAH".to_string()));
}

#[test]
fn a_full_chunk_fits_in_a_code() {
    let payload = sample(2048);
    let f = create_qr_code_from_data(&payload, 1, "/tmp").unwrap();
    assert_eq!(first_grid_payload(read_grids(&f.image)), Some(payload));
}

#[test]
fn too_much_data_has_no_code() {
    assert!(create_qr_code_from_data(&sample(4000), 1, "/tmp").is_none());
}

#[test]
fn a_blank_image_holds_no_code() {
    let img = GrayImage { width: 50, height: 50, pixels: vec![255; 2500] };
    assert_eq!(first_grid_payload(read_grids(&img)), None);
}

#[test]
fn compression_always_succeeds_and_checks_back() {
    let mut empty: VecDeque<u8> = VecDeque::new();
    assert_eq!(compress_file(b"", &mut empty), Ok(()));
    assert!(!empty.is_empty());
    assert_eq!(decompressed_len(&empty), Some(0));
    let mut c: VecDeque<u8> = VecDeque::new();
    compress_file(&sample(3000), &mut c).unwrap();
    assert_eq!(decompressed_len(&c), Some(3000));
    let garbage: VecDeque<u8> = VecDeque::from(vec![1, 2, 3]);
    assert_eq!(decompressed_len(&garbage), None);
}

#[test]
fn first_grid_payload_needs_a_nonempty_first_code() {
    assert_eq!(first_grid_payload(vec![]), None);
    assert_eq!(first_grid_payload(vec![None, Some(vec![1])]), None);
    assert_eq!(first_grid_payload(vec![Some(vec![]), Some(vec![1])]), None);
    assert_eq!(first_grid_payload(vec![Some(vec![7, 8]), None]), Some(vec![7, 8]));
    assert_eq!(debug_data(&[7, 8], vec![Some(vec![7, 8])]), Ok(()));
    assert_eq!(debug_data(&[7], vec![Some(vec![7, 8])]), Err("AAAAAAAH".to_string()));
}

#[test]
fn compressed_stream_is_nonempty_and_appended() {
    let mut c: VecDeque<u8> = VecDeque::from(vec![9, 9]);
    compress_file(b"", &mut c).unwrap();
    assert!(c.len() > 2);
    let appended: Vec<u8> = c.iter().skip(2).copied().collect();
    assert_eq!(decompress_data(&appended), Some(vec![]));
}
