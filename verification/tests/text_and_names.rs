use qrcode_video::digits::{decimal_string, parse_u32, parse_u8};
use qrcode_video::frame_names::{frame_file_name, frame_sort_key, qr_file_path, strip_png};
use qrcode_video::frame_order::{sort_frame_files, stable_order};
use qrcode_video::sort_lib::sort_the_vector_right;
use qrcode_video::text::{chars_of, split_chars, string_of, text_eq};
use std::cmp::Ordering;

#[test]
fn parse_u32_reads_plain_digits() {
    assert_eq!(parse_u32("42"), Some(42));
    assert_eq!(parse_u32("0"), Some(0));
    assert_eq!(parse_u32("007"), Some(7));
    assert_eq!(parse_u32("4294967295"), Some(u32::MAX));
}

#[test]
fn parse_u32_agrees_with_std() {
    for s in ["", "+", "-", "+7", "-1", "12a", " 1", "4294967296", "99999999999", "1.5", "٣", "+-1", "++1"] {
        assert_eq!(parse_u32(s), s.parse::<u32>().ok(), "input {:?}", s);
    }
}

#[test]
fn parse_u8_agrees_with_std() {
    for s in ["30", "255", "256", "0", "+1", "", "x", "-3"] {
        assert_eq!(parse_u8(s), s.parse::<u8>().ok(), "input {:?}", s);
    }
}

#[test]
fn decimal_string_matches_to_string() {
    for n in [0u32, 1, 9, 10, 99, 100, 1234, 4294967295] {
        assert_eq!(decimal_string(n), n.to_string());
        assert_eq!(parse_u32(&decimal_string(n)), Some(n));
    }
}

#[test]
fn strip_png_removes_every_occurrence() {
    let s: Vec<char> = "a.pngb.png.png".chars().collect();
    let r: String = strip_png(&s).into_iter().collect();
    assert_eq!(r, "a.pngb.png.png".replace(".png", ""));
    let s: Vec<char> = "..ppng".chars().collect();
    let r: String = strip_png(&s).into_iter().collect();
    assert_eq!(r, "..ppng".replace(".png", ""));
}

#[test]
fn frame_sort_key_reads_the_number() {
    assert_eq!(frame_sort_key("12.png"), Some(12));
    assert_eq!(frame_sort_key("0.png"), Some(0));
    assert_eq!(frame_sort_key("1.png.png"), Some(1));
    assert_eq!(frame_sort_key("qrcode1.png"), None);
    assert_eq!(frame_sort_key("12.jpg"), None);
}

#[test]
fn file_names_are_decimal_and_png() {
    assert_eq!(frame_file_name(7), "7.png");
    assert_eq!(frame_file_name(2048), "2048.png");
    assert_eq!(qr_file_path("/tmp/qrcode_files", 3), "/tmp/qrcode_files/3.png");
    for n in [0u32, 5, 17, 123456] {
        assert_eq!(frame_sort_key(&frame_file_name(n)), Some(n));
    }
}

#[test]
fn sort_the_vector_right_orders_by_number() {
    assert_eq!(sort_the_vector_right("2.png", "10.png"), Ordering::Less);
    assert_eq!(sort_the_vector_right("10.png", "2.png"), Ordering::Greater);
    assert_eq!(sort_the_vector_right("02.png", "2.png"), Ordering::Equal);
}

#[test]
fn sort_the_vector_right_reverses_when_swapped() {
    let names = ["0.png", "1.png", "9.png", "10.png", "11.png"];
    for a in names {
        for b in names {
            assert_eq!(sort_the_vector_right(a, b), sort_the_vector_right(b, a).reverse());
        }
    }
}

#[test]
fn file_names_sort_as_their_numbers() {
    for i in [0u32, 3, 9, 10, 100] {
        for j in [0u32, 2, 9, 11, 100] {
            assert_eq!(sort_the_vector_right(&frame_file_name(i), &frame_file_name(j)), i.cmp(&j));
        }
    }
}

#[test]
fn sort_frame_files_is_a_stable_numeric_sort() {
    let names: Vec<String> = ["10.png", "2.png", "1.png", "02.png", "0.png"].iter().map(|s| s.to_string()).collect();
    let sorted = sort_frame_files(&names);
    assert_eq!(sorted, vec!["0.png", "1.png", "2.png", "02.png", "10.png"]);
    let mut expected = names.clone();
    expected.sort_by(|a, b| sort_the_vector_right(a, b));
    assert_eq!(sorted, expected);
}

#[test]
fn stable_order_keeps_equal_keys_in_place() {
    assert_eq!(stable_order(&vec![3, 1, 3, 0, 1]), vec![3, 1, 4, 0, 2]);
    assert_eq!(stable_order(&vec![]), Vec::<usize>::new());
}

#[test]
fn text_helpers() {
    assert!(text_eq("-i", "-i"));
    assert!(!text_eq("-i", "-o"));
    assert!(!text_eq("-i", "--input"));
    assert_eq!(chars_of("héllo"), vec!['h', 'é', 'l', 'l', 'o']);
    assert_eq!(string_of(&['a', 'b']), "ab");
    let pieces = split_chars(&chars_of("a,,b,"), ',');
    assert_eq!(pieces, vec![vec!['a'], vec![], vec!['b'], vec![]]);
}

#[test]
fn fewer_than_two_names_are_never_compared() {
    assert_eq!(sort_frame_files(&vec!["not a number".to_string()]), vec!["not a number"]);
    assert!(sort_frame_files(&vec![]).is_empty());
}
