use qrcode_video::args::parse_args;
use qrcode_video::convert_to_mp4::{parse_framerate, parse_opts};

fn strings(v: &[&str]) -> Vec<String> {
    v.iter().map(|s| s.to_string()).collect()
}

#[test]
fn one_argument_is_the_input() {
    let args = strings(&["prog", "file.txt"]);
    let rate = "30".to_string();
    let out = "output.mp4".to_string();
    let mut decode = String::new();
    let r = parse_args(&args, &rate, &out, &mut decode).unwrap();
    assert_eq!(r[0].unwrap(), "file.txt");
    assert_eq!(r[1].unwrap(), "output.mp4");
    assert_eq!(r[2].unwrap(), "30");
    assert_eq!(r[3].unwrap(), "false");
}

#[test]
fn all_options() {
    let args = strings(&["prog", "-i", "in.bin", "--output", "v.mp4", "-f", "24", "--decode"]);
    let rate = "30".to_string();
    let out = "output.mp4".to_string();
    let mut decode = String::new();
    let r = parse_args(&args, &rate, &out, &mut decode).unwrap();
    assert_eq!(r[0].unwrap(), "in.bin");
    assert_eq!(r[1].unwrap(), "v.mp4");
    assert_eq!(r[2].unwrap(), "24");
    assert_eq!(r[3].unwrap(), "true");
    assert_eq!(decode, "true");
}

#[test]
fn the_last_occurrence_counts() {
    let args = strings(&["prog", "-i", "a", "--input", "b", "-o", "c", "-o", "d"]);
    let rate = "30".to_string();
    let out = "output.mp4".to_string();
    let mut decode = String::new();
    let r = parse_args(&args, &rate, &out, &mut decode).unwrap();
    assert_eq!(r[0].unwrap(), "b");
    assert_eq!(r[1].unwrap(), "d");
}

#[test]
fn only_an_input_is_an_error() {
    let args = strings(&["prog", "-i", "a"]);
    let rate = "30".to_string();
    let out = "output.mp4".to_string();
    let mut decode = String::new();
    assert_eq!(parse_args(&args, &rate, &out, &mut decode), Err("Output was not defined".to_string()));
    assert_eq!(decode, "false");
}

#[test]
fn only_an_output_is_an_error() {
    let args = strings(&["prog", "-d", "-o", "a"]);
    let rate = "30".to_string();
    let out = "output.mp4".to_string();
    let mut decode = String::new();
    assert_eq!(parse_args(&args, &rate, &out, &mut decode), Err("Input was not defined".to_string()));
    assert_eq!(decode, "true");
}

#[test]
fn framerate_from_the_command_line() {
    assert_eq!(parse_framerate("30"), Some(30));
    assert_eq!(parse_framerate("300"), None);
    assert_eq!(parse_framerate("abc"), None);
}

fn pairs(v: &[(&str, &str)]) -> Vec<(String, String)> {
    v.iter().map(|(a, b)| (a.to_string(), b.to_string())).collect()
}

#[test]
fn parse_opts_reads_key_value_pairs() {
    assert_eq!(parse_opts(""), Some(vec![]));
    assert_eq!(parse_opts("preset=medium"), Some(pairs(&[("preset", "medium")])));
    assert_eq!(parse_opts("preset=veryslow,crf=18"), Some(pairs(&[("preset", "veryslow"), ("crf", "18")])));
    assert_eq!(parse_opts("a=b,"), Some(pairs(&[("a", "b")])));
    assert_eq!(parse_opts("=x"), Some(pairs(&[("", "x")])));
}

#[test]
fn parse_opts_refuses_malformed_pieces() {
    assert_eq!(parse_opts(","), None);
    assert_eq!(parse_opts("a=b,,c=d"), None);
    assert_eq!(parse_opts("a"), None);
    assert_eq!(parse_opts("a=b=c"), None);
}
