//! What is sent to the printer or to a terminal.

use receipter::printer::{
    base64_encode, kitty_image, parse_endpoint, printed_lines, sanitize_for_printer, EndpointError,
};

#[test]
fn base64_matches_known_vectors() {
    // RFC 4648 test vectors, plus the classic "Man"/"Ma"/"M" padding cases.
    assert_eq!(base64_encode(b""), "");
    assert_eq!(base64_encode(b"M"), "TQ==");
    assert_eq!(base64_encode(b"Ma"), "TWE=");
    assert_eq!(base64_encode(b"Man"), "TWFu");
    assert_eq!(base64_encode(b"foobar"), "Zm9vYmFy");
    assert_eq!(base64_encode(&[0xff, 0xff, 0xff]), "////");
}

#[test]
fn base64_takes_four_characters_for_three_bytes() {
    for n in 0..20usize {
        let data: Vec<u8> = (0..n).map(|i| (i * 37) as u8).collect();
        assert_eq!(base64_encode(&data).len(), (n + 2) / 3 * 4);
    }
    let all: Vec<u8> = (0..=255u8).collect();
    let text = base64_encode(&all);
    assert!(text.starts_with("AAECAwQFBgcICQoLDA0ODxAREhMUFRYXGBkaGxwdHh8gISIjJCUmJygpKissLS4v"));
    assert!(text.ends_with("9vf4+fr7/P3+/w=="));
}

#[test]
fn only_plain_characters_are_printed() {
    assert_eq!(sanitize_for_printer("26 \u{00b0}C"), "26 C");
    assert_eq!(sanitize_for_printer("\u{2015} \u{2199} 22"), "- SW 22");
    assert_eq!(
        sanitize_for_printer("\u{2191}\u{2193}\u{2190}\u{2192}\u{2196}\u{2197}\u{2198}"),
        "NSWENWNESE"
    );
    assert_eq!(sanitize_for_printer("\u{2018}a\u{2019} \u{201c}b\u{201d} \u{2013}\u{2014}"), "'a' \"b\" --");
    assert_eq!(sanitize_for_printer("caf\u{e9}\u{f238}"), "caf  ");
    assert_eq!(sanitize_for_printer("plain \\ text"), "plain \\ text");
}

#[test]
fn a_report_is_printed_line_by_line() {
    assert_eq!(
        printed_lines("a \u{00b0}C\r\n\nlast\r"),
        vec!["a C".to_string(), "".to_string(), "last\r".to_string()]
    );
    assert!(printed_lines("").is_empty());
    assert_eq!(printed_lines("one\n").len(), 1);
}

#[test]
fn endpoints_are_split_at_the_last_colon() {
    assert_eq!(parse_endpoint("192.168.1.100:9100").unwrap(), ("192.168.1.100".to_string(), 9100));
    assert_eq!(parse_endpoint("::1:9100").unwrap(), ("::1".to_string(), 9100));
    let err = parse_endpoint("printer").unwrap_err();
    assert!(matches!(err, EndpointError::NoPort { .. }));
    assert_eq!(err.message(), "endpoint `printer` must be in the form `host:port`");
    let err = parse_endpoint(":9100").unwrap_err();
    assert!(matches!(err, EndpointError::NoHost { .. }));
    assert_eq!(err.message(), "endpoint `:9100` is missing a host");
    let err = parse_endpoint("printer:65536").unwrap_err();
    assert!(matches!(err, EndpointError::BadPort { .. }));
    assert_eq!(err.message(), "endpoint `printer:65536` has an invalid port `65536`");
    assert!(parse_endpoint("printer:").is_err());
}

#[test]
fn an_image_is_sent_to_a_terminal_in_parts() {
    assert_eq!(kitty_image(b""), "");
    assert_eq!(kitty_image(b"Man"), "\x1b_Gf=100,a=T,m=0;TWFu\x1b\\\n");
    let png: Vec<u8> = vec![0; 3 * 1025];
    let text = kitty_image(&png);
    let first = "A".repeat(4096);
    assert_eq!(text, format!("\x1b_Gf=100,a=T,m=1;{first}\x1b\\\x1b_Gm=0;AAAA\x1b\\\n"));
}
