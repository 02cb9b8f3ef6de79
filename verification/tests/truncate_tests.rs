use reflors::ansi::visible_width;
use reflors::error::Error;
use reflors::truncate::{truncate_string, Writer};

#[test]
fn truncates_to_width_with_tail() {
    assert_eq!(
        truncate_string("hello world", 8, "..."),
        Ok("hello...".to_string())
    );
    assert_eq!(visible_width("hello..."), 8);
}

#[test]
fn short_input_passes_unchanged() {
    assert_eq!(truncate_string("abc", 5, "..."), Ok("abc".to_string()));
    assert_eq!(truncate_string("abcde", 5, "..."), Ok("abcde".to_string()));
}

#[test]
fn width_smaller_than_tail_yields_tail_alone() {
    assert_eq!(truncate_string("abcdef", 2, "..."), Ok("...".to_string()));
    assert_eq!(truncate_string("", 0, "..."), Ok("...".to_string()));
}

#[test]
fn truncation_closes_open_style() {
    assert_eq!(
        truncate_string("\u{1b}[31mhello world\u{1b}[0m", 8, "..."),
        Ok("\u{1b}[31mhello\u{1b}[0m...".to_string())
    );
}

#[test]
fn truncation_width_is_min_of_input_and_target() {
    for width in 0..15usize {
        let input = "\u{1b}[36mhello world\u{1b}[0m";
        let out = truncate_string(input, width, "...").unwrap();
        if width >= 3 {
            assert_eq!(
                visible_width(&out),
                width.min(visible_width(input)),
                "width {}",
                width
            );
        } else {
            assert_eq!(out, "...");
        }
    }
}

#[test]
fn custom_tail() {
    assert_eq!(truncate_string("abcdef", 4, "…"), Ok("a…".to_string()));
    assert_eq!(truncate_string("abcdef", 4, ""), Ok("abcd".to_string()));
}

#[test]
fn writer_accumulates_truncations() {
    let mut w = Writer::new(5);
    assert_eq!(w.write_str("abcdefgh"), Ok(5));
    assert_eq!(w.to_string(), Ok("ab...".to_string()));
    let mut w = Writer::with_ending(4, "~");
    assert_eq!(w.write_str("abcdefgh"), Ok(4));
    assert_eq!(w.write_str("xy"), Ok(2));
    assert_eq!(w.to_string(), Ok("abc~xy".to_string()));
}

#[test]
fn writer_write_bytes_checks_utf8() {
    let mut w = Writer::new(10);
    assert!(w.write_bytes(b"hello").is_ok());
    assert_eq!(w.write_bytes(&[0xc0, 0x00]), Err(Error::Utf8));
    assert_eq!(w.to_string(), Ok("hello".to_string()));
}
