use bytes::BytesMut;
use reflors::ansi::visible_width;
use reflors::padding::{pad_bytes, pad_string, Writer};
use reflors::error::Error;

#[test]
fn pads_short_lines() {
    assert_eq!(pad_string("ab\ncdef", 4), Ok("ab  \ncdef".to_string()));
    assert_eq!(pad_string("x", 3), Ok("x  ".to_string()));
    assert_eq!(pad_string("", 3), Ok("".to_string()));
}

#[test]
fn padding_idempotent_on_exact_width() {
    // A line already at the target width gains no spaces.
    assert_eq!(pad_string("hello", 5), Ok("hello".to_string()));
    assert_eq!(pad_string("hello\nab", 5), Ok("hello\nab   ".to_string()));
}

#[test]
fn padding_never_inherits_style() {
    // Spaces are emitted, then the open style is reset, then the newline.
    assert_eq!(
        pad_string("\u{1b}[31mab\n", 4),
        Ok("\u{1b}[31mab  \u{1b}[0m\n".to_string())
    );
    // With no open style there is nothing to reset.
    assert_eq!(
        pad_string("\u{1b}[31mab\u{1b}[0m\n", 4),
        Ok("\u{1b}[31mab\u{1b}[0m  \n".to_string())
    );
}

#[test]
fn padded_lines_reach_target_width() {
    // Every line of the output measures at least the target width.
    let out = pad_string("a\nbcdefgh\nij", 5).unwrap();
    for line in out.split('\n') {
        assert!(visible_width(line) >= 5 || line.is_empty());
    }
    assert_eq!(out, "a    \nbcdefgh\nij   ");
}

#[test]
fn escape_spans_take_no_columns_when_padding() {
    assert_eq!(
        pad_string("\u{1b}[1mab\u{1b}[0m", 4),
        Ok("\u{1b}[1mab\u{1b}[0m  ".to_string())
    );
}

#[test]
fn tabs_advance_to_the_next_stop() {
    // "a" then a tab reaches column 8, so no padding is needed at 8.
    assert_eq!(pad_string("a\t", 8), Ok("a\t".to_string()));
    assert_eq!(pad_string("a\t", 10), Ok("a\t  ".to_string()));
}

#[test]
fn pad_bytes_round_trips() {
    assert_eq!(pad_bytes(b"ab", 4), Ok(b"ab  ".to_vec()));
    assert_eq!(pad_bytes(&[0xff, 0x41], 4), Err(Error::Utf8));
}

#[test]
fn padding_writer_write_bytes_checks_utf8() {
    let mut w = Writer::new(3);
    assert!(w.write_bytes(b"ok").is_ok());
    assert_eq!(w.write_bytes(&[0x80]), Err(Error::Utf8));
    w.close().unwrap();
    assert_eq!(w.to_string(), Ok("ok ".to_string()));
}

#[test]
fn writer_caches_on_close() {
    let mut w = Writer::new(4);
    w.write_str("ab").unwrap();
    // Nothing snapshotted before the close.
    assert_eq!(w.to_vec(), Vec::<u8>::new());
    w.close().unwrap();
    assert_eq!(w.to_vec(), b"ab  ".to_vec());
    assert_eq!(w.to_string(), Ok("ab  ".to_string()));
}

#[test]
fn writer_zero_width_passes_through() {
    let mut w = Writer::with_capacity(0, 16);
    w.write_str("a\nb").unwrap();
    w.close().unwrap();
    assert_eq!(w.to_string(), Ok("a\nb".to_string()));
}

#[test]
fn piped_writer_appends() {
    let mut sink = BytesMut::new();
    sink.extend_from_slice(b"pre|");
    let mut w = Writer::new_piped(3, sink);
    w.write_str("x\n").unwrap();
    w.close().unwrap();
    assert_eq!(w.to_string(), Ok("pre|x  \n".to_string()));
}
