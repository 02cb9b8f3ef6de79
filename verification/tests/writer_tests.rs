use bytes::BytesMut;
use reflors::ansi::writer::Writer;

#[test]
fn writer_basic_usage() {
    let mut writer = Writer::new(BytesMut::with_capacity(25));
    assert_eq!(writer.write_str("Hello World!").unwrap(), 12);
    let vec = writer.into_inner().to_vec();
    assert_eq!(String::from_utf8(vec), Ok("Hello World!".to_string()));
}

#[test]
fn write() {
    let text = "\x1B[38;2;249;38;114m你好reflow\x1B[0m";
    let buffer = BytesMut::new();
    let mut writer = Writer::new(buffer);
    let result = writer.write_str(text);
    assert!(result.is_ok());
    assert_eq!(result.unwrap(), text.len());
}

#[test]
fn writer_from() {
    // Works with Vec<u8>
    let writer = Writer::from_vec(Vec::<u8>::new());
    let _ = writer;
    // Works with String
    let writer = Writer::from_string(String::new());
    let _ = writer;
    // Works with BytesMut
    let writer = Writer::from_bytes(BytesMut::new());
    let _ = writer;
}

#[test]
fn forwards_everything_in_order() {
    let mut w = Writer::new(BytesMut::new());
    w.write_str("\u{1b}[1mab\u{1b}[0mc").unwrap();
    assert_eq!(w.into_string(), Ok("\u{1b}[1mab\u{1b}[0mc".to_string()));
}

#[test]
fn style_restoration_round_trip() {
    // A color span, then a reset, then a restore: the restore re-emits the
    // span byte for byte, because the reset keeps the remembered style.
    let mut w = Writer::new(BytesMut::new());
    w.write_str("\u{1b}[31mhi").unwrap();
    assert_eq!(w.last_sequence(), Ok("\u{1b}[31m".to_string()));
    w.reset_ansi().unwrap();
    assert_eq!(w.last_sequence(), Ok("\u{1b}[31m".to_string()));
    w.restore_ansi().unwrap();
    assert_eq!(
        w.into_string(),
        Ok("\u{1b}[31mhi\u{1b}[0m\u{1b}[31m".to_string())
    );
}

#[test]
fn reset_is_noop_without_style() {
    let mut w = Writer::new(BytesMut::new());
    w.write_str("plain").unwrap();
    w.reset_ansi().unwrap();
    assert_eq!(w.into_string(), Ok("plain".to_string()));
}

#[test]
fn reset_span_clears_remembered_style() {
    let mut w = Writer::new(BytesMut::new());
    w.write_str("\u{1b}[35mx\u{1b}[0m").unwrap();
    assert_eq!(w.last_sequence(), Ok(String::new()));
    w.restore_ansi().unwrap();
    assert_eq!(w.into_string(), Ok("\u{1b}[35mx\u{1b}[0m".to_string()));
}

#[test]
fn non_sgr_span_keeps_style() {
    // A cursor-movement span (terminator other than 'm') passes through
    // and does not become the remembered style.
    let mut w = Writer::new(BytesMut::new());
    w.write_str("\u{1b}[31ma\u{1b}[2Kb").unwrap();
    assert_eq!(w.last_sequence(), Ok("\u{1b}[31m".to_string()));
    assert_eq!(w.into_string(), Ok("\u{1b}[31ma\u{1b}[2Kb".to_string()));
}

#[test]
fn unterminated_span_is_withheld() {
    let mut w = Writer::new(BytesMut::new());
    w.write_str("ab\u{1b}[3").unwrap();
    assert_eq!(w.into_string(), Ok("ab".to_string()));
}

#[test]
fn write_bytes_decodes_first() {
    let mut w = Writer::new(BytesMut::new());
    assert_eq!(w.write_bytes("héllo".as_bytes()).unwrap(), 6);
    assert!(w.write_bytes(&[0xff, 0x00]).is_err());
    assert_eq!(w.into_string(), Ok("héllo".to_string()));
}

#[test]
fn flush_succeeds() {
    let mut w = Writer::new(BytesMut::new());
    w.write_str("x").unwrap();
    assert!(w.flush_writer().is_ok());
    assert_eq!(w.into_string(), Ok("x".to_string()));
}
