use reflors::dedent::{dedent_in_place, dedent_str, dedent_string};

#[test]
fn basic_spaces() {
    let text: &str = r#"    Blah blah blah blah blah blah blah blah 
     blah blah blah blah blah blah 
      blah blah blah blah blah blah blah blah 
    blah blah blah blah blah 
        blah blah blah blah blah blah "#;
    let output = dedent_str(text).unwrap();
    let output2 = dedent_string(text.to_string()).unwrap();
    assert_eq!(
        output,
        r#"Blah blah blah blah blah blah blah blah 
 blah blah blah blah blah blah 
  blah blah blah blah blah blah blah blah 
blah blah blah blah blah 
    blah blah blah blah blah blah "#
    );
    assert_eq!(
        output2,
        r#"Blah blah blah blah blah blah blah blah 
 blah blah blah blah blah blah 
  blah blah blah blah blah blah blah blah 
blah blah blah blah blah 
    blah blah blah blah blah blah "#
    );
    assert_eq!(output, output2);
}

#[test]
fn basic_tabs() {
    let text: &str = "\tBlah blah blah blah blah blah blah blah\n\tblah blah blah blah blah blah\n\tblah blah blah blah blah blah blah blah\n\tblah blah blah blah blah\n\tblah blah blah blah blah blah";
    let expected: &str = "Blah blah blah blah blah blah blah blah\nblah blah blah blah blah blah\nblah blah blah blah blah blah blah blah\nblah blah blah blah blah\nblah blah blah blah blah blah";
    let output = dedent_str(text).unwrap();
    let output2 = dedent_string(text.to_string()).unwrap();
    assert_eq!(output, expected);
    assert_eq!(output2, expected);
    assert_eq!(output, output2);
}

#[test]
fn no_detected_indent_is_kept() {
    assert_eq!(dedent_str("a\nb"), Ok("a\nb".to_string()));
    assert_eq!(dedent_str(""), Ok("".to_string()));
    // A line with no leading whitespace does not stop the detection on the
    // lines that have one.
    assert_eq!(dedent_str("a\n  b"), Ok("a\nb".to_string()));
}

#[test]
fn in_place_matches() {
    let mut text = "  one\n    two".to_string();
    dedent_in_place(&mut text).unwrap();
    assert_eq!(text, "one\n  two");
}
