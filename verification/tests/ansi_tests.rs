use reflors::ansi::{is_terminator, strip_ansi, visible_width};
use reflors::vis::Viserator;

#[test]
fn terminator_tester() {
    for u in 0x40..=0x5au8 {
        assert!(is_terminator(u as char));
    }
    for u in 0x61..=0x7au8 {
        assert!(is_terminator(u as char));
    }
}

#[test]
fn terminator_rejects_others() {
    assert!(!is_terminator('\u{1b}'));
    assert!(!is_terminator('['));
    assert!(!is_terminator('0'));
    assert!(!is_terminator(';'));
    assert!(!is_terminator('\n'));
    assert!(is_terminator('m'));
}

#[test]
fn width_duality_plain_vs_styled() {
    // Wrapping plain text in complete escape spans leaves the width alone.
    assert_eq!(visible_width("Hello!"), 6);
    assert_eq!(visible_width("\u{1b}[1;4;38;2;255;255mHello!\u{1b}[0m"), 6);
    assert_eq!("\u{1b}[1;4;38;2;255;255mHello!\u{1b}[0m".len(), 29);
}

#[test]
fn tab_and_newline_column_tracking() {
    // "ab" reaches column 2, the tab advances to the next multiple of 8,
    // and "c" lands on 9.
    assert_eq!(visible_width("ab\tc"), 9);
    assert_eq!(visible_width("\t"), 8);
    assert_eq!(visible_width("12345678\t"), 16);
    // A newline resets the column.
    assert_eq!(visible_width("abcdef\nxy"), 2);
    assert_eq!(visible_width("abc\n"), 0);
}

#[test]
fn malformed_trailing_escape_counts_nothing() {
    // An unterminated span contributes zero width and is swallowed.
    assert_eq!(visible_width("ab\u{1b}["), 2);
    assert_eq!(visible_width("ab\u{1b}[31;"), 2);
    assert_eq!(strip_ansi("ab\u{1b}["), "ab");
}

#[test]
fn strip_ansi_removes_spans() {
    assert_eq!(strip_ansi("\u{1b}[1mHi\u{1b}[0m"), "Hi");
    assert_eq!(strip_ansi("plain"), "plain");
    assert_eq!(strip_ansi(""), "");
    assert_eq!(strip_ansi("\u{1b}[38;2;249;38;114mred\u{1b}[0m end"), "red end");
}

#[test]
fn viserator_yields_visible_chars() {
    let mut it = Viserator::new("\u{1b}[31mab\u{1b}[0mc");
    assert_eq!(it.next(), Some('a'));
    assert_eq!(it.next(), Some('b'));
    assert_eq!(it.next(), Some('c'));
    assert_eq!(it.next(), None);
    assert_eq!(it.next(), None);
}

#[test]
fn viserator_collects_remaining() {
    let mut it = Viserator::new("x\u{1b}[1my\u{1b}[");
    assert_eq!(it.next(), Some('x'));
    let rest = it.collect_visible();
    assert_eq!(rest, vec!['y']);
    assert_eq!(it.next(), None);
}

#[test]
fn viserator_restartable() {
    let input = "\u{1b}[7ma\u{1b}[0mb";
    let mut first = Viserator::new(input);
    let mut second = Viserator::new(input);
    assert_eq!(first.collect_visible(), second.collect_visible());
}
