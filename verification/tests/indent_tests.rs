use reflors::indent::{
    indent_in_place, indent_str, indent_str_v2, IndentOptions, IndentStyle, LineEnding,
};
use std::string::ToString;
use std::time::Instant;

#[test]
fn mod_basic_usage() {
    let input: &str = "One\nTwo\nThree\nFour\nFive";
    let one_tab = IndentOptions::one_tab();
    let two_spaces = IndentOptions::two_spaces();
    let four_spaces = IndentOptions::four_spaces();
    let one_tab_result = indent_str(input, one_tab, false);
    let two_spaces_result = indent_str(input, two_spaces, true);
    let four_spaces_result = indent_str(input, four_spaces, false);
    assert_eq!(one_tab_result, "\tOne\n\tTwo\n\tThree\n\tFour\n\tFive");
    assert_eq!(two_spaces_result, "  One\n  Two\n  Three\n  Four\n  Five");
    assert_eq!(
        four_spaces_result,
        "    One\n    Two\n    Three\n    Four\n    Five"
    );
}

#[test]
fn in_place() {
    let mut text = "One\nTwo\nThree".to_string();
    indent_in_place(&mut text, IndentOptions::one_tab());
    assert_eq!(text, "\tOne\n\tTwo\n\tThree");
}

#[test]
#[allow(clippy::cast_possible_truncation)]
fn compare() {
    let iters: usize = 100_000;
    let text: &str = "One\nTwo\nThree";
    let expected: &str = "\tOne\n\tTwo\n\tThree";

    let strs = vec![text; iters];
    let mut strings = strs.iter().map(ToString::to_string).collect::<Vec<_>>();
    let mut out_strs = vec![""; iters]
        .iter()
        .map(ToString::to_string)
        .collect::<Vec<_>>();
    let opt = IndentOptions::one_tab();

    // ===================================================================================
    // indent_str (unchecked)
    let now = Instant::now();
    for i in 0..iters {
        out_strs[i] = indent_str(strs[i], opt, false);
    }
    let unchecked_elapsed = now.elapsed();

    for (i, text) in out_strs.iter().enumerate() {
        assert_eq!(
            text, expected,
            "unchecked: failure on index {} with text '{}'",
            i, text
        );
    }

    // ===================================================================================
    // indent_in_place
    let now = Instant::now();
    for s in &mut strings {
        indent_in_place(s, opt);
    }
    let in_place_elapsed = now.elapsed();

    for (i, text) in strings.iter().enumerate() {
        assert_eq!(
            text, expected,
            "in place: failure on index {} with text '{}'",
            i, text
        );
    }

    // reset output vector
    for s in &mut out_strs {
        *s = "".to_string();
    }

    // ===================================================================================
    // indent_str (checked)
    let now = Instant::now();
    for i in 0..iters {
        out_strs[i] = indent_str(strs[i], opt, true);
    }
    let checked_elapsed = now.elapsed();

    for (i, text) in out_strs.iter().enumerate() {
        assert_eq!(
            text, expected,
            "checked: failure on index {} with text '{}'",
            i, text
        );
    }

    // reset output vector
    for s in &mut out_strs {
        *s = "".to_string();
    }

    // ===================================================================================
    // indent_str_v2
    let now = Instant::now();
    for i in 0..iters {
        out_strs[i] = indent_str_v2(strs[i], opt);
    }
    let v2_elapsed = now.elapsed();

    for (i, text) in out_strs.iter().enumerate() {
        assert_eq!(
            text, expected,
            "checked: failure on index {} with text '{}'",
            i, text
        );
    }

    let checked_ave = checked_elapsed / iters as u32;
    let unchecked_ave = unchecked_elapsed / iters as u32;
    let in_place_ave = in_place_elapsed / iters as u32;
    let v2_ave = v2_elapsed / iters as u32;

    println!("Using {} iterations...", iters);
    println!(
        "\tindent_str   (checked) took {:?} ({:?} average)",
        checked_elapsed, checked_ave
    );
    println!(
        "\tindent_str (unchecked) took {:?} ({:?} average)",
        unchecked_elapsed, unchecked_ave
    );
    println!(
        "\tindent_in_place        took {:?} ({:?} average)",
        in_place_elapsed, in_place_ave
    );
    println!(
        "\tindent_str_v2          took {:?} ({:?} average)",
        v2_elapsed, v2_ave
    );
}

#[test]
fn checked_skips_existing_indent() {
    let opt = IndentOptions::two_spaces();
    assert_eq!(indent_str("  a\nb", opt, true), "  a\n  b");
    assert_eq!(indent_str("  a\nb", opt, false), "    a\n  b");
}

#[test]
fn windows_line_endings_are_one_break() {
    let opt = IndentOptions::one_tab();
    assert_eq!(indent_str("a\r\nb", opt, false), "\ta\n\tb");
}

#[test]
fn v2_keeps_trailing_newline_indent() {
    let opt = IndentOptions::one_tab();
    assert_eq!(indent_str_v2("a\n", opt), "\ta\n\t");
    assert_eq!(indent_str_v2("", opt), "\t");
}

#[test]
fn options_accessors() {
    let opt = IndentOptions::new(IndentStyle::Tabs, 3, Some(LineEnding::windows()));
    assert_eq!(opt.style(), IndentStyle::Tabs);
    assert_eq!(opt.number(), 3);
    assert_eq!(opt.line_endings(), Some(LineEnding::CarriageReturn));
    assert_eq!(opt.make_indent(), "\t\t\t");
    assert_eq!(opt.get_line_ending("a\nb"), "\r\n");

    let opt = IndentOptions::spaces(2);
    assert_eq!(opt.make_indent(), "  ");
    assert_eq!(opt.get_line_ending("a\r\nb"), "\r\n");
    assert_eq!(opt.get_line_ending("a\nb"), "\n");
}

#[test]
fn style_and_ending_values() {
    assert_eq!(IndentStyle::Spaces.as_char(), ' ');
    assert_eq!(IndentStyle::Tabs.as_char(), '\t');
    assert_eq!(IndentStyle::Spaces.as_str(), " ");
    assert_eq!(IndentStyle::Tabs.as_str(), "\t");
    assert_eq!(LineEnding::posix().as_str(), "\n");
    assert_eq!(LineEnding::windows().as_str(), "\r\n");
    assert_eq!(LineEnding::detect("a\r\nb"), LineEnding::CarriageReturn);
    assert_eq!(LineEnding::detect("a\nb"), LineEnding::Newline);
    assert_eq!(LineEnding::default(), LineEnding::Newline);
    assert_eq!(IndentStyle::default(), IndentStyle::Spaces);
}

#[test]
fn indent_single_lines() {
    let opt = IndentOptions::two_spaces();
    assert_eq!(opt.indent_line("x"), "  x");
    assert_eq!(opt.indent_line("  x"), "  x");
    assert_eq!(opt.indent_line_unchecked("  x"), "    x");
}
