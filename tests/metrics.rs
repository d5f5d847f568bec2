use line_counter::metrics::count_text;

#[test]
fn empty_text_counts_nothing() {
    for skip in [false, true] {
        let m = count_text("", skip);
        assert_eq!((m.lines, m.characters, m.words), (0, 0, 0));
    }
}

#[test]
fn trailing_line_feed_adds_no_line() {
    assert_eq!(count_text("a\nb\n", false).lines, 2);
    assert_eq!(count_text("a\nb", false).lines, 2);
}

#[test]
fn every_character_counts() {
    let m = count_text("a\tb\nc\u{0}\u{1}é", false);
    assert_eq!(m.characters, 8);
}

#[test]
fn skipping_blank_lines() {
    let t = "a\n\n  \nb";
    assert_eq!(count_text(t, false).lines, 4);
    assert_eq!(count_text(t, true).lines, 2);
}

#[test]
fn word_count_is_whitespace_less_blank_lines() {
    // five whitespace characters, two blank lines
    let m = count_text("a\n\n  \nb", false);
    assert_eq!(m.words, 3);
    assert_eq!(m.characters, 7);
}

#[test]
fn only_blank_lines_give_no_words() {
    let m = count_text("\n\n", false);
    assert_eq!((m.lines, m.characters, m.words), (2, 2, 0));
    assert_eq!(count_text("\n\n", true).lines, 0);
}

#[test]
fn whitespace_only_line_without_line_feed() {
    let m = count_text("   ", true);
    assert_eq!((m.lines, m.characters, m.words), (0, 3, 2));
    assert_eq!(count_text("   ", false).lines, 1);
}

#[test]
fn carriage_return_line_feed() {
    let m = count_text("a\r\nb", false);
    assert_eq!((m.lines, m.characters, m.words), (2, 4, 2));
}

#[test]
fn unicode_whitespace_counts_as_whitespace() {
    let m = count_text("a\u{3000}b c", false);
    assert_eq!((m.lines, m.characters, m.words), (1, 5, 2));
    let blank = count_text("x\n\u{a0}\u{2003}\ny", true);
    assert_eq!(blank.lines, 2);
}

#[test]
fn lone_carriage_return_is_no_line_break() {
    assert_eq!(count_text("a\rb", false).lines, 1);
}
