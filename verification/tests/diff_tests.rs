use assert2::diffing::LineDiff;
use assert2::diffing::MultiLineDiff;
use assert2::diffing::SingleLineDiff;
use assert2::words::split_words;
use assert2::writer::WrappingWriter;

#[test]
fn split_words_camel_case() {
    let words = split_words("camelCase");
    assert_eq!(words, vec!["camel".to_owned(), "Case".to_owned()]);
}

#[test]
fn split_words_mixed_runs() {
    let words = split_words("foo_bar 1.5");
    assert_eq!(
        words,
        vec![
            "foo".to_owned(),
            "_".to_owned(),
            "bar".to_owned(),
            " ".to_owned(),
            "1".to_owned(),
            ".".to_owned(),
            "5".to_owned(),
        ],
    );
}

#[test]
fn split_words_empty() {
    let words = split_words("");
    assert_eq!(words.len(), 0);
}

#[test]
fn self_diff_renders_whole_line_unhighlighted() {
    let diff = SingleLineDiff::new("some line of text", "some line of text");
    let mut writer = WrappingWriter::new(1000, true);
    diff.write_left(&mut writer);
    let buffer = writer.finish();
    // The whole line is written once, in the normal (cyan) style: nothing is
    // highlighted when a line is diffed against itself.
    assert_eq!(buffer, "\u{1b}[36msome line of text\u{1b}[0m\n");
}

#[test]
fn word_diff_round_trip_left_and_right() {
    let diff = SingleLineDiff::new("hello brave world", "hello small world");
    let mut writer = WrappingWriter::new(1000, false);
    diff.write_left(&mut writer);
    let buffer = writer.finish();
    assert_eq!(buffer, "hello brave world\n");
    let mut writer = WrappingWriter::new(1000, false);
    diff.write_right(&mut writer);
    let buffer = writer.finish();
    assert_eq!(buffer, "hello small world\n");
}

#[test]
fn word_diff_highlights_only_the_difference() {
    let diff = SingleLineDiff::new("abc x", "abc y");
    let mut writer = WrappingWriter::new(1000, true);
    diff.write_left(&mut writer);
    let buffer = writer.finish();
    // "abc " is common (normal cyan), "x" is left-only (black on cyan, bold).
    assert_eq!(buffer, "\u{1b}[36mabc \u{1b}[0m\u{1b}[1;30;46mx\u{1b}[0m\n");
}

#[test]
fn line_diff_merges_lone_replacement() {
    let diff = MultiLineDiff::new("a\nb\nc", "a\nX\nc");
    let diffs = diff.line_diffs();
    assert_eq!(diffs.len(), 3);
    match &diffs[0] {
        LineDiff::Equal(t) => assert_eq!(t, "a"),
        _ => panic!("expected an equal line"),
    }
    match &diffs[1] {
        LineDiff::Different(l, r) => {
            assert_eq!(l, "b");
            assert_eq!(r, "X");
        },
        _ => panic!("expected a changed pair"),
    }
    match &diffs[2] {
        LineDiff::Equal(t) => assert_eq!(t, "c"),
        _ => panic!("expected an equal line"),
    }
}

#[test]
fn line_diff_unmerges_one_to_two_replacement() {
    let diff = MultiLineDiff::new("a\nb\nc", "a\nX\nY\nc");
    let diffs = diff.line_diffs();
    assert_eq!(diffs.len(), 5);
    assert!(matches!(&diffs[0], LineDiff::Equal(t) if t == "a"));
    assert!(matches!(&diffs[1], LineDiff::LeftOnly(t) if t == "b"));
    assert!(matches!(&diffs[2], LineDiff::RightOnly(t) if t == "X"));
    assert!(matches!(&diffs[3], LineDiff::RightOnly(t) if t == "Y"));
    assert!(matches!(&diffs[4], LineDiff::Equal(t) if t == "c"));
}

#[test]
fn line_diff_interleaved_rendering() {
    let diff = MultiLineDiff::new("a\nb\nc", "a\nB\nc");
    let mut writer = WrappingWriter::new(1000, false);
    diff.write_interleaved(&mut writer);
    let buffer = writer.finish();
    assert_eq!(buffer, "  a\n< b\n> B\n  c\n");
}

#[test]
fn highlight_ratio_counts_bytes() {
    // The changed word dominates the line in bytes (six of eight), so the
    // dense-highlighting heuristic renders the whole line in the normal
    // style instead of piecewise.
    let diff = SingleLineDiff::new("a \u{e9}\u{e9}\u{e9}", "a zzz");
    let mut writer = WrappingWriter::new(1000, true);
    diff.write_left(&mut writer);
    let buffer = writer.finish();
    assert_eq!(buffer, "\u{1b}[36ma \u{e9}\u{e9}\u{e9}\u{1b}[0m\n");
}
