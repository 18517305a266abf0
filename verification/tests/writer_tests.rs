use assert2::styles::Color;
use assert2::styles::Style;
use assert2::writer::Snippet;
use assert2::writer::WrappingWriter;

#[test]
fn styles_are_applied() {
    let mut writer = WrappingWriter::new(20, true);
    writer.write_snippet(&Snippet::new("Hello").style(Style::plain().with_fg(Color::Yellow)));
    writer.write_snippet(&Snippet::new(" "));
    writer.write_snippet(&Snippet::new("dear").undercurl(Style::plain().with_fg(Color::Red).bold()));
    writer.write_snippet(&Snippet::new("!"));
    let buffer = writer.finish();
    assert_eq!(buffer, "\u{1b}[33mHello\u{1b}[0m dear!\n      \u{1b}[1;31m^^^^\u{1b}[0m\n");
}

#[test]
fn styles_are_stripped() {
    let mut writer = WrappingWriter::new(20, false);
    writer.write_snippet(&Snippet::new("Hello").style(Style::plain().with_fg(Color::Yellow)));
    writer.write_snippet(&Snippet::new(" "));
    writer.write_snippet(&Snippet::new("dear").undercurl(Style::plain().with_fg(Color::Red).bold()));
    writer.write_snippet(&Snippet::new("!"));
    let buffer = writer.finish();
    assert_eq!(buffer, "Hello dear!\n      ^^^^\n");
}

#[test]
fn drop_flushes_unflushed() {
    let mut writer = WrappingWriter::new(20, true);
    writer.write_snippet(&Snippet::new("Hello"));
    writer.write_snippet(&Snippet::new(" "));
    writer.write_snippet(&Snippet::new("dear").undercurl(Style::plain()));
    writer.write_snippet(&Snippet::new(" "));
    writer.write_snippet(&Snippet::new("world").undercurl(Style::plain()));
    writer.write_snippet(&Snippet::new("!"));
    let buffer = writer.finish();
    assert_eq!(buffer, "Hello dear world!\n      ^^^^ ^^^^^\n");
}

#[test]
fn drop_doesnt_flush_flushed_line() {
    let mut writer = WrappingWriter::new(20, true);
    writer.write_snippet(&Snippet::new("Hello"));
    writer.write_snippet(&Snippet::new(" "));
    writer.write_snippet(&Snippet::new("dear").undercurl(Style::plain()));
    writer.write_snippet(&Snippet::new(" "));
    writer.write_snippet(&Snippet::new("world").undercurl(Style::plain()));
    writer.write_snippet(&Snippet::new("!"));
    writer.flush_line();
    let buffer = writer.finish();
    assert_eq!(buffer, "Hello dear world!\n      ^^^^ ^^^^^\n");
}

#[test]
fn exceeding_line_length_flushes_line() {
    let mut writer = WrappingWriter::new(20, true);
    writer.write_snippet(&Snippet::new("four"));
    writer.write_snippet(&Snippet::new(" "));
    writer.write_snippet(&Snippet::new("four").undercurl(Style::plain()));
    writer.write_snippet(&Snippet::new(" "));
    writer.write_snippet(&Snippet::new("four"));
    writer.write_snippet(&Snippet::new(" "));
    writer.write_snippet(&Snippet::new("four").undercurl(Style::plain()));
    writer.write_snippet(&Snippet::new(" "));
    writer.write_snippet(&Snippet::new("four").undercurl(Style::plain()));
    writer.write_snippet(&Snippet::new("!"));
    let buffer = writer.finish();
    assert_eq!(buffer, "four four four four \n     ^^^^      ^^^^\nfour!\n^^^^\n");
}

#[test]
fn newline_flushes_line() {
    let mut writer = WrappingWriter::new(20, true);
    writer.write_snippet(&Snippet::new("four"));
    writer.write_snippet(&Snippet::new(" "));
    writer.write_snippet(&Snippet::new("four").undercurl(Style::plain()));
    writer.write_snippet(&Snippet::new(" "));
    writer.write_snippet(&Snippet::new("four\n"));
    writer.write_snippet(&Snippet::new(" "));
    writer.write_snippet(&Snippet::new("four").undercurl(Style::plain()));
    writer.write_snippet(&Snippet::new(" "));
    writer.write_snippet(&Snippet::new("four").undercurl(Style::plain()));
    writer.write_snippet(&Snippet::new("!"));
    let buffer = writer.finish();
    assert_eq!(buffer, "four four four\n     ^^^^\n four four!\n ^^^^ ^^^^\n");
}

#[test]
fn indentation_is_reapplied_after_wrapping() {
    let mut writer = WrappingWriter::new(10, false);
    writer.set_indent(2);
    writer.write("aaaa bbbb cccc");
    let buffer = writer.finish();
    assert_eq!(buffer, "  aaaa bbbb \n  cccc\n");
}

#[test]
fn tab_counts_as_four_cells() {
    let mut writer = WrappingWriter::new(8, false);
    writer.write("\t\taa");
    let buffer = writer.finish();
    assert_eq!(buffer, "\t\t\naa\n");
}

#[test]
fn wide_characters_count_two_cells() {
    let mut writer = WrappingWriter::new(4, false);
    writer.write("\u{4f60}\u{597d}x");
    let buffer = writer.finish();
    assert_eq!(buffer, "\u{4f60}\u{597d}\nx\n");
}
