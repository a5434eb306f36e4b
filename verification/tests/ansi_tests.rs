use television::ansi::{ansi_to_text, color, style};
use television::style::{Color, Modifier, Style};

#[test]
fn color_test() {
    let c = color(b"2;255;255;255").unwrap();
    assert_eq!(c.1, Color::Rgb(255, 255, 255));
    let c = color(b"5;255").unwrap();
    assert_eq!(c.1, Color::Indexed(255));
    let err = color(b"10;255");
    assert_ne!(err, Some(c));
    assert_eq!(err, None);
}

#[test]
fn test_color_reset() {
    let t = ansi_to_text(b"\x1b[33msome arbitrary text\x1b[0m\nmore text");
    assert_eq!(t.lines.len(), 2);
    assert_eq!(t.lines[0].spans.len(), 1);
    assert_eq!(t.lines[0].spans[0].content, "some arbitrary text");
    assert_eq!(t.lines[0].spans[0].style, Style::new().fg(Color::Yellow));
    assert_eq!(t.lines[1].spans.len(), 1);
    assert_eq!(t.lines[1].spans[0].content, "more text");
    assert_eq!(t.lines[1].spans[0].style, Style::default());
}

#[test]
fn test_color_reset_implicit_escape() {
    let t = ansi_to_text(b"\x1b[33msome arbitrary text\x1b[m\nmore text");
    assert_eq!(t.lines.len(), 2);
    assert_eq!(t.lines[0].spans.len(), 1);
    assert_eq!(t.lines[0].spans[0].content, "some arbitrary text");
    assert_eq!(t.lines[0].spans[0].style, Style::new().fg(Color::Yellow));
    assert_eq!(t.lines[1].spans.len(), 1);
    assert_eq!(t.lines[1].spans[0].content, "more text");
    assert_eq!(t.lines[1].spans[0].style, Style::default());
}

#[test]
fn ansi_items_test() {
    let sc = Style::default();
    let t = style(sc, b"\x1b[38;2;3;3;3m").unwrap();
    assert_eq!(t, sc.fg(Color::Rgb(3, 3, 3)));
    assert_eq!(style(sc, b"\x1b[38;5;3m").unwrap(), sc.fg(Color::Indexed(3)));
    assert_eq!(
        style(sc, b"\x1b[38;5;3;48;5;3m").unwrap(),
        sc.fg(Color::Indexed(3)).bg(Color::Indexed(3)),
    );
    assert_eq!(
        style(sc, b"\x1b[38;5;3;48;5;3;1m").unwrap(),
        sc.fg(Color::Indexed(3)).bg(Color::Indexed(3)).add_modifier(Modifier::bold()),
    );
}

#[test]
fn plain_text_single_line() {
    let t = ansi_to_text(b"just plain text");
    assert_eq!(t.lines.len(), 1);
    assert_eq!(t.lines[0].spans.len(), 1);
    assert_eq!(t.lines[0].spans[0].content, "just plain text");
    assert_eq!(t.lines[0].spans[0].style, Style::default());
}

#[test]
fn garbled_escape_is_consumed() {
    // an unterminated escape: consumed up to and including the first
    // alphabetic byte, never shown, never looping
    let t = ansi_to_text(b"\x1b[garbage");
    assert_eq!(t.lines.len(), 1);
    assert_eq!(t.lines[0].spans.len(), 1);
    // the skip stops at the first alphabetic byte ('g'); the rest is text
    assert_eq!(t.lines[0].spans[0].content, "arbage");
    assert_eq!(t.lines[0].spans[0].style, Style::default());

    // a lone escape at the very end costs exactly one byte
    let t2 = ansi_to_text(b"tail\x1b");
    assert_eq!(t2.lines.len(), 1);
    assert_eq!(t2.lines[0].spans.len(), 1);
    assert_eq!(t2.lines[0].spans[0].content, "tail");
}

#[test]
fn osc_sequences_are_discarded() {
    let t = ansi_to_text(b"\x1b]0;window title\x07visible");
    assert_eq!(t.lines.len(), 1);
    assert_eq!(t.lines[0].spans.len(), 1);
    assert_eq!(t.lines[0].spans[0].content, "visible");
}

#[test]
fn background_and_attributes_apply() {
    let t = ansi_to_text(b"\x1b[1;4;41mloud\x1b[49m calm");
    assert_eq!(t.lines.len(), 1);
    assert_eq!(t.lines[0].spans.len(), 2);
    let loud = &t.lines[0].spans[0];
    assert_eq!(loud.content, "loud");
    assert_eq!(loud.style.bg, Some(Color::Red));
    assert!(loud.style.modifiers.contains(Modifier::bold()));
    assert!(loud.style.modifiers.contains(Modifier::underlined()));
    let calm = &t.lines[0].spans[1];
    assert_eq!(calm.content, " calm");
    assert_eq!(calm.style.bg, None);
    assert!(calm.style.modifiers.contains(Modifier::bold()));
}

#[test]
fn crlf_and_trailing_newline() {
    let t = ansi_to_text(b"one\r\ntwo\n");
    assert_eq!(t.lines.len(), 2);
    assert_eq!(t.lines[0].spans[0].content, "one");
    assert_eq!(t.lines[1].spans[0].content, "two");
}

#[test]
fn true_color_and_indexed_roundtrip() {
    let t = ansi_to_text(b"\x1b[38;5;200mpink\x1b[38;2;10;20;30m ink");
    assert_eq!(t.lines[0].spans[0].style.fg, Some(Color::Indexed(200)));
    assert_eq!(t.lines[0].spans[1].style.fg, Some(Color::Rgb(10, 20, 30)));
}
