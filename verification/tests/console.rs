use bpaf::buffer::{Block, Buffer, Style, Token};
use bpaf::complete_gen::ShortLong;
use bpaf::console::{color_for_support, Color};

#[test]
fn line_breaking_rules() {
    let mut buffer = Buffer::default();
    buffer.write_str("hello ", Style::Text);
    assert_eq!(buffer.monochrome(true), "hello ");
    buffer.clear();

    buffer.write_str("hello\n world\n", Style::Text);
    assert_eq!(buffer.monochrome(true), "hello\nworld ");
    buffer.clear();

    buffer.write_str("hello\nworld", Style::Text);
    assert_eq!(buffer.monochrome(true), "hello world");
    buffer.clear();

    buffer.write_str("hello\nworld\n", Style::Text);
    assert_eq!(buffer.monochrome(true), "hello world ");
    buffer.clear();

    buffer.write_str("hello\n\nworld", Style::Text);
    assert_eq!(buffer.monochrome(false), "hello\n");
    buffer.clear();

    buffer.write_str("hello\n\nworld", Style::Text);
    assert_eq!(buffer.monochrome(true), "hello\nworld");
    buffer.clear();
}

#[test]
fn item_bodies_line_up_after_the_term() {
    let mut m = Buffer::default();
    m.token(Token::BlockStart(Block::ItemTerm));
    m.literal("-a");
    m.token(Token::BlockEnd(Block::ItemTerm));
    m.token(Token::BlockStart(Block::ItemBody));
    m.text("help");
    m.token(Token::BlockEnd(Block::ItemBody));
    assert_eq!(m.monochrome(true), "    -a  help");
}

#[test]
fn term_references_are_quoted_in_monochrome() {
    let mut m = Buffer::default();
    m.text("see ");
    m.token(Token::BlockStart(Block::TermRef));
    m.literal("--help");
    m.token(Token::BlockEnd(Block::TermRef));
    assert_eq!(m.monochrome(true), "see `--help`");
    assert_eq!(m.render_console(true, Color::Dull, 100), "see \u{1b}[1m--help\u{1b}[0m");
}

#[test]
fn long_lines_wrap() {
    let mut m = Buffer::default();
    m.text("aaaa bbbb cccc");
    assert_eq!(m.render_console(true, Color::Monochrome, 9), "aaaa bbbb\ncccc");
}

#[test]
fn blocks_are_separated_by_blank_lines() {
    let mut m = Buffer::default();
    m.token(Token::BlockStart(Block::Block));
    m.text("one");
    m.token(Token::BlockEnd(Block::Block));
    m.token(Token::BlockStart(Block::Block));
    m.text("two");
    m.token(Token::BlockEnd(Block::Block));
    assert_eq!(m.monochrome(true), "one\n\ntwo\n");
}

#[test]
fn colors_decorate_styles() {
    let mut s = String::new();
    Color::Dull.push_str(Style::Literal, &mut s, "x");
    assert_eq!(s, "\u{1b}[1mx\u{1b}[0m");
    let mut s = String::new();
    Color::Dull.push_str(Style::Invalid, &mut s, "x");
    assert_eq!(s, "\u{1b}[31m\u{1b}[1mx\u{1b}[0m\u{1b}[39m");
    let mut s = String::new();
    Color::Bright.push_str(Style::Metavar, &mut s, "x");
    assert_eq!(s, "\u{1b}[1m\u{1b}[34mx\u{1b}[39m\u{1b}[0m");
    let mut s = String::new();
    Color::Monochrome.push_str(Style::Invalid, &mut s, "x");
    assert_eq!(s, "x");
}

#[test]
fn names_are_written_as_typed_literals() {
    let mut m = Buffer::default();
    m.write_shortlong(&ShortLong::Short('v'));
    m.text(" ");
    m.write_shortlong(&ShortLong::Both('v', "verbose".to_string()));
    m.text(" ");
    m.write_shortlong(&ShortLong::Long("quiet".to_string()));
    assert_eq!(m.monochrome(true), "-v --verbose --quiet");
    assert_eq!(m.token_count(), 5);
    assert_eq!(m.token_at(0), Token::Text { len: 2, style: Style::Literal });
}

#[test]
fn colors_need_both_streams() {
    assert_eq!(color_for_support(true, true), Color::Dull);
    assert_eq!(color_for_support(true, false), Color::Monochrome);
    assert_eq!(color_for_support(false, true), Color::Monochrome);
    assert_eq!(color_for_support(false, false), Color::Monochrome);
}
