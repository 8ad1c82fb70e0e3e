use bpaf::roff::{Apostrophes, Font, Roff};

const NO_AP: Apostrophes = Apostrophes::DontHandle;

#[test]
fn escape_dash_in_plaintext() {
    let text = Roff::default().plaintext("-").render(NO_AP);
    assert_eq!(r"\-", text);
}

#[test]
fn escape_backslash_in_plaintext() {
    let text = Roff::default().plaintext(r"\x").render(NO_AP);
    assert_eq!(r"\\x", text);
}

#[test]
fn escape_backslash_and_dash_in_plaintext() {
    let text = Roff::default().plaintext(r"\-").render(NO_AP);
    assert_eq!(r"\\\-", text);
}

#[test]
fn escapes_leading_control_chars_and_space_in_plaintext() {
    let text = Roff::default()
        .plaintext("foo\n.bar\n'yo\n hmm")
        .render(NO_AP);
    assert_eq!("foo\n\\&.bar\n\\&'yo\n hmm", text);
}

#[test]
fn escape_plain_in_plaintext() {
    let text = Roff::default().plaintext("abc").render(NO_AP);
    assert_eq!("abc", text);
}

#[test]
fn render_dash_in_plaintext() {
    let text = Roff::default().plaintext("foo-bar").render(NO_AP);
    assert_eq!("foo\\-bar", text);
}

#[test]
fn render_dash_in_font() {
    let text = Roff::default()
        .text(&[(Font::Roman, "foo-bar")])
        .render(NO_AP);
    assert_eq!(text, "\\fRfoo\\-bar\\fP");
}

#[test]
fn render_roman() {
    let text = Roff::default().text(&[(Font::Roman, "foo")]).render(NO_AP);
    assert_eq!("\\fRfoo\\fP", text);
}

#[test]
fn render_italic() {
    let text = Roff::default().text(&[(Font::Italic, "foo")]).render(NO_AP);
    assert_eq!("\\fIfoo\\fP", text);
}

#[test]
fn render_bold() {
    let text = Roff::default().text(&[(Font::Bold, "foo")]).render(NO_AP);
    assert_eq!("\\fBfoo\\fP", text);
}

#[test]
fn render_text_roman() {
    let text = Roff::default()
        .text(&[(Font::Roman, "roman")])
        .render(NO_AP);
    assert_eq!("\\fRroman\\fP", text);
}

#[test]
fn render_text_with_leading_period() {
    let text = Roff::default()
        .text(&[(Font::Roman, ".roman")])
        .render(NO_AP);
    assert_eq!("\\fR.roman\\fP", text);
}

#[test]
fn render_text_with_newline_period() {
    let text = Roff::default()
        .text(&[(Font::Roman, "foo\n.roman")])
        .render(NO_AP);
    assert_eq!(text, "\\fRfoo\n\\&.roman\\fP");
}

#[test]
fn render_line_break() {
    let text = Roff::default()
        .text(&[(Font::Roman, "roman\n")])
        .control("br", &[])
        .text(&[(Font::Roman, "more\n")])
        .render(NO_AP);
    assert_eq!(text, "\\fRroman\n\\fP\n.br\n\\fRmore\n\\fP");
}

#[test]
fn render_control() {
    let text = Roff::default()
        .control("foo", &["bar", "foo and bar"])
        .render(NO_AP);
    assert_eq!(".foo bar foo\\ and\\ bar\n", text);
}

#[test]
fn twice_bold() {
    let text = Roff::default()
        .text(&[
            (Font::Bold, "bold,"),
            (Font::Roman, " more bold"),
            (Font::Bold, " and more bold"),
        ])
        .render(NO_AP);

    assert_eq!(text, "\\fBbold,\\fR more bold\\fB and more bold\\fP");
}

#[test]
fn multiple_controls() {
    let text = Roff::default()
        .control("br", &[])
        .control0("br")
        .control("br", &[])
        .render(NO_AP);
    assert_eq!(".br\n.br\n.br\n", text);
}

#[test]
fn apostrophes_are_defined_in_a_preamble() {
    let text = Roff::default().plaintext("it's").render(Apostrophes::Handle);
    assert_eq!(".ie \\n(.g .ds Aq \\(aq\n.el .ds Aq '\nit\\*(Aqs", text);
}

#[test]
fn empty_control_argument_is_quoted() {
    let text = Roff::default().control("TH", &["app", ""]).render(NO_AP);
    assert_eq!(".TH app \"\"\n", text);
}

#[test]
fn stripped_newlines_become_spaces() {
    let text = Roff::default()
        .strip_newlines(true)
        .plaintext("a\nb")
        .render(NO_AP);
    assert_eq!("a b", text);
}

#[test]
fn documents_concatenate() {
    let mut a = Roff::default();
    a.plaintext("a");
    let mut b = Roff::default();
    b.control0("br");
    let text = a.add(&b).render(NO_AP);
    assert_eq!("a\n.br\n", text);
}
