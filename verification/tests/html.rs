use bpaf::buffer::{Block, Doc, Token};

#[test]
fn transitions_are_okay() {
    let mut doc = Doc::default();

    doc.emphasis("Usage: "); // bold
    doc.literal("my_program"); // bold + tt

    let r = doc.render_html(true, false);

    assert_eq!(r, "<b>Usage: </b><tt><b>my_program</b></tt>")
}

#[test]
fn markdown_definition_list() {
    let mut doc = Doc::default();
    doc.token(Token::BlockStart(Block::DefinitionList));
    doc.token(Token::BlockStart(Block::ItemTerm));
    doc.literal("-h");
    doc.token(Token::BlockEnd(Block::ItemTerm));
    doc.token(Token::BlockStart(Block::ItemBody));
    doc.text("Prints help");
    doc.token(Token::BlockEnd(Block::ItemBody));
    doc.token(Token::BlockEnd(Block::DefinitionList));
    let r = doc.render_markdown(true);
    assert_eq!(r, "- **`-h`** &mdash; \nPrints help\n\n");
}

#[test]
fn html_definition_list_escapes_angle_brackets() {
    let mut doc = Doc::default();
    doc.token(Token::BlockStart(Block::DefinitionList));
    doc.token(Token::BlockStart(Block::ItemTerm));
    doc.metavar("<FILE>");
    doc.token(Token::BlockEnd(Block::ItemTerm));
    doc.token(Token::BlockStart(Block::ItemBody));
    doc.text("a file");
    doc.token(Token::BlockEnd(Block::ItemBody));
    doc.token(Token::BlockEnd(Block::DefinitionList));
    let r = doc.render_html(true, false);
    assert_eq!(
        r,
        "<dl><dt><tt><i>&lt;FILE&gt;</i></tt></dt>\n<dd>a file</dd>\n</dl>\n"
    );
}

#[test]
fn brief_rendering_stops_at_paragraph() {
    let mut doc = Doc::default();
    doc.text("first\n\nsecond");
    assert_eq!(doc.render_html(false, false), "first");
    assert_eq!(doc.render_html(true, false), "first<br>\nsecond");
    assert_eq!(doc.render_markdown(false), "first");
    assert_eq!(doc.render_markdown(true), "first\n\nsecond");
}

#[test]
fn header_in_markdown() {
    let mut doc = Doc::default();
    doc.text("intro");
    doc.token(Token::BlockStart(Block::Header));
    doc.text("Usage");
    doc.token(Token::BlockEnd(Block::Header));
    assert_eq!(doc.render_markdown(true), "intro\n\n# Usage\n");
    assert_eq!(doc.render_html(true, false), "intro<br>\n# Usage<br>\n");
}
