use bpaf::buffer::{Block, Buffer, Token};
use bpaf::manpage::Section;
use bpaf::roff::Roff;

#[test]
fn section_names() {
    assert_eq!(Section::General.as_str(), "1");
    assert_eq!(Section::Sysadmin.as_str(), "8");
    assert_eq!(Section::Custom("3p").as_str(), "3p");
}

#[test]
fn headers_become_upper_case_sections() {
    let mut d = Buffer::default();
    d.token(Token::BlockStart(Block::Header));
    d.text("name");
    d.token(Token::BlockEnd(Block::Header));
    d.text("hi");
    let page = d.render_roff(Roff::new());
    assert_eq!(page, ".ie \\n(.g .ds Aq \\(aq\n.el .ds Aq '\n.SH NAME\n\\fRhi\\fP");
}

#[test]
fn item_terms_are_tagged_paragraphs() {
    let mut d = Buffer::default();
    d.token(Token::BlockStart(Block::ItemTerm));
    d.literal("-v");
    d.token(Token::BlockEnd(Block::ItemTerm));
    let mut roff = Roff::new();
    roff.control("TH", &["app", "1"]);
    let page = d.render_roff(roff);
    assert_eq!(page, ".ie \\n(.g .ds Aq \\(aq\n.el .ds Aq '\n.TH app 1\n.TP\n\\fB\\-v\\fP\n");
}
