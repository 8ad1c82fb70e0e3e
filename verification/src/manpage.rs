//! Rendering of documents as manual pages in ROFF.

use crate::buffer::{Block, Doc, Style, Token};
use crate::html::token_len;
use crate::roff::{control_frags, font_escape, render_frags, restore_font, Apostrophes, Escape, Font, Roff};
use crate::text::{chars_string, str_chars};
use vstd::prelude::*;

verus! {

/// Manual page section
#[derive(Debug, Clone, Copy)]
pub enum Section<'a> {
    /// General commands
    General,
    /// System calls
    SystemCall,
    /// Library functions such as C standard library functions
    LibraryFunction,
    /// Special files (usually devices in /dev) and drivers
    SpecialFile,
    /// File formats and conventions
    FileFormat,
    /// Games and screensavers
    Game,
    /// Miscellaneous
    Misc,
    /// System administration commands and daemons
    Sysadmin,
    /// Custom section
    Custom(&'a str),
}

impl Section<'_> {
    /// Name of the section as the `TH` macro takes it
    pub fn as_str(&self) -> (r: &str)
        ensures
            r@ == (match self {
                Section::General => "1"@,
                Section::SystemCall => "2"@,
                Section::LibraryFunction => "3"@,
                Section::SpecialFile => "4"@,
                Section::FileFormat => "5"@,
                Section::Game => "6"@,
                Section::Misc => "7"@,
                Section::Sysadmin => "8"@,
                Section::Custom(s) => s@,
            }),
    {
        match self {
            Section::General => "1",
            Section::SystemCall => "2",
            Section::LibraryFunction => "3",
            Section::SpecialFile => "4",
            Section::FileFormat => "5",
            Section::Game => "6",
            Section::Misc => "7",
            Section::Sysadmin => "8",
            Section::Custom(s) => s,
        }
    }
}

/// Font a style is shown in.
pub open spec fn font_of(style: Style) -> Font {
    match style {
        Style::Text | Style::Muted => Font::Roman,
        Style::Emphasis | Style::Literal => Font::Bold,
        Style::Metavar | Style::Invalid => Font::Italic,
    }
}

impl From<Style> for Font {
    fn from(value: Style) -> (r: Self) {
        match value {
            Style::Text | Style::Muted => Font::Roman,
            Style::Emphasis | Style::Literal => Font::Bold,
            Style::Metavar | Style::Invalid => Font::Italic,
        }
    }
}

impl vstd::std_specs::convert::FromSpecImpl<Style> for Font {
    open spec fn obeys_from_spec() -> bool {
        true
    }

    open spec fn from_spec(value: Style) -> Self {
        font_of(value)
    }
}

/// What `str::to_uppercase` makes of a text.
pub uninterp spec fn uppercase(s: Seq<char>) -> Seq<char>;

/// Upper case form of a text.
///
/// Trusted: calls `str::to_uppercase`; the result is named, not described: it is determined
/// by the text.
#[verifier::external_body]
fn to_uppercase(s: &str) -> (r: String)
    ensures
        r@ == uppercase(s@),
{
    s.to_uppercase()
}

/// Roff rendering state: the fragments so far, whether newlines are stripped, and the title
/// being captured, if one is.
pub struct RoffState {
    pub frags: Seq<(Seq<char>, Escape)>,
    pub stripping: bool,
    pub capture: Seq<char>,
    pub capturing: bool,
}

/// Escape of plain text.
pub open spec fn plain_of(stripping: bool) -> Escape {
    if stripping {
        Escape::SpecialNoNewline
    } else {
        Escape::Special
    }
}

/// Fragments of a piece of text in a font.
pub open spec fn font_text(font: Font, t: Seq<char>, plain: Escape) -> Seq<(Seq<char>, Escape)> {
    seq![(font_escape(font), Escape::Unescaped), (t, plain), (restore_font(), Escape::Unescaped)]
}

/// A control line without arguments.
pub open spec fn control0_frags(name: Seq<char>) -> Seq<(Seq<char>, Escape)> {
    seq![("."@, Escape::UnescapedAtNewline), (name, Escape::Unescaped), (""@, Escape::UnescapedAtNewline)]
}

/// A control line with one argument.
pub open spec fn control1_frags(name: Seq<char>, arg: Seq<char>) -> Seq<(Seq<char>, Escape)> {
    seq![
        ("."@, Escape::UnescapedAtNewline),
        (name, Escape::Unescaped),
        (" "@, Escape::Unescaped),
        (if arg.len() == 0 { "\"\""@ } else { arg }, Escape::Spaces),
        (""@, Escape::UnescapedAtNewline),
    ]
}

/// One token of roff rendering; `input` is the text of a text token. Titles of headers and
/// sections are captured and become `.SH` and `.SS` lines in upper case, item terms are
/// `.TP` paragraphs, blocks start with `.PP` and usage is not filled.
pub open spec fn roff_token(t: Token, input: Seq<char>, st: RoffState) -> RoffState {
    match t {
        Token::Text { style, .. } => if st.capturing {
            RoffState { capture: st.capture + input, ..st }
        } else {
            let ss = if style == Style::Emphasis { control0_frags("SS"@) } else { Seq::empty() };
            RoffState { frags: st.frags + ss + font_text(font_of(style), input, plain_of(st.stripping)), ..st }
        },
        Token::BlockStart(b) => match b {
            Block::Header | Block::Section2 | Block::Section3 => RoffState { capturing: true, ..st },
            Block::ItemTerm => RoffState { frags: st.frags + control0_frags("TP"@), stripping: true, ..st },
            Block::Block => RoffState { frags: st.frags + control0_frags("PP"@), ..st },
            Block::Meta => RoffState { frags: st.frags + control0_frags("nf"@), ..st },
            _ => st,
        },
        Token::BlockEnd(b) => match b {
            Block::Header => RoffState {
                frags: st.frags + control1_frags("SH"@, uppercase(st.capture)),
                capturing: false,
                capture: Seq::empty(),
                ..st
            },
            Block::Section2 | Block::Section3 => RoffState {
                frags: st.frags + control1_frags("SS"@, uppercase(st.capture)),
                capturing: false,
                capture: Seq::empty(),
                ..st
            },
            Block::ItemTerm => RoffState {
                frags: st.frags.push((""@, Escape::UnescapedAtNewline)),
                stripping: false,
                ..st
            },
            Block::ItemBody => RoffState { frags: st.frags + control0_frags("PP"@), stripping: false, ..st },
            Block::Meta => RoffState { frags: st.frags + control0_frags("fi"@), ..st },
            _ => st,
        },
    }
}

/// Roff rendering of all tokens, text taken from the front of `payload`.
pub open spec fn roff_fold(tokens: Seq<Token>, payload: Seq<char>, st: RoffState) -> RoffState
    decreases tokens.len(),
{
    if tokens.len() == 0 {
        st
    } else {
        let n = token_len(tokens[0]) as int;
        roff_fold(tokens.drop_first(), payload.skip(n), roff_token(tokens[0], payload.take(n), st))
    }
}

proof fn lemma_one_text(items: Seq<(Font, &str)>, font: Font, s: &str, plain: Escape)
    requires
        items =~= seq![(font, s)],
    ensures
        crate::roff::text_frags(items, None, plain) == font_text(font, s@, plain),
{
    let e = items.drop_first();
    assert(e =~= Seq::<(Font, &str)>::empty());
    assert(items[0] == (font, s));
    assert(crate::roff::text_frags(e, Some(font), plain) == seq![(restore_font(), Escape::Unescaped)]);
    assert(crate::roff::text_frags(items, None, plain) == seq![(font_escape(font), Escape::Unescaped), (s@, plain)]
        + crate::roff::text_frags(e, Some(font), plain));
    assert(crate::roff::text_frags(items, None, plain) =~= font_text(font, s@, plain));
}

proof fn lemma_control0(name: Seq<char>)
    ensures
        control_frags(name, Seq::<&str>::empty()) == control0_frags(name),
{
    assert(crate::roff::control_args(Seq::<&str>::empty()) =~= Seq::<(Seq<char>, Escape)>::empty());
    assert(control_frags(name, Seq::<&str>::empty()) =~= control0_frags(name));
}

proof fn lemma_control1(name: Seq<char>, args: Seq<&str>, a: &str)
    requires
        args =~= seq![a],
    ensures
        control_frags(name, args) == control1_frags(name, a@),
{
    assert(args.drop_first() =~= Seq::<&str>::empty());
    assert(crate::roff::control_args(Seq::<&str>::empty()) =~= Seq::<(Seq<char>, Escape)>::empty());
    assert(control_frags(name, args) =~= control1_frags(name, a@));
}

/// No token opens or closes a term reference, which roff does not render.
pub open spec fn no_term_ref(tokens: Seq<Token>) -> bool {
    forall|i: int|
        0 <= i < tokens.len() ==> #[trigger] tokens[i] != Token::BlockStart(Block::TermRef)
            && tokens[i] != Token::BlockEnd(Block::TermRef)
}

impl Doc {
    /// Renders the document after the given roff prelude as a manual page
    pub fn render_roff(&self, roff: Roff) -> (s: String)
        requires
            self.wf(),
            roff.wf(),
            no_term_ref(self.tokens()),
        ensures
            s@ == render_frags(
                roff_fold(
                    self.tokens(),
                    self.payload(),
                    RoffState { frags: roff.frags(), stripping: roff.stripping(), capture: Seq::empty(), capturing: false },
                ).frags,
                Apostrophes::Handle,
            ),
    {
        let mut roff = roff;
        let ghost tokens = self.tokens();
        let ghost payload = self.payload();
        let mut capture: Vec<char> = Vec::new();
        let mut capturing = false;
        let ghost init = RoffState { frags: roff.frags(), stripping: roff.stripping(), capture: Seq::empty(), capturing: false };
        let ghost goal = roff_fold(tokens, payload, init);
        let n = self.token_count();
        let mut i: usize = 0;
        let mut pos: usize = 0;
        proof {
            self.lemma_wf();
            reveal_strlit(".");
            reveal_strlit("");
        }
        assert(tokens.skip(0) =~= tokens);
        assert(payload.skip(0) =~= payload);
        while i < n
            invariant
                self.wf(),
                roff.wf(),
                n == tokens.len(),
                tokens == self.tokens(),
                payload == self.payload(),
                no_term_ref(tokens),
                i <= n,
                pos + crate::buffer::text_len(tokens.skip(i as int)) == payload.len(),
                goal == roff_fold(
                    tokens.skip(i as int),
                    payload.skip(pos as int),
                    RoffState { frags: roff.frags(), stripping: roff.stripping(), capture: capture@, capturing },
                ),
            decreases n - i,
        {
            let t = self.token_at(i);
            let ghost input = payload.skip(pos as int).take(token_len(t) as int);
            proof {
                self.lemma_wf();
                crate::html::lemma_text_len_front(tokens.skip(i as int));
                assert(tokens.skip(i as int).drop_first() =~= tokens.skip(i + 1));
                assert(input =~= payload.subrange(pos as int, pos + token_len(t)));
                assert(payload.skip(pos as int).skip(token_len(t) as int) =~= payload.skip(pos + token_len(t)));
            }
            assert(tokens[i as int] == t);
            assert(tokens.skip(i as int)[0] == t);
            let ghost st = RoffState { frags: roff.frags(), stripping: roff.stripping(), capture: capture@, capturing };
            let ghost next = roff_token(t, input, st);
            proof {
                lemma_control0("SS"@);
                lemma_control0("TP"@);
                lemma_control0("PP"@);
                lemma_control0("nf"@);
                lemma_control0("fi"@);
            }
            match t {
                Token::Text { len, style } => {
                    let text = self.text_range(pos, pos + len);
                    if capturing {
                        crate::text::push_chars(&mut capture, &text);
                    } else {
                        if style == Style::Emphasis {
                            roff.control0("SS");
                        }
                        let s = chars_string(&text);
                        let ss = s.as_str();
                        let items = [(Font::from(style), ss)];
                        proof {
                            lemma_one_text(items@, font_of(style), ss, plain_of(st.stripping));
                        }
                        roff.text(&items);
                    }
                    pos = pos + len;
                },
                Token::BlockStart(b) => {
                    match b {
                        Block::Header | Block::Section2 | Block::Section3 => {
                            capturing = true;
                        },
                        Block::ItemTerm => {
                            roff.control0("TP").strip_newlines(true);
                        },
                        Block::Block => {
                            roff.control0("PP");
                        },
                        Block::Meta => {
                            roff.control0("nf");
                        },
                        _ => {},
                    }
                },
                Token::BlockEnd(b) => {
                    match b {
                        Block::Header | Block::Section2 | Block::Section3 => {
                            capturing = false;
                            let title = chars_string(&capture);
                            let upper = to_uppercase(title.as_str());
                            let us = upper.as_str();
                            let args = [us];
                            proof {
                                lemma_control1("SH"@, args@, us);
                                lemma_control1("SS"@, args@, us);
                            }
                            if b == Block::Header {
                                roff.control("SH", &args);
                            } else {
                                roff.control("SS", &args);
                            }
                            capture = Vec::new();
                        },
                        Block::ItemTerm => {
                            roff.roff_linebreak().strip_newlines(false);
                        },
                        Block::ItemBody => {
                            roff.control0("PP").strip_newlines(false);
                        },
                        Block::Meta => {
                            roff.control0("fi");
                        },
                        _ => {},
                    }
                },
            }
            assert(RoffState { frags: roff.frags(), stripping: roff.stripping(), capture: capture@, capturing } == next);
            i = i + 1;
        }
        assert(tokens.skip(i as int) =~= Seq::<Token>::empty());
        roff.render(Apostrophes::Handle)
    }
}

} // verus!
