//! Rendering of documents for the terminal: text flows to a margin, item bodies line up at a
//! common tabstop, long lines wrap at the width limit and styles become ANSI colors.
//!
//! Text formatting rules:
//! - "\n " is a hard line break, always inserted,
//! - "\n\n" separates paragraphs, only the first one is shown unless in "full" mode,
//! - "\n" becomes a space and text flows to the current margin.

use crate::buffer::{text_len, Block, Doc, Style, Token};
use crate::html::{skip_enable, skip_enable_exec, skip_enabled, skip_is_enabled, skip_pop, skip_pop_exec, token_len};
use crate::splitter::{split_chars, split_spec, Code, Piece, SpecChunk};
use crate::text::{chars_string, push_chars, push_str_chars};
use owo_colors::OwoColorize;
use vstd::prelude::*;

verus! {

/// Widest item term that still sets the tabstop of item bodies
pub const MAX_TAB: usize = 24;

/// Default width limit of rendered lines
pub const MAX_WIDTH: usize = 100;

/// How styles are shown on a terminal
#[derive(Debug, Copy, Clone, Eq, PartialEq, Structural)]
pub enum Color {
    /// No colors, term references quoted with backticks
    Monochrome,
    /// Bold and underlined text
    Dull,
    /// Bright colors
    Bright,
}

/// Whether a terminal stream supports colors.
///
/// Trusted: calls `supports_color::on` on stdout or stderr. What it returns depends on the
/// environment and the terminal, so nothing is stated of it.
#[verifier::external_body]
fn color_support(on_stdout: bool) -> (r: bool) {
    let stream = if on_stdout {
        supports_color::Stream::Stdout
    } else {
        supports_color::Stream::Stderr
    };
    supports_color::on(stream).is_some()
}

/// The color mode for what the terminal streams support: dull colors when both stdout and
/// stderr support them, monochrome otherwise
pub fn color_for_support(stdout: bool, stderr: bool) -> (c: Color)
    ensures
        c == (if stdout && stderr {
            Color::Dull
        } else {
            Color::Monochrome
        }),
{
    if stdout && stderr {
        Color::Dull
    } else {
        Color::Monochrome
    }
}

impl Default for Color {
    /// Dull colors when both stdout and stderr support them, monochrome otherwise; stderr is
    /// asked only when stdout supports colors
    fn default() -> (c: Color)
        ensures
            c == Color::Dull || c == Color::Monochrome,
    {
        let out = color_support(true);
        let err = if out {
            color_support(false)
        } else {
            false
        };
        color_for_support(out, err)
    }
}

/// Text wrapped in an ANSI attribute: `code` before it, attribute reset after it.
pub open spec fn ansi_attr(code: Seq<char>, s: Seq<char>) -> Seq<char> {
    "\x1b["@ + code + "m"@ + s + "\x1b[0m"@
}

/// Text wrapped in an ANSI foreground color: `code` before it, default color after it.
pub open spec fn ansi_fg(code: Seq<char>, s: Seq<char>) -> Seq<char> {
    "\x1b["@ + code + "m"@ + s + "\x1b[39m"@
}

/// Bold text.
///
/// Trusted: formats `OwoColorize::bold`; its `Display` writes `ESC[1m`, the text, `ESC[0m`.
#[verifier::external_body]
fn owo_bold(item: &str) -> (r: String)
    ensures
        r@ == ansi_attr("1"@, item@),
{
    format!("{}", item.bold())
}

/// Underlined text.
///
/// Trusted: formats `OwoColorize::underline`; its `Display` writes `ESC[4m`, the text, `ESC[0m`.
#[verifier::external_body]
fn owo_underline(item: &str) -> (r: String)
    ensures
        r@ == ansi_attr("4"@, item@),
{
    format!("{}", item.underline())
}

/// Red text.
///
/// Trusted: formats `OwoColorize::red`; its `Display` writes `ESC[31m`, the text, `ESC[39m`.
#[verifier::external_body]
fn owo_red(item: &str) -> (r: String)
    ensures
        r@ == ansi_fg("31"@, item@),
{
    format!("{}", item.red())
}

/// Green text.
///
/// Trusted: formats `OwoColorize::green`; its `Display` writes `ESC[32m`, the text, `ESC[39m`.
#[verifier::external_body]
fn owo_green(item: &str) -> (r: String)
    ensures
        r@ == ansi_fg("32"@, item@),
{
    format!("{}", item.green())
}

/// Yellow text.
///
/// Trusted: formats `OwoColorize::yellow`; its `Display` writes `ESC[33m`, the text, `ESC[39m`.
#[verifier::external_body]
fn owo_yellow(item: &str) -> (r: String)
    ensures
        r@ == ansi_fg("33"@, item@),
{
    format!("{}", item.yellow())
}

/// Blue text.
///
/// Trusted: formats `OwoColorize::blue`; its `Display` writes `ESC[34m`, the text, `ESC[39m`.
#[verifier::external_body]
fn owo_blue(item: &str) -> (r: String)
    ensures
        r@ == ansi_fg("34"@, item@),
{
    format!("{}", item.blue())
}

/// How text in `style` looks with `color`.
pub open spec fn paint(color: Color, style: Style, s: Seq<char>) -> Seq<char> {
    match color {
        Color::Monochrome => s,
        Color::Dull => match style {
            Style::Text | Style::Muted => s,
            Style::Emphasis => ansi_attr("1"@, ansi_attr("4"@, s)),
            Style::Literal => ansi_attr("1"@, s),
            Style::Metavar => ansi_attr("4"@, s),
            Style::Invalid => ansi_fg("31"@, ansi_attr("1"@, s)),
        },
        Color::Bright => match style {
            Style::Text | Style::Muted => s,
            Style::Emphasis => ansi_attr("1"@, ansi_fg("33"@, s)),
            Style::Literal => ansi_attr("1"@, ansi_fg("32"@, s)),
            Style::Metavar => ansi_attr("1"@, ansi_fg("34"@, s)),
            Style::Invalid => ansi_attr("1"@, ansi_fg("31"@, s)),
        },
    }
}

impl Color {
    /// Appends `item` in `style`, decorated for this color mode
    pub fn push_str(self, style: Style, res: &mut String, item: &str)
        ensures
            final(res)@ == old(res)@ + paint(self, style, item@),
    {
        let mut v = crate::text::str_chars(res.as_str());
        let item_chars = crate::text::str_chars(item);
        push_painted(&mut v, self, style, &item_chars);
        *res = chars_string(&v);
    }
}

/// Appends `s` painted in `style` with `color`.
fn push_painted(res: &mut Vec<char>, color: Color, style: Style, s: &Vec<char>)
    ensures
        final(res)@ == old(res)@ + paint(color, style, s@),
{
    let plain = match color {
        Color::Monochrome => true,
        _ => match style {
            Style::Text | Style::Muted => true,
            _ => false,
        },
    };
    if plain {
        push_chars(res, s);
        return;
    }
    let item = chars_string(s);
    let painted = match color {
        Color::Dull => match style {
            Style::Emphasis => owo_bold(owo_underline(item.as_str()).as_str()),
            Style::Literal => owo_bold(item.as_str()),
            Style::Metavar => owo_underline(item.as_str()),
            _ => owo_red(owo_bold(item.as_str()).as_str()),
        },
        _ => match style {
            Style::Emphasis => owo_bold(owo_yellow(item.as_str()).as_str()),
            Style::Literal => owo_bold(owo_green(item.as_str()).as_str()),
            Style::Metavar => owo_bold(owo_blue(item.as_str()).as_str()),
            _ => owo_bold(owo_red(item.as_str()).as_str()),
        },
    };
    push_str_chars(res, painted.as_str());
}

/// `n` spaces.
pub open spec fn spaces(n: nat) -> Seq<char> {
    Seq::new(n, |_i: int| ' ')
}

/// Characters with the Unicode `White_Space` property, the ones `char::is_whitespace` accepts.
pub open spec fn is_whitespace(c: char) -> bool {
    ||| '\u{9}' <= c <= '\u{d}'
    ||| c == ' '
    ||| c == '\u{85}'
    ||| c == '\u{a0}'
    ||| c == '\u{1680}'
    ||| '\u{2000}' <= c <= '\u{200a}'
    ||| c == '\u{2028}'
    ||| c == '\u{2029}'
    ||| c == '\u{202f}'
    ||| c == '\u{205f}'
    ||| c == '\u{3000}'
}

/// Text without its trailing whitespace.
pub open spec fn trim_end(s: Seq<char>) -> Seq<char>
    decreases s.len(),
{
    if s.len() > 0 && is_whitespace(s.last()) {
        trim_end(s.drop_last())
    } else {
        s
    }
}

/// Number of bytes a character takes in UTF-8.
pub open spec fn char_utf8_len(c: char) -> nat {
    if (c as u32) < 0x80 {
        1
    } else if (c as u32) < 0x800 {
        2
    } else if (c as u32) < 0x10000 {
        3
    } else {
        4
    }
}

/// Number of bytes a text takes in UTF-8.
pub open spec fn utf8_len(s: Seq<char>) -> nat
    decreases s.len(),
{
    if s.len() == 0 {
        0
    } else {
        utf8_len(s.drop_last()) + char_utf8_len(s.last())
    }
}

/// Innermost margin, 0 outside of any.
pub open spec fn last_margin(m: Seq<usize>) -> usize {
    if m.len() > 0 {
        m.last()
    } else {
        0
    }
}

/// Removes the innermost margin.
pub open spec fn margins_pop(m: Seq<usize>) -> Seq<usize> {
    if m.len() > 0 {
        m.drop_last()
    } else {
        m
    }
}

/// Text ends with a newline.
pub open spec fn ends_nl(s: Seq<char>) -> bool {
    s.len() > 0 && s.last() == '\n'
}

/// Text ends with a blank line.
pub open spec fn ends_blank(s: Seq<char>) -> bool {
    s.len() > 1 && s[s.len() - 1] == '\n' && s[s.len() - 2] == '\n'
}

/// Settings of one rendering
#[derive(Copy, Clone)]
pub struct ConsoleSetup {
    pub full: bool,
    pub color: Color,
    pub max_width: usize,
    pub tabstop: usize,
}

/// Rendering state. `fail` records a step the renderer cannot take: a margin more than
/// fifty columns past the current position, or a position beyond `usize::MAX`.
pub struct ConsoleState {
    pub res: Seq<char>,
    pub skip: Seq<bool>,
    pub char_pos: usize,
    pub margins: Seq<usize>,
    pub pending_newline: bool,
    pub pending_blank_line: bool,
    pub pending_margin: bool,
    pub fail: bool,
}

/// Renders a word (or a code line) `s` of width `w` in `style`.
pub open spec fn console_raw(s: Seq<char>, w: nat, style: Style, cfg: ConsoleSetup, st: ConsoleState) -> ConsoleState {
    let margin = last_margin(st.margins);
    let started = st.res.len() > 0;
    let nl = started && (st.pending_newline || st.pending_blank_line) && !ends_nl(st.res);
    let res1 = if nl { st.res.push('\n') } else { st.res };
    let cp1: int = if nl { 0 } else { st.char_pos as int };
    let res2 = if started && st.pending_blank_line && !ends_blank(res1) { res1.push('\n') } else { res1 };
    let too_big = started && cp1 + utf8_len(s) > usize::MAX;
    let wrap = started && cp1 + utf8_len(s) > cfg.max_width;
    let res3 = if wrap { trim_end(res2).push('\n') } else { res2 };
    let cp3: int = if wrap { 0 } else { cp1 };
    if wrap && s == " "@ {
        ConsoleState { res: res3, char_pos: cp3 as usize, fail: st.fail || too_big, ..st }
    } else {
        let pad = margin >= cp3;
        let missing: int = if pad { margin - cp3 } else { 0 };
        let res4 = res3 + spaces(missing as nat);
        let cp4: int = if pad { margin as int } else { cp3 };
        let extra = st.pending_margin && cp4 >= MAX_TAB + 4 && missing < 2;
        let res5 = if extra { res4 + spaces((2 - missing) as nat) } else { res4 };
        let cp5: int = if extra { cp4 + 2 - missing } else { cp4 };
        ConsoleState {
            res: res5 + paint(cfg.color, style, s),
            char_pos: (cp5 + w) as usize,
            pending_newline: false,
            pending_blank_line: false,
            pending_margin: false,
            fail: st.fail || too_big || missing > 50 || cp5 + w > usize::MAX,
            ..st
        }
    }
}

/// Renders the chunks of a text token; a paragraph ends the text unless rendering in full.
pub open spec fn console_chunks(chunks: Seq<SpecChunk>, style: Style, cfg: ConsoleSetup, st: ConsoleState) -> ConsoleState
    decreases chunks.len(),
{
    if chunks.len() == 0 {
        st
    } else {
        match chunks[0] {
            SpecChunk::Raw(s, w) => console_chunks(
                chunks.drop_first(),
                style,
                cfg,
                console_raw(s, w, style, cfg, st),
            ),
            SpecChunk::Paragraph => {
                let st1 = ConsoleState { res: st.res.push('\n'), char_pos: 0, ..st };
                if cfg.full {
                    console_chunks(chunks.drop_first(), style, cfg, st1)
                } else {
                    ConsoleState { skip: skip_enable(st1.skip), ..st1 }
                }
            },
            SpecChunk::LineBreak => console_chunks(
                chunks.drop_first(),
                style,
                cfg,
                ConsoleState { res: st.res.push('\n'), char_pos: 0, ..st },
            ),
        }
    }
}

/// Rendering two runs of chunks one after the other renders the second from where the
/// first left off, when the first does not stop the text at a paragraph.
#[verifier::spinoff_prover]
proof fn lemma_console_chunks_append(
    c1: Seq<SpecChunk>,
    c2: Seq<SpecChunk>,
    style: Style,
    cfg: ConsoleSetup,
    st: ConsoleState,
)
    requires
        cfg.full || crate::html::no_paragraph(c1),
    ensures
        console_chunks(c1 + c2, style, cfg, st) == console_chunks(c2, style, cfg, console_chunks(c1, style, cfg, st)),
    decreases c1.len(),
{
    if c1.len() == 0 {
        assert(c1 + c2 =~= c2);
    } else {
        assert((c1 + c2)[0] == c1[0]);
        assert((c1 + c2).drop_first() =~= c1.drop_first() + c2);
        assert(cfg.full || crate::html::no_paragraph(c1.drop_first())) by {
            if !cfg.full {
                assert forall|k: int| 0 <= k < c1.drop_first().len() implies #[trigger] c1.drop_first()[k]
                    != SpecChunk::Paragraph by {
                    assert(c1.drop_first()[k] == c1[k + 1]);
                }
            }
        }
        match c1[0] {
            SpecChunk::Raw(s, w) => lemma_console_chunks_append(
                c1.drop_first(),
                c2,
                style,
                cfg,
                console_raw(s, w, style, cfg, st),
            ),
            SpecChunk::Paragraph => {
                assert(cfg.full);
                lemma_console_chunks_append(
                    c1.drop_first(),
                    c2,
                    style,
                    cfg,
                    ConsoleState { res: st.res.push('\n'), char_pos: 0, ..st },
                );
            },
            SpecChunk::LineBreak => lemma_console_chunks_append(
                c1.drop_first(),
                c2,
                style,
                cfg,
                ConsoleState { res: st.res.push('\n'), char_pos: 0, ..st },
            ),
        }
    }
}

/// On the terminal a hard line break ends the line where the text before it ends: the
/// output gets a newline and the text after it starts from the first column, nothing
/// else of the state changing.
#[verifier::spinoff_prover]
pub proof fn law_console_line_break(
    before: Seq<SpecChunk>,
    after: Seq<SpecChunk>,
    style: Style,
    cfg: ConsoleSetup,
    st: ConsoleState,
)
    requires
        cfg.full || crate::html::no_paragraph(before),
    ensures
        ({
            let mid = console_chunks(before, style, cfg, st);
            let brk = ConsoleState { res: mid.res.push('\n'), char_pos: 0, ..mid };
            &&& console_chunks(before + seq![SpecChunk::LineBreak], style, cfg, st) == brk
            &&& console_chunks(before + seq![SpecChunk::LineBreak] + after, style, cfg, st) == console_chunks(
                after,
                style,
                cfg,
                brk,
            )
        }),
{
    let lb = seq![SpecChunk::LineBreak];
    let mid = console_chunks(before, style, cfg, st);
    lemma_console_chunks_append(before, lb, style, cfg, st);
    lemma_console_chunks_append(before, lb + after, style, cfg, st);
    assert(before + lb + after =~= before + (lb + after));
    assert(lb.drop_first() =~= Seq::<SpecChunk>::empty());
    assert((lb + after)[0] == SpecChunk::LineBreak);
    assert((lb + after).drop_first() =~= after);
    let brk = ConsoleState { res: mid.res.push('\n'), char_pos: 0, ..mid };
    assert(console_chunks(lb.drop_first(), style, cfg, brk) == brk);
    assert(console_chunks(lb, style, cfg, mid) == brk);
    assert(console_chunks(lb + after, style, cfg, mid) == console_chunks(after, style, cfg, brk));
}

/// Start of a block.
pub open spec fn console_open(b: Block, cfg: ConsoleSetup, st: ConsoleState) -> ConsoleState {
    let margin = last_margin(st.margins);
    match b {
        Block::Header | Block::Section2 => ConsoleState {
            pending_newline: true,
            margins: st.margins.push(margin),
            ..st
        },
        Block::Section3 => ConsoleState {
            pending_newline: true,
            margins: st.margins.push((margin + 2) as usize),
            fail: st.fail || margin + 2 > usize::MAX,
            ..st
        },
        Block::ItemTerm => ConsoleState {
            pending_newline: true,
            margins: st.margins.push((margin + 4) as usize),
            fail: st.fail || margin + 4 > usize::MAX,
            ..st
        },
        Block::ItemBody => ConsoleState {
            margins: st.margins.push((margin + cfg.tabstop + 2) as usize),
            pending_margin: true,
            fail: st.fail || margin + cfg.tabstop + 2 > usize::MAX,
            ..st
        },
        Block::InlineBlock => ConsoleState { skip: st.skip.push(false), ..st },
        Block::Block => ConsoleState { margins: st.margins.push(margin), ..st },
        Block::DefinitionList | Block::Meta | Block::Mono => st,
        Block::TermRef => if cfg.color == Color::Monochrome {
            ConsoleState {
                res: st.res.push('`'),
                char_pos: (st.char_pos + 1) as usize,
                fail: st.fail || st.char_pos + 1 > usize::MAX,
                ..st
            }
        } else {
            st
        },
    }
}

/// End of a block.
pub open spec fn console_close(b: Block, cfg: ConsoleSetup, st: ConsoleState) -> ConsoleState {
    let st = ConsoleState { margins: margins_pop(st.margins), ..st };
    match b {
        Block::ItemBody => ConsoleState { pending_margin: false, ..st },
        Block::InlineBlock => ConsoleState { skip: skip_pop(st.skip), ..st },
        Block::Block => ConsoleState { pending_blank_line: true, ..st },
        Block::TermRef => if cfg.color == Color::Monochrome {
            ConsoleState {
                res: st.res.push('`'),
                char_pos: (st.char_pos + 1) as usize,
                fail: st.fail || st.char_pos + 1 > usize::MAX,
                ..st
            }
        } else {
            st
        },
        _ => st,
    }
}

/// One token of console rendering; `input` is the text of a text token.
pub open spec fn console_token(t: Token, input: Seq<char>, cfg: ConsoleSetup, st: ConsoleState) -> ConsoleState {
    match t {
        Token::Text { style, .. } => if skip_enabled(st.skip) {
            st
        } else {
            console_chunks(split_spec(input, Code::No), style, cfg, st)
        },
        Token::BlockStart(b) => console_open(b, cfg, st),
        Token::BlockEnd(b) => console_close(b, cfg, st),
    }
}

/// Console rendering of all tokens, text taken from the front of `payload`.
pub open spec fn console_fold(tokens: Seq<Token>, payload: Seq<char>, cfg: ConsoleSetup, st: ConsoleState) -> ConsoleState
    decreases tokens.len(),
{
    if tokens.len() == 0 {
        st
    } else {
        let n = token_len(tokens[0]) as int;
        console_fold(
            tokens.drop_first(),
            payload.skip(n),
            cfg,
            console_token(tokens[0], payload.take(n), cfg, st),
        )
    }
}

/// Width of the widest item term no wider than [`MAX_TAB`], at least `tab`.
pub open spec fn tab_fold(tokens: Seq<Token>, in_term: bool, current: nat, tab: nat) -> nat
    decreases tokens.len(),
{
    if tokens.len() == 0 {
        tab
    } else {
        let rest = tokens.drop_first();
        match tokens[0] {
            Token::Text { len, .. } => tab_fold(
                rest,
                in_term,
                if in_term { current + len as nat } else { current },
                tab,
            ),
            Token::BlockStart(Block::ItemTerm) => tab_fold(rest, true, 0, tab),
            Token::BlockEnd(Block::ItemTerm) => tab_fold(
                rest,
                false,
                current,
                if current > tab && current <= MAX_TAB { current } else { tab },
            ),
            _ => tab_fold(rest, in_term, current, tab),
        }
    }
}

/// Initial rendering state.
pub open spec fn console_init() -> ConsoleState {
    ConsoleState {
        res: Seq::empty(),
        skip: Seq::empty(),
        char_pos: 0,
        margins: Seq::empty(),
        pending_newline: false,
        pending_blank_line: false,
        pending_margin: false,
        fail: false,
    }
}

/// Final rendering state of a document: its text is what the console shows.
pub open spec fn console_of(tokens: Seq<Token>, payload: Seq<char>, full: bool, color: Color, max_width: usize) -> ConsoleState {
    let tabstop = tab_fold(tokens, false, 0, 0) + 4;
    let cfg = ConsoleSetup { full, color, max_width, tabstop: tabstop as usize };
    let st = console_fold(tokens, payload, cfg, console_init());
    if st.pending_newline || st.pending_blank_line {
        ConsoleState { res: st.res.push('\n'), ..st }
    } else {
        st
    }
}

/// A state that failed stays failed through the chunks of a token.
proof fn lemma_chunks_sticky(chunks: Seq<SpecChunk>, style: Style, cfg: ConsoleSetup, st: ConsoleState)
    requires
        st.fail,
    ensures
        console_chunks(chunks, style, cfg, st).fail,
    decreases chunks.len(),
{
    if chunks.len() > 0 {
        match chunks[0] {
            SpecChunk::Raw(s, w) => lemma_chunks_sticky(
                chunks.drop_first(),
                style,
                cfg,
                console_raw(s, w, style, cfg, st),
            ),
            SpecChunk::Paragraph => {
                let st1 = ConsoleState { res: st.res.push('\n'), char_pos: 0, ..st };
                if cfg.full {
                    lemma_chunks_sticky(chunks.drop_first(), style, cfg, st1);
                }
            },
            SpecChunk::LineBreak => lemma_chunks_sticky(
                chunks.drop_first(),
                style,
                cfg,
                ConsoleState { res: st.res.push('\n'), char_pos: 0, ..st },
            ),
        }
    }
}

/// A state that failed stays failed through the rest of the tokens.
proof fn lemma_fold_sticky(tokens: Seq<Token>, payload: Seq<char>, cfg: ConsoleSetup, st: ConsoleState)
    requires
        st.fail,
    ensures
        console_fold(tokens, payload, cfg, st).fail,
    decreases tokens.len(),
{
    if tokens.len() > 0 {
        let n = token_len(tokens[0]) as int;
        let t = tokens[0];
        let input = payload.take(n);
        match t {
            Token::Text { style, .. } => if !skip_enabled(st.skip) {
                lemma_chunks_sticky(split_spec(input, Code::No), style, cfg, st);
            },
            _ => {},
        }
        lemma_fold_sticky(tokens.drop_first(), payload.skip(n), cfg, console_token(t, input, cfg, st));
    }
}

/// The tabstop search never goes past [`MAX_TAB`].
proof fn lemma_tab_fold_bound(tokens: Seq<Token>, in_term: bool, current: nat, tab: nat)
    requires
        tab <= MAX_TAB,
    ensures
        tab_fold(tokens, in_term, current, tab) <= MAX_TAB,
    decreases tokens.len(),
{
    if tokens.len() > 0 {
        let rest = tokens.drop_first();
        match tokens[0] {
            Token::Text { len, .. } => lemma_tab_fold_bound(
                rest,
                in_term,
                if in_term { current + len as nat } else { current },
                tab,
            ),
            Token::BlockStart(Block::ItemTerm) => lemma_tab_fold_bound(rest, true, 0, tab),
            Token::BlockEnd(Block::ItemTerm) => lemma_tab_fold_bound(
                rest,
                false,
                current,
                if current > tab && current <= MAX_TAB { current } else { tab },
            ),
            _ => lemma_tab_fold_bound(rest, in_term, current, tab),
        }
    }
}

/// No token of `texts` opens or closes an item term.
pub open spec fn term_free(texts: Seq<Token>) -> bool {
    forall|k: int|
        0 <= k < texts.len() ==> #[trigger] texts[k] != Token::BlockStart(Block::ItemTerm)
            && texts[k] != Token::BlockEnd(Block::ItemTerm)
}

/// An item term whose content is `texts`.
pub open spec fn item_term(texts: Seq<Token>) -> Seq<Token> {
    seq![Token::BlockStart(Block::ItemTerm)] + texts + seq![Token::BlockEnd(Block::ItemTerm)]
}

/// The tabstop search never lowers the tabstop found so far.
proof fn lemma_tab_fold_mono(tokens: Seq<Token>, in_term: bool, current: nat, tab: nat)
    ensures
        tab_fold(tokens, in_term, current, tab) >= tab,
    decreases tokens.len(),
{
    if tokens.len() > 0 {
        let rest = tokens.drop_first();
        match tokens[0] {
            Token::Text { len, .. } => lemma_tab_fold_mono(
                rest,
                in_term,
                if in_term { current + len as nat } else { current },
                tab,
            ),
            Token::BlockStart(Block::ItemTerm) => lemma_tab_fold_mono(rest, true, 0, tab),
            Token::BlockEnd(Block::ItemTerm) => lemma_tab_fold_mono(
                rest,
                false,
                current,
                if current > tab && current <= MAX_TAB { current } else { tab },
            ),
            _ => lemma_tab_fold_mono(rest, in_term, current, tab),
        }
    }
}

/// Inside an item term, its texts add their lengths to the width of the term.
proof fn lemma_tab_fold_texts(texts: Seq<Token>, rest: Seq<Token>, current: nat, tab: nat)
    requires
        term_free(texts),
    ensures
        tab_fold(texts + rest, true, current, tab) == tab_fold(rest, true, current + text_len(texts), tab),
    decreases texts.len(),
{
    if texts.len() == 0 {
        assert(texts + rest =~= rest);
    } else {
        let t = texts[0];
        assert((texts + rest)[0] == t);
        assert((texts + rest).drop_first() =~= texts.drop_first() + rest);
        crate::html::lemma_text_len_front(texts);
        assert(term_free(texts.drop_first())) by {
            assert forall|k: int| 0 <= k < texts.drop_first().len() implies #[trigger] texts.drop_first()[k]
                != Token::BlockStart(Block::ItemTerm) && texts.drop_first()[k] != Token::BlockEnd(
                Block::ItemTerm,
            ) by {
                assert(texts.drop_first()[k] == texts[k + 1]);
            }
        }
        assert(t != Token::BlockStart(Block::ItemTerm) && t != Token::BlockEnd(Block::ItemTerm));
        match t {
            Token::Text { len, .. } => {
                lemma_tab_fold_texts(texts.drop_first(), rest, current + len as nat, tab);
            },
            Token::BlockStart(b) => {
                lemma_tab_fold_texts(texts.drop_first(), rest, current, tab);
            },
            Token::BlockEnd(b) => {
                lemma_tab_fold_texts(texts.drop_first(), rest, current, tab);
            },
        }
    }
}

/// Every item term no wider than [`MAX_TAB`] fits under the tabstop found from any state.
#[verifier::spinoff_prover]
proof fn lemma_tab_fold_covers(
    pre: Seq<Token>,
    texts: Seq<Token>,
    post: Seq<Token>,
    in_term: bool,
    current: nat,
    tab: nat,
)
    requires
        term_free(texts),
        text_len(texts) <= MAX_TAB,
    ensures
        tab_fold(pre + item_term(texts) + post, in_term, current, tab) >= text_len(texts),
    decreases pre.len(),
{
    let tokens = pre + item_term(texts) + post;
    let w = text_len(texts);
    if pre.len() == 0 {
        let after = texts + (seq![Token::BlockEnd(Block::ItemTerm)] + post);
        assert(tokens[0] == Token::BlockStart(Block::ItemTerm));
        assert(tokens.drop_first() =~= after);
        lemma_tab_fold_texts(texts, seq![Token::BlockEnd(Block::ItemTerm)] + post, 0, tab);
        let end = seq![Token::BlockEnd(Block::ItemTerm)] + post;
        assert(end[0] == Token::BlockEnd(Block::ItemTerm));
        assert(end.drop_first() =~= post);
        let t2 = if w > tab && w <= MAX_TAB { w } else { tab };
        lemma_tab_fold_mono(post, false, w, t2);
    } else {
        assert(tokens[0] == pre[0]);
        assert(tokens.drop_first() =~= pre.drop_first() + item_term(texts) + post);
        let rest = pre.drop_first();
        match pre[0] {
            Token::Text { len, .. } => lemma_tab_fold_covers(
                rest,
                texts,
                post,
                in_term,
                if in_term { current + len as nat } else { current },
                tab,
            ),
            Token::BlockStart(Block::ItemTerm) => lemma_tab_fold_covers(rest, texts, post, true, 0, tab),
            Token::BlockEnd(Block::ItemTerm) => lemma_tab_fold_covers(
                rest,
                texts,
                post,
                false,
                current,
                if current > tab && current <= MAX_TAB { current } else { tab },
            ),
            _ => lemma_tab_fold_covers(rest, texts, post, in_term, current, tab),
        }
    }
}

/// The tabstop of item bodies is at least as wide as every item term that is no wider than
/// [`MAX_TAB`], and never wider than [`MAX_TAB`] itself.
pub proof fn law_tabstop_covers_every_term(pre: Seq<Token>, texts: Seq<Token>, post: Seq<Token>)
    requires
        term_free(texts),
        text_len(texts) <= MAX_TAB,
    ensures
        tab_fold(pre + item_term(texts) + post, false, 0, 0) >= text_len(texts),
        tab_fold(pre + item_term(texts) + post, false, 0, 0) <= MAX_TAB,
{
    lemma_tab_fold_covers(pre, texts, post, false, 0, 0);
    lemma_tab_fold_bound(pre + item_term(texts) + post, false, 0, 0);
}

/// `s` is `pre`, then an item term holding `texts`, then `post`.
pub open spec fn term_split(s: Seq<Token>, pre: Seq<Token>, texts: Seq<Token>, post: Seq<Token>) -> bool {
    s == pre + item_term(texts) + post && term_free(texts)
}

/// `s` holds an item term of width `w`.
pub open spec fn has_term(s: Seq<Token>, w: nat) -> bool {
    exists|pre: Seq<Token>, texts: Seq<Token>, post: Seq<Token>|
        #[trigger] term_split(s, pre, texts, post) && text_len(texts) == w
}

/// `s` ends inside an item term whose content so far is `texts`.
spec fn open_split(s: Seq<Token>, pre: Seq<Token>, texts: Seq<Token>) -> bool {
    s == pre + seq![Token::BlockStart(Block::ItemTerm)] + texts && term_free(texts)
}

proof fn lemma_has_term_push(s: Seq<Token>, w: nat, t: Token)
    requires
        has_term(s, w),
    ensures
        has_term(s.push(t), w),
{
    let (pre, texts, post) = choose|pre: Seq<Token>, texts: Seq<Token>, post: Seq<Token>|
        #[trigger] term_split(s, pre, texts, post) && text_len(texts) == w;
    assert(s.push(t) =~= pre + item_term(texts) + post.push(t));
    assert(term_split(s.push(t), pre, texts, post.push(t)));
}

proof fn lemma_term_free_push(texts: Seq<Token>, t: Token)
    requires
        term_free(texts),
        t != Token::BlockStart(Block::ItemTerm),
        t != Token::BlockEnd(Block::ItemTerm),
    ensures
        term_free(texts.push(t)),
        text_len(texts.push(t)) == text_len(texts) + token_len(t),
{
    assert forall|k: int| 0 <= k < texts.push(t).len() implies #[trigger] texts.push(t)[k]
        != Token::BlockStart(Block::ItemTerm) && texts.push(t)[k] != Token::BlockEnd(Block::ItemTerm) by {
        if k < texts.len() {
            assert(texts.push(t)[k] == texts[k]);
        }
    }
    assert(texts.push(t).drop_last() =~= texts);
}

/// The tabstop found from a state whose tabstop and open term occur in `done` is zero or
/// the width of an item term of `done + tokens`.
#[verifier::spinoff_prover]
proof fn lemma_tab_fold_witness(done: Seq<Token>, tokens: Seq<Token>, in_term: bool, current: nat, tab: nat)
    requires
        tab == 0 || has_term(done, tab),
        in_term ==> exists|pre: Seq<Token>, texts: Seq<Token>|
            #[trigger] open_split(done, pre, texts) && text_len(texts) == current,
        !in_term ==> current <= tab || current > MAX_TAB,
    ensures
        tab_fold(tokens, in_term, current, tab) == 0 || has_term(done + tokens, tab_fold(tokens, in_term, current, tab)),
    decreases tokens.len(),
{
    if tokens.len() == 0 {
        assert(done + tokens =~= done);
    } else {
        let t = tokens[0];
        let rest = tokens.drop_first();
        let done2 = done.push(t);
        assert(done2 + rest =~= done + tokens);
        if tab != 0 {
            lemma_has_term_push(done, tab, t);
        }
        match t {
            Token::BlockStart(Block::ItemTerm) => {
                assert(done2 =~= done + seq![Token::BlockStart(Block::ItemTerm)] + Seq::<Token>::empty());
                assert(open_split(done2, done, Seq::<Token>::empty()));
                assert(text_len(Seq::<Token>::empty()) == 0);
                lemma_tab_fold_witness(done2, rest, true, 0, tab);
            },
            Token::BlockEnd(Block::ItemTerm) => {
                let t2 = if current > tab && current <= MAX_TAB { current } else { tab };
                if in_term {
                    let (pre, texts) = choose|pre: Seq<Token>, texts: Seq<Token>|
                        #[trigger] open_split(done, pre, texts) && text_len(texts) == current;
                    assert(done2 =~= pre + item_term(texts) + Seq::<Token>::empty());
                    assert(term_split(done2, pre, texts, Seq::<Token>::empty()));
                }
                lemma_tab_fold_witness(done2, rest, false, current, t2);
            },
            _ => {
                let c2 = match t {
                    Token::Text { len, .. } => if in_term { current + len as nat } else { current },
                    _ => current,
                };
                if in_term {
                    let (pre, texts) = choose|pre: Seq<Token>, texts: Seq<Token>|
                        #[trigger] open_split(done, pre, texts) && text_len(texts) == current;
                    lemma_term_free_push(texts, t);
                    assert(done2 =~= pre + seq![Token::BlockStart(Block::ItemTerm)] + texts.push(t));
                    assert(open_split(done2, pre, texts.push(t)));
                }
                lemma_tab_fold_witness(done2, rest, in_term, c2, tab);
            },
        }
    }
}

/// The tabstop of item bodies is zero or the width of one of the item terms.
pub proof fn law_tabstop_is_some_term(tokens: Seq<Token>)
    ensures
        tab_fold(tokens, false, 0, 0) == 0 || has_term(tokens, tab_fold(tokens, false, 0, 0)),
{
    lemma_tab_fold_witness(Seq::empty(), tokens, false, 0, 0);
    assert(Seq::<Token>::empty() + tokens =~= tokens);
}

/// Checks whether text ends with a newline.
fn ends_nl_exec(s: &Vec<char>) -> (r: bool)
    ensures
        r == ends_nl(s@),
{
    s.len() > 0 && s[s.len() - 1] == '\n'
}

/// Checks whether text ends with a blank line.
fn ends_blank_exec(s: &Vec<char>) -> (r: bool)
    ensures
        r == ends_blank(s@),
{
    s.len() > 1 && s[s.len() - 1] == '\n' && s[s.len() - 2] == '\n'
}

/// Checks whether a character is whitespace.
pub fn is_whitespace_exec(c: char) -> (r: bool)
    ensures
        r == is_whitespace(c),
{
    ('\u{9}' <= c && c <= '\u{d}') || c == ' ' || c == '\u{85}' || c == '\u{a0}' || c == '\u{1680}'
        || ('\u{2000}' <= c && c <= '\u{200a}') || c == '\u{2028}' || c == '\u{2029}' || c == '\u{202f}'
        || c == '\u{205f}' || c == '\u{3000}'
}

/// Removes trailing whitespace.
pub fn trim_end_exec(s: &mut Vec<char>)
    ensures
        final(s)@ == trim_end(old(s)@),
{
    while s.len() > 0 && is_whitespace_exec(s[s.len() - 1])
        invariant
            trim_end(s@) == trim_end(old(s)@),
        decreases s.len(),
    {
        let ghost before = s@;
        s.pop();
        assert(s@ =~= before.drop_last());
    }
}

/// Number of bytes `s` takes in UTF-8.
pub(crate) fn utf8_width(s: &Vec<char>) -> (n: u128)
    ensures
        n == utf8_len(s@),
{
    let mut n: u128 = 0;
    let mut i: usize = 0;
    while i < s.len()
        invariant
            i <= s@.len(),
            n == utf8_len(s@.take(i as int)),
            n <= 4 * i,
        decreases s.len() - i,
    {
        let c = s[i];
        let k: u128 = if (c as u32) < 0x80 {
            1
        } else if (c as u32) < 0x800 {
            2
        } else if (c as u32) < 0x10000 {
            3
        } else {
            4
        };
        assert(s@.take(i + 1).drop_last() =~= s@.take(i as int));
        n = n + k;
        i = i + 1;
    }
    assert(s@.take(s@.len() as int) =~= s@);
    n
}

/// Appends `n` spaces.
fn push_spaces(res: &mut Vec<char>, n: usize)
    ensures
        final(res)@ == old(res)@ + spaces(n as nat),
{
    let mut i: usize = 0;
    while i < n
        invariant
            i <= n,
            res@ == old(res)@ + spaces(i as nat),
        decreases n - i,
    {
        res.push(' ');
        i = i + 1;
        assert(res@ =~= old(res)@ + spaces(i as nat));
    }
}

/// Checks whether a word is a single space.
fn is_single_space(s: &Vec<char>) -> (r: bool)
    ensures
        r == (s@ == " "@),
{
    proof {
        reveal_strlit(" ");
    }
    let r = s.len() == 1 && s[0] == ' ';
    if r {
        assert(s@ =~= " "@);
    }
    r
}

/// Exec rendering state
struct ConsoleRender {
    res: Vec<char>,
    skip: Vec<bool>,
    char_pos: usize,
    margins: Vec<usize>,
    pending_newline: bool,
    pending_blank_line: bool,
    pending_margin: bool,
}

impl ConsoleRender {
    closed spec fn view(&self) -> ConsoleState {
        ConsoleState {
            res: self.res@,
            skip: self.skip@,
            char_pos: self.char_pos,
            margins: self.margins@,
            pending_newline: self.pending_newline,
            pending_blank_line: self.pending_blank_line,
            pending_margin: self.pending_margin,
            fail: false,
        }
    }

    fn last_margin(&self) -> (m: usize)
        ensures
            m == last_margin(self.margins@),
    {
        if self.margins.len() > 0 {
            self.margins[self.margins.len() - 1]
        } else {
            0
        }
    }

    /// Renders a word; `false`, with the state left unspecified, when the renderer cannot
    /// take the step
    #[verifier::spinoff_prover]
    #[verifier::rlimit(30)]
    fn raw(&mut self, s: &Vec<char>, w: usize, style: Style, cfg: ConsoleSetup) -> (ok: bool)
        ensures
            ok == !console_raw(s@, w as nat, style, cfg, old(self).view()).fail,
            ok ==> final(self).view() == console_raw(s@, w as nat, style, cfg, old(self).view()),
    {
        let ghost st = self.view();
        let ghost goal = console_raw(s@, w as nat, style, cfg, st);
        let margin = self.last_margin();
        let ghost started = st.res.len() > 0;
        let ghost nl = started && (st.pending_newline || st.pending_blank_line) && !ends_nl(st.res);
        let ghost res1 = if nl { st.res.push('\n') } else { st.res };
        let ghost cp1: int = if nl { 0 } else { st.char_pos as int };
        let ghost res2 = if started && st.pending_blank_line && !ends_blank(res1) { res1.push('\n') } else { res1 };
        let ghost too_big = started && cp1 + utf8_len(s@) > usize::MAX;
        let ghost wrap = started && cp1 + utf8_len(s@) > cfg.max_width;
        let ghost res3 = if wrap { trim_end(res2).push('\n') } else { res2 };
        let ghost cp3: int = if wrap { 0 } else { cp1 };
        if self.res.len() > 0 {
            if (self.pending_newline || self.pending_blank_line) && !ends_nl_exec(&self.res) {
                self.char_pos = 0;
                self.res.push('\n');
            }
            assert(self.res@ == res1 && self.char_pos == cp1);
            if self.pending_blank_line && !ends_blank_exec(&self.res) {
                self.res.push('\n');
            }
            assert(self.res@ == res2);
            let bytes = utf8_width(s);
            if bytes > usize::MAX as u128 || (self.char_pos as u128) > usize::MAX as u128 - bytes {
                assert(too_big);
                assert(goal.fail);
                return false;
            }
            assert(!too_big);
            if (self.char_pos as u128) + bytes > cfg.max_width as u128 {
                self.char_pos = 0;
                trim_end_exec(&mut self.res);
                self.res.push('\n');
                if is_single_space(s) {
                    assert(self.view() == goal);
                    return true;
                }
            }
        }
        assert(self.res@ == res3 && self.char_pos == cp3);
        assert(!(wrap && s@ == " "@));
        let ghost pad = margin >= cp3;
        let ghost missing_g: int = if pad { margin - cp3 } else { 0 };
        let mut pushed: usize = 0;
        if margin >= self.char_pos {
            let missing = margin - self.char_pos;
            if missing > 50 {
                assert(goal.fail);
                return false;
            }
            push_spaces(&mut self.res, missing);
            self.char_pos = margin;
            pushed = missing;
        }
        assert(pushed == missing_g);
        assert(self.res@ == res3 + spaces(missing_g as nat));
        if self.pending_margin && self.char_pos >= MAX_TAB + 4 && pushed < 2 {
            let missing = 2 - pushed;
            if self.char_pos > usize::MAX - missing {
                assert(goal.fail);
                return false;
            }
            push_spaces(&mut self.res, missing);
            self.char_pos = self.char_pos + missing;
        }
        if self.char_pos > usize::MAX - w {
            assert(goal.fail);
            return false;
        }
        assert(!goal.fail);
        self.pending_newline = false;
        self.pending_blank_line = false;
        self.pending_margin = false;
        push_painted(&mut self.res, cfg.color, style, s);
        self.char_pos = self.char_pos + w;
        assert(self.view() == goal);
        true
    }

    /// Renders the chunks of a text; `false` when a step cannot be taken
    fn chunks(&mut self, pieces: &Vec<Piece>, style: Style, cfg: ConsoleSetup) -> (ok: bool)
        ensures
            ok == !console_chunks(pieces@.map_values(|p: Piece| p.spec()), style, cfg, old(self).view()).fail,
            ok ==> final(self).view() == console_chunks(
                pieces@.map_values(|p: Piece| p.spec()),
                style,
                cfg,
                old(self).view(),
            ),
    {
        let ghost all = pieces@.map_values(|p: Piece| p.spec());
        let ghost goal = console_chunks(all, style, cfg, self.view());
        let mut i: usize = 0;
        assert(all.skip(0) =~= all);
        while i < pieces.len()
            invariant
                i <= pieces@.len(),
                all == pieces@.map_values(|p: Piece| p.spec()),
                goal == console_chunks(all.skip(i as int), style, cfg, self.view()),
                goal == console_chunks(all, style, cfg, old(self).view()),
            decreases pieces.len() - i,
        {
            assert(all.skip(i as int).drop_first() =~= all.skip(i + 1));
            assert(all.skip(i as int)[0] == pieces@[i as int].spec());
            let ghost before = self.view();
            match &pieces[i] {
                Piece::Raw(s, w) => {
                    let ghost next = console_raw(s@, *w as nat, style, cfg, self.view());
                    if !self.raw(s, *w, style, cfg) {
                        proof {
                            lemma_chunks_sticky(all.skip(i + 1), style, cfg, next);
                        }
                        return false;
                    }
                },
                Piece::Paragraph => {
                    self.res.push('\n');
                    self.char_pos = 0;
                    if !cfg.full {
                        skip_enable_exec(&mut self.skip);
                        assert(self.view() == console_chunks(all.skip(i as int), style, cfg, before));
                        return true;
                    }
                },
                Piece::LineBreak => {
                    self.res.push('\n');
                    self.char_pos = 0;
                },
            }
            i = i + 1;
        }
        assert(all.skip(i as int) =~= Seq::<SpecChunk>::empty());
        true
    }

    /// Renders one token; `false` when a step cannot be taken
    fn token(&mut self, doc: &Doc, t: Token, from: usize, cfg: ConsoleSetup) -> (ok: bool)
        requires
            doc.wf(),
            from + token_len(t) <= doc.payload().len(),
        ensures
            ok == !console_token(
                t,
                doc.payload().subrange(from as int, from + token_len(t)),
                cfg,
                old(self).view(),
            ).fail,
            ok ==> final(self).view() == console_token(
                t,
                doc.payload().subrange(from as int, from + token_len(t)),
                cfg,
                old(self).view(),
            ),
    {
        proof {
            doc.lemma_wf();
        }
        match t {
            Token::Text { len, style } => {
                if skip_is_enabled(&self.skip) {
                    return true;
                }
                let input = doc.text_range(from, from + len);
                let pieces = split_chars(&input);
                return self.chunks(&pieces, style, cfg);
            },
            Token::BlockStart(b) => {
                let margin = self.last_margin();
                match b {
                    Block::Header | Block::Section2 => {
                        self.pending_newline = true;
                        self.margins.push(margin);
                    },
                    Block::Section3 => {
                        if margin > usize::MAX - 2 {
                            return false;
                        }
                        self.pending_newline = true;
                        self.margins.push(margin + 2);
                    },
                    Block::ItemTerm => {
                        if margin > usize::MAX - 4 {
                            return false;
                        }
                        self.pending_newline = true;
                        self.margins.push(margin + 4);
                    },
                    Block::ItemBody => {
                        if cfg.tabstop > usize::MAX - 2 || margin > usize::MAX - 2 - cfg.tabstop {
                            return false;
                        }
                        self.margins.push(margin + cfg.tabstop + 2);
                        self.pending_margin = true;
                    },
                    Block::InlineBlock => {
                        self.skip.push(false);
                    },
                    Block::Block => {
                        self.margins.push(margin);
                    },
                    Block::DefinitionList | Block::Meta | Block::Mono => {},
                    Block::TermRef => {
                        if cfg.color == Color::Monochrome {
                            if self.char_pos == usize::MAX {
                                return false;
                            }
                            self.res.push('`');
                            self.char_pos = self.char_pos + 1;
                        }
                    },
                }
            },
            Token::BlockEnd(b) => {
                if self.margins.len() > 0 {
                    self.margins.pop();
                }
                match b {
                    Block::ItemBody => {
                        self.pending_margin = false;
                    },
                    Block::InlineBlock => {
                        skip_pop_exec(&mut self.skip);
                    },
                    Block::Block => {
                        self.pending_blank_line = true;
                    },
                    Block::TermRef => {
                        if cfg.color == Color::Monochrome {
                            if self.char_pos == usize::MAX {
                                return false;
                            }
                            self.res.push('`');
                            self.char_pos = self.char_pos + 1;
                        }
                    },
                    _ => {},
                }
            },
        }
        true
    }
}

impl Doc {
    /// Render a monochrome version of the document
    ///
    /// `full` indicates if full message should be rendered, this makes
    /// difference for rendered help message, otherwise you can pass `true`.
    pub fn monochrome(&self, full: bool) -> (s: String)
        requires
            self.wf(),
            !console_of(self.tokens(), self.payload(), full, Color::Monochrome, MAX_WIDTH).fail,
        ensures
            s@ == console_of(self.tokens(), self.payload(), full, Color::Monochrome, MAX_WIDTH).res,
    {
        self.render_console(full, Color::Monochrome, MAX_WIDTH)
    }

    /// Widest item term no wider than [`MAX_TAB`]
    fn widest_term(&self) -> (tab: usize)
        requires
            self.wf(),
        ensures
            tab == tab_fold(self.tokens(), false, 0, 0),
            tab <= MAX_TAB,
    {
        let ghost tokens = self.tokens();
        let n = self.token_count();
        let mut tab: usize = 0;
        let mut current: usize = 0;
        let mut in_term = false;
        let mut pos: usize = 0;
        let mut i: usize = 0;
        proof {
            self.lemma_wf();
        }
        assert(tokens.skip(0) =~= tokens);
        while i < n
            invariant
                self.wf(),
                tokens == self.tokens(),
                n == tokens.len(),
                i <= n,
                tab <= MAX_TAB,
                current <= pos,
                pos + text_len(tokens.skip(i as int)) == self.payload().len(),
                self.payload().len() <= usize::MAX,
                tab_fold(tokens, false, 0, 0) == tab_fold(
                    tokens.skip(i as int),
                    in_term,
                    current as nat,
                    tab as nat,
                ),
            decreases n - i,
        {
            let t = self.token_at(i);
            proof {
                crate::html::lemma_text_len_front(tokens.skip(i as int));
                assert(tokens.skip(i as int).drop_first() =~= tokens.skip(i + 1));
            }
            assert(tokens.skip(i as int)[0] == t);
            match t {
                Token::Text { len, .. } => {
                    if in_term {
                        current = current + len;
                    }
                    pos = pos + len;
                },
                Token::BlockStart(Block::ItemTerm) => {
                    in_term = true;
                    current = 0;
                },
                Token::BlockEnd(Block::ItemTerm) => {
                    in_term = false;
                    if current > tab && current <= MAX_TAB {
                        tab = current;
                    }
                },
                _ => {},
            }
            i = i + 1;
        }
        assert(tokens.skip(i as int) =~= Seq::<Token>::empty());
        tab
    }

    /// Render the document for a terminal with the given color mode, wrapping lines
    /// longer than `max_width` bytes; `None` when a margin lies more than fifty columns
    /// past the text it is for, or a position does not fit in `usize`
    pub fn try_render_console(&self, full: bool, color: Color, max_width: usize) -> (s: Option<String>)
        requires
            self.wf(),
        ensures
            s is None <==> console_of(self.tokens(), self.payload(), full, color, max_width).fail,
            s matches Some(text) ==> text@ == console_of(
                self.tokens(),
                self.payload(),
                full,
                color,
                max_width,
            ).res,
    {
        let ghost tokens = self.tokens();
        let ghost payload = self.payload();
        let tab = self.widest_term();
        let cfg = ConsoleSetup { full, color, max_width, tabstop: tab + 4 };
        let ghost goal = console_fold(tokens, payload, cfg, console_init());
        let mut r = ConsoleRender {
            res: Vec::new(),
            skip: Vec::new(),
            char_pos: 0,
            margins: Vec::new(),
            pending_newline: false,
            pending_blank_line: false,
            pending_margin: false,
        };
        assert(r.view() == console_init());
        let n = self.token_count();
        let mut i: usize = 0;
        let mut pos: usize = 0;
        proof {
            self.lemma_wf();
        }
        assert(tokens.skip(0) =~= tokens);
        assert(payload.skip(0) =~= payload);
        while i < n
            invariant
                self.wf(),
                n == tokens.len(),
                tokens == self.tokens(),
                payload == self.payload(),
                i <= n,
                pos + text_len(tokens.skip(i as int)) == payload.len(),
                goal == console_fold(tokens.skip(i as int), payload.skip(pos as int), cfg, r.view()),
                goal == console_fold(tokens, payload, cfg, console_init()),
                cfg == (ConsoleSetup {
                    full,
                    color,
                    max_width,
                    tabstop: (tab_fold(tokens, false, 0, 0) + 4) as usize,
                }),
            decreases n - i,
        {
            let t = self.token_at(i);
            let ghost input = payload.skip(pos as int).take(token_len(t) as int);
            proof {
                self.lemma_wf();
                crate::html::lemma_text_len_front(tokens.skip(i as int));
                assert(tokens.skip(i as int).drop_first() =~= tokens.skip(i + 1));
                assert(input =~= payload.subrange(pos as int, pos + token_len(t)));
                assert(payload.skip(pos as int).skip(token_len(t) as int) =~= payload.skip(
                    pos + token_len(t),
                ));
            }
            let ghost next = console_token(t, input, cfg, r.view());
            assert(tokens[i as int] == t);
            assert(console_fold(tokens.skip(i as int), payload.skip(pos as int), cfg, r.view())
                == console_fold(tokens.skip(i + 1), payload.skip(pos + token_len(t)), cfg, next)) by {
                assert(tokens.skip(i as int)[0] == t);
                assert(payload.skip(pos as int).take(token_len(t) as int) =~= input);
            }
            if !r.token(self, t, pos, cfg) {
                proof {
                    lemma_fold_sticky(tokens.skip(i + 1), payload.skip(pos + token_len(t)), cfg, next);
                }
                assert(goal.fail);
                return None;
            }
            if let Token::Text { len, .. } = t {
                pos = pos + len;
            }
            i = i + 1;
        }
        assert(tokens.skip(i as int) =~= Seq::<Token>::empty());
        if r.pending_newline || r.pending_blank_line {
            r.res.push('\n');
        }
        Some(chars_string(&r.res))
    }

    /// Render the document for a terminal with the given color mode, wrapping lines
    /// longer than `max_width` bytes
    pub fn render_console(&self, full: bool, color: Color, max_width: usize) -> (s: String)
        requires
            self.wf(),
            !console_of(self.tokens(), self.payload(), full, color, max_width).fail,
        ensures
            s@ == console_of(self.tokens(), self.payload(), full, color, max_width).res,
    {
        match self.try_render_console(full, color, max_width) {
            Some(s) => s,
            None => String::new(),
        }
    }
}

} // verus!
