//! Rendering of documents to html and markdown.

use crate::buffer::{text_len, Block, Buffer, Doc, Style, Token};
use crate::splitter::{split_chars, split_spec, Code, Piece, SpecChunk};
use crate::text::{chars_string, ends_with, push_chars, push_str_chars};
use vstd::prelude::*;

verus! {

/// Font decorations in effect
#[derive(Debug, Copy, Clone, PartialEq, Eq, Structural)]
pub struct Styles {
    pub mono: bool,
    pub bold: bool,
    pub italic: bool,
}

/// No decorations.
pub open spec fn plain_styles() -> Styles {
    Styles { mono: false, bold: false, italic: false }
}

/// Decorations used for a style.
pub open spec fn styles_of(style: Style) -> Styles {
    match style {
        Style::Literal => Styles { bold: true, mono: true, italic: false },
        Style::Metavar => Styles { bold: false, mono: true, italic: true },
        Style::Text | Style::Muted => Styles { bold: false, mono: false, italic: false },
        Style::Emphasis | Style::Invalid => Styles { mono: false, bold: true, italic: false },
    }
}

impl Styles {
    /// No decorations
    pub fn plain() -> (s: Styles)
        ensures
            s == plain_styles(),
    {
        Styles { mono: false, bold: false, italic: false }
    }

    /// Decorations used for `style`
    pub fn from_style(style: Style) -> (s: Styles)
        ensures
            s == styles_of(style),
    {
        match style {
            Style::Literal => Styles { bold: true, mono: true, italic: false },
            Style::Metavar => Styles { bold: false, mono: true, italic: true },
            Style::Text | Style::Muted => Styles { bold: false, mono: false, italic: false },
            Style::Emphasis | Style::Invalid => Styles { mono: false, bold: true, italic: false },
        }
    }
}

/// Text `s` when `cond` holds, nothing otherwise.
pub open spec fn when(cond: bool, s: Seq<char>) -> Seq<char> {
    if cond {
        s
    } else {
        Seq::empty()
    }
}

/// Html tags closing the decorations of `cur`.
pub open spec fn html_close_tags(cur: Styles) -> Seq<char> {
    when(cur.italic, "</i>"@) + when(cur.bold, "</b>"@) + when(cur.mono, "</tt>"@)
}

/// Html tags opening the decorations of `new`.
pub open spec fn html_open_tags(new: Styles) -> Seq<char> {
    when(new.mono, "<tt>"@) + when(new.bold, "<b>"@) + when(new.italic, "<i>"@)
}

/// Html tags closing the decorations of `cur` and opening those of `new`.
pub open spec fn html_transition(cur: Styles, new: Styles) -> Seq<char> {
    html_close_tags(cur) + html_open_tags(new)
}

/// Markdown markers closing the decorations of `cur`.
pub open spec fn markdown_close(cur: Styles) -> Seq<char> {
    when(cur.mono, "`"@) + when(cur.bold, "**"@) + when(cur.italic, "_"@)
}

/// Markdown markers opening the decorations of `new`.
pub open spec fn markdown_open(new: Styles) -> Seq<char> {
    when(new.italic, "_"@) + when(new.bold, "**"@) + when(new.mono, "`"@)
}

/// Markdown markers closing the decorations of `cur` and opening those of `new`.
pub open spec fn markdown_transition(cur: Styles, new: Styles) -> Seq<char> {
    markdown_close(cur) + markdown_open(new)
}

fn push_when(res: &mut Vec<char>, cond: bool, s: &str)
    ensures
        final(res)@ == old(res)@ + when(cond, s@),
{
    if cond {
        push_str_chars(res, s);
    } else {
        assert(res@ =~= res@ + when(cond, s@));
    }
}

fn push_three(res: &mut Vec<char>, c1: bool, s1: &str, c2: bool, s2: &str, c3: bool, s3: &str)
    ensures
        final(res)@ == old(res)@ + (when(c1, s1@) + when(c2, s2@) + when(c3, s3@)),
{
    push_when(res, c1, s1);
    push_when(res, c2, s2);
    push_when(res, c3, s3);
    assert(res@ =~= old(res)@ + (when(c1, s1@) + when(c2, s2@) + when(c3, s3@)));
}

/// Close the html tags of `cur`, open those of `new` and make `new` current
pub fn change_style(res: &mut Vec<char>, cur: &mut Styles, new: Styles)
    ensures
        final(res)@ == old(res)@ + html_transition(*old(cur), new),
        *final(cur) == new,
{
    let c = *cur;
    let ghost start = res@;
    push_three(res, c.italic, "</i>", c.bold, "</b>", c.mono, "</tt>");
    let ghost mid = res@;
    assert(mid == start + html_close_tags(c));
    push_three(res, new.mono, "<tt>", new.bold, "<b>", new.italic, "<i>");
    assert(res@ == mid + html_open_tags(new));
    assert(res@ =~= start + html_transition(c, new));
    *cur = new;
}

fn push_md_close(res: &mut Vec<char>, cur: Styles)
    ensures
        final(res)@ == old(res)@ + markdown_close(cur),
{
    push_three(res, cur.mono, "`", cur.bold, "**", cur.italic, "_");
}

fn push_md_open(res: &mut Vec<char>, new: Styles)
    ensures
        final(res)@ == old(res)@ + markdown_open(new),
{
    push_three(res, new.italic, "_", new.bold, "**", new.mono, "`");
}

/// Close the markdown markers of `cur`, open those of `new` and make `new` current
pub fn change_to_markdown_style(res: &mut Vec<char>, cur: &mut Styles, new: Styles)
    ensures
        final(res)@ == old(res)@ + markdown_transition(*old(cur), new),
        *final(cur) == new,
{
    let c = *cur;
    push_md_close(res, c);
    push_md_open(res, new);
    assert(res@ =~= old(res)@ + markdown_transition(c, new));
    *cur = new;
}

/// `res` separated from new text by an html line break, unless it is empty or already is.
pub open spec fn blank_html(res: Seq<char>) -> Seq<char> {
    if res.len() == 0 || ends_with(res, "<br>\n"@) {
        res
    } else {
        res + "<br>\n"@
    }
}

/// `res` separated from new text by a blank line, unless it is empty or already is.
pub open spec fn blank_markdown(res: Seq<char>) -> Seq<char> {
    if res.len() == 0 || ends_with(res, "\n\n"@) {
        res
    } else {
        res + "\n\n"@
    }
}

/// `res` ending in a newline, unless it is empty or already does.
pub open spec fn new_markdown(res: Seq<char>) -> Seq<char> {
    if res.len() == 0 || ends_with(res, "\n"@) {
        res
    } else {
        res + "\n"@
    }
}

/// Make it so new text is separated by an empty line
pub fn blank_html_line(res: &mut Vec<char>)
    ensures
        final(res)@ == blank_html(old(res)@),
{
    if !(res.len() == 0 || crate::text::chars_end_with(res, "<br>\n")) {
        push_str_chars(res, "<br>\n");
    }
}

/// Make it so new text is separated by an empty line
pub fn blank_markdown_line(res: &mut Vec<char>)
    ensures
        final(res)@ == blank_markdown(old(res)@),
{
    if !(res.len() == 0 || crate::text::chars_end_with(res, "\n\n")) {
        push_str_chars(res, "\n\n");
    }
}

/// Make it so new text starts on a new line
pub fn new_markdown_line(res: &mut Vec<char>)
    ensures
        final(res)@ == new_markdown(old(res)@),
{
    if !(res.len() == 0 || crate::text::chars_end_with(res, "\n")) {
        push_str_chars(res, "\n");
    }
}

/// Paragraph skipping state: one flag per open inline block
pub open spec fn skip_enabled(skip: Seq<bool>) -> bool {
    skip.len() > 0 && skip.last()
}

/// Skip the rest of the innermost inline block
pub open spec fn skip_enable(skip: Seq<bool>) -> Seq<bool> {
    if skip.len() > 0 {
        skip.update(skip.len() - 1, true)
    } else {
        skip
    }
}

/// Removes the innermost inline block flag.
pub open spec fn skip_pop(skip: Seq<bool>) -> Seq<bool> {
    if skip.len() > 0 {
        skip.drop_last()
    } else {
        skip
    }
}

/// Removes the innermost open block.
pub open spec fn stack_pop(stack: Seq<Block>) -> Seq<Block> {
    if stack.len() > 0 {
        stack.drop_last()
    } else {
        stack
    }
}

pub(crate) fn skip_is_enabled(skip: &Vec<bool>) -> (r: bool)
    ensures
        r == skip_enabled(skip@),
{
    skip.len() > 0 && skip[skip.len() - 1]
}

pub(crate) fn skip_enable_exec(skip: &mut Vec<bool>)
    ensures
        final(skip)@ == skip_enable(old(skip)@),
{
    let n = skip.len();
    if n > 0 {
        skip.set(n - 1, true);
    }
}

pub(crate) fn skip_pop_exec(skip: &mut Vec<bool>)
    ensures
        final(skip)@ == skip_pop(old(skip)@),
{
    if skip.len() > 0 {
        skip.pop();
    }
}

fn stack_pop_exec(stack: &mut Vec<Block>)
    ensures
        final(stack)@ == stack_pop(old(stack)@),
{
    if stack.len() > 0 {
        stack.pop();
    }
}

fn stack_top(stack: &Vec<Block>) -> (r: Option<Block>)
    ensures
        r == (if stack@.len() > 0 { Some(stack@.last()) } else { None::<Block> }),
{
    if stack.len() > 0 {
        Some(stack[stack.len() - 1])
    } else {
        None
    }
}

/// Text with `<` and `>` written as html entities.
pub open spec fn html_escape(s: Seq<char>) -> Seq<char>
    decreases s.len(),
{
    if s.len() == 0 {
        Seq::empty()
    } else {
        html_escape(s.drop_last()) + if s.last() == '<' {
            "&lt;"@
        } else if s.last() == '>' {
            "&gt;"@
        } else {
            seq![s.last()]
        }
    }
}

fn push_html_escaped(res: &mut Vec<char>, s: &Vec<char>)
    ensures
        final(res)@ == old(res)@ + html_escape(s@),
{
    let mut i: usize = 0;
    while i < s.len()
        invariant
            i <= s@.len(),
            res@ == old(res)@ + html_escape(s@.take(i as int)),
        decreases s.len() - i,
    {
        let c = s[i];
        proof {
            assert(s@.take(i + 1).drop_last() =~= s@.take(i as int));
        }
        if c == '<' {
            push_str_chars(res, "&lt;");
        } else if c == '>' {
            push_str_chars(res, "&gt;");
        } else {
            res.push(c);
        }
        i = i + 1;
        proof {
            assert(res@ =~= old(res)@ + html_escape(s@.take(i as int)));
        }
    }
    assert(s@.take(s@.len() as int) =~= s@);
}

/// Rendering state: output so far, current decorations, inline block flags, open blocks.
pub struct HtmlState {
    pub res: Seq<char>,
    pub cur: Styles,
    pub skip: Seq<bool>,
    pub stack: Seq<Block>,
}

/// Renders the chunks of a text token; a paragraph ends the text unless `full`.
pub open spec fn html_chunks(chunks: Seq<SpecChunk>, full: bool, st: HtmlState) -> HtmlState
    decreases chunks.len(),
{
    if chunks.len() == 0 {
        st
    } else {
        match chunks[0] {
            SpecChunk::Raw(s, _) => html_chunks(
                chunks.drop_first(),
                full,
                HtmlState { res: st.res + html_escape(s), ..st },
            ),
            SpecChunk::Paragraph => if full {
                html_chunks(chunks.drop_first(), full, HtmlState { res: st.res + "<br>\n"@, ..st })
            } else {
                HtmlState { skip: skip_enable(st.skip), ..st }
            },
            SpecChunk::LineBreak => html_chunks(
                chunks.drop_first(),
                full,
                HtmlState { res: st.res + "<br>\n"@, ..st },
            ),
        }
    }
}

/// None of the chunks ends a paragraph.
pub open spec fn no_paragraph(chunks: Seq<SpecChunk>) -> bool {
    forall|k: int| 0 <= k < chunks.len() ==> #[trigger] chunks[k] != SpecChunk::Paragraph
}

/// Rendering chunks only appends to the output and keeps the open blocks.
proof fn lemma_html_chunks_grows(chunks: Seq<SpecChunk>, full: bool, st: HtmlState)
    ensures
        html_chunks(chunks, full, st).res.len() >= st.res.len(),
        html_chunks(chunks, full, st).res.take(st.res.len() as int) == st.res,
    decreases chunks.len(),
{
    if chunks.len() > 0 {
        let rest = chunks.drop_first();
        match chunks[0] {
            SpecChunk::Raw(s, _) => {
                let st2 = HtmlState { res: st.res + html_escape(s), ..st };
                lemma_html_chunks_grows(rest, full, st2);
                assert(st2.res.take(st.res.len() as int) =~= st.res);
            },
            SpecChunk::Paragraph => if full {
                let st2 = HtmlState { res: st.res + "<br>\n"@, ..st };
                lemma_html_chunks_grows(rest, full, st2);
                assert(st2.res.take(st.res.len() as int) =~= st.res);
            } else {
                assert(st.res.take(st.res.len() as int) =~= st.res);
            },
            SpecChunk::LineBreak => {
                let st2 = HtmlState { res: st.res + "<br>\n"@, ..st };
                lemma_html_chunks_grows(rest, full, st2);
                assert(st2.res.take(st.res.len() as int) =~= st.res);
            },
        }
    } else {
        assert(st.res.take(st.res.len() as int) =~= st.res);
    }
}

/// Rendering two runs of chunks one after the other renders the second from where the
/// first left off, when the first does not stop the text at a paragraph.
#[verifier::spinoff_prover]
proof fn lemma_html_chunks_append(c1: Seq<SpecChunk>, c2: Seq<SpecChunk>, full: bool, st: HtmlState)
    requires
        full || no_paragraph(c1),
    ensures
        html_chunks(c1 + c2, full, st) == html_chunks(c2, full, html_chunks(c1, full, st)),
    decreases c1.len(),
{
    if c1.len() == 0 {
        assert(c1 + c2 =~= c2);
    } else {
        assert((c1 + c2)[0] == c1[0]);
        assert((c1 + c2).drop_first() =~= c1.drop_first() + c2);
        assert(full || no_paragraph(c1.drop_first())) by {
            if !full {
                assert forall|k: int| 0 <= k < c1.drop_first().len() implies #[trigger] c1.drop_first()[k]
                    != SpecChunk::Paragraph by {
                    assert(c1.drop_first()[k] == c1[k + 1]);
                }
            }
        }
        match c1[0] {
            SpecChunk::Raw(s, _) => lemma_html_chunks_append(
                c1.drop_first(),
                c2,
                full,
                HtmlState { res: st.res + html_escape(s), ..st },
            ),
            SpecChunk::Paragraph => {
                assert(full);
                lemma_html_chunks_append(
                    c1.drop_first(),
                    c2,
                    full,
                    HtmlState { res: st.res + "<br>\n"@, ..st },
                );
            },
            SpecChunk::LineBreak => lemma_html_chunks_append(
                c1.drop_first(),
                c2,
                full,
                HtmlState { res: st.res + "<br>\n"@, ..st },
            ),
        }
    }
}

/// Each chunk of a text shows in the html right where the chunks before it end: a hard
/// line break as `<br>` and a newline, a word escaped, a paragraph break as `<br>` and a
/// newline in full mode; outside full mode the text stops at its first paragraph break.
/// Nothing rendered before is changed.
#[verifier::spinoff_prover]
pub proof fn law_html_chunk_in_place(
    before: Seq<SpecChunk>,
    c: SpecChunk,
    after: Seq<SpecChunk>,
    full: bool,
    st: HtmlState,
)
    requires
        full || no_paragraph(before),
    ensures
        ({
            let mid = html_chunks(before, full, st).res;
            let out = html_chunks(before + seq![c] + after, full, st).res;
            let n = mid.len() as int;
            &&& mid.take(st.res.len() as int) == st.res
            &&& out.take(n) == mid
            &&& c is LineBreak ==> out.subrange(n, n + 5) == "<br>\n"@
            &&& (c is Paragraph && full) ==> out.subrange(n, n + 5) == "<br>\n"@
            &&& (c is Paragraph && !full) ==> out == mid
            &&& c matches SpecChunk::Raw(s, _) ==> out.subrange(n, n + html_escape(s).len()) == html_escape(s)
        }),
{
    reveal_strlit("<br>\n");
    let m = html_chunks(before, full, st);
    let mid = m.res;
    let n = mid.len() as int;
    let tail = seq![c] + after;
    assert(before + seq![c] + after =~= before + tail);
    lemma_html_chunks_append(before, tail, full, st);
    lemma_html_chunks_grows(before, full, st);
    let out = html_chunks(before + tail, full, st).res;
    assert(tail[0] == c);
    assert(tail.drop_first() =~= after);
    let piece: Seq<char> = match c {
        SpecChunk::Raw(s, _) => html_escape(s),
        SpecChunk::Paragraph => if full { "<br>\n"@ } else { Seq::empty() },
        SpecChunk::LineBreak => "<br>\n"@,
    };
    if c is Paragraph && !full {
        assert(out.take(n) =~= mid);
    } else {
        let st2 = HtmlState { res: mid + piece, ..m };
        assert(html_chunks(tail, full, m) == html_chunks(after, full, st2));
        lemma_html_chunks_grows(after, full, st2);
        assert(out.take(n + piece.len()) == mid + piece);
        assert(out.take(n) =~= mid) by {
            assert forall|j: int| 0 <= j < n implies out.take(n)[j] == mid[j] by {
                assert(out[j] == out.take(n + piece.len())[j]);
            }
        }
        assert(out.subrange(n, n + piece.len()) =~= piece) by {
            assert forall|j: int| 0 <= j < piece.len() implies out.subrange(n, n + piece.len())[j] == piece[j] by {
                assert(out[n + j] == out.take(n + piece.len())[n + j]);
            }
        }
    }
}

/// Html for the start of a block.
pub open spec fn html_open(b: Block, res: Seq<char>, stack: Seq<Block>) -> Seq<char> {
    match b {
        Block::Header => blank_html(res) + "# "@,
        Block::Section2 => res + "<div>\n"@,
        Block::ItemTerm => res + "<dt>"@,
        Block::ItemBody => if stack.len() > 0 && stack.last() == Block::DefinitionList {
            res + "<dd>"@
        } else {
            res + "<li>"@
        },
        Block::DefinitionList => res + "<dl>"@,
        Block::Block => res + "<p>"@,
        Block::Section3 => res + "<div style='padding-left: 0.5em'>"@,
        Block::Meta | Block::Mono | Block::TermRef | Block::InlineBlock => res,
    }
}

/// Html for the end of a block, `stack` being the blocks still open around it.
pub open spec fn html_close(b: Block, res: Seq<char>, stack: Seq<Block>) -> Seq<char> {
    match b {
        Block::Header => blank_html(res),
        Block::Section2 => res + "</div>"@,
        Block::ItemTerm => res + "</dt>\n"@,
        Block::ItemBody => if stack.len() > 0 && stack.last() == Block::DefinitionList {
            res + "</dd>\n"@
        } else {
            res + "</li>\n"@
        },
        Block::DefinitionList => res + "</dl>\n"@,
        Block::Block => res + "</p>"@,
        Block::Section3 => res + "</div>"@,
        Block::Meta | Block::Mono | Block::TermRef | Block::InlineBlock => res,
    }
}

/// One token of html rendering; `input` is the text of a text token.
pub open spec fn html_token(t: Token, input: Seq<char>, full: bool, st: HtmlState) -> HtmlState {
    match t {
        Token::Text { style, .. } => if skip_enabled(st.skip) {
            st
        } else {
            html_chunks(
                split_spec(input, Code::No),
                full,
                HtmlState {
                    res: st.res + html_transition(st.cur, styles_of(style)),
                    cur: styles_of(style),
                    ..st
                },
            )
        },
        Token::BlockStart(b) => {
            let res = st.res + html_transition(st.cur, plain_styles());
            HtmlState {
                res: html_open(b, res, st.stack),
                cur: plain_styles(),
                skip: if b == Block::InlineBlock { st.skip.push(false) } else { st.skip },
                stack: st.stack.push(b),
            }
        },
        Token::BlockEnd(b) => {
            let res = st.res + html_transition(st.cur, plain_styles());
            let stack = stack_pop(st.stack);
            HtmlState {
                res: html_close(b, res, stack),
                cur: plain_styles(),
                skip: if b == Block::InlineBlock { skip_pop(st.skip) } else { st.skip },
                stack,
            }
        },
    }
}

/// Number of payload characters a token refers to.
pub open spec fn token_len(t: Token) -> nat {
    match t {
        Token::Text { len, .. } => len as nat,
        _ => 0,
    }
}

/// Html rendering of all tokens, text taken from the front of `payload`.
pub open spec fn html_fold(tokens: Seq<Token>, payload: Seq<char>, full: bool, st: HtmlState) -> HtmlState
    decreases tokens.len(),
{
    if tokens.len() == 0 {
        st
    } else {
        let n = token_len(tokens[0]) as int;
        html_fold(
            tokens.drop_first(),
            payload.skip(n),
            full,
            html_token(tokens[0], payload.take(n), full, st),
        )
    }
}

/// Style sheet appended to html output on request.
pub open spec fn html_css() -> Seq<char> {
    "
<style>
div.bpaf-doc {
    padding: 14px;
    background-color:var(--code-block-background-color);
    font-family: \"Source Code Pro\", monospace;
    margin-bottom: 0.75em;
}
div.bpaf-doc dt { margin-left: 1em; }
div.bpaf-doc dd { margin-left: 3em; }
div.bpaf-doc dl { margin-top: 0; padding-left: 1em; }
div.bpaf-doc  { padding-left: 1em; }
</style>"@
}

/// The html a document renders to.
pub open spec fn html_of(tokens: Seq<Token>, payload: Seq<char>, full: bool, include_css: bool) -> Seq<
    char,
> {
    let st = html_fold(
        tokens,
        payload,
        full,
        HtmlState {
            res: Seq::empty(),
            cur: plain_styles(),
            skip: Seq::empty(),
            stack: Seq::empty(),
        },
    );
    let res = st.res + html_transition(st.cur, plain_styles());
    if include_css {
        res + html_css()
    } else {
        res
    }
}

/// Exec rendering state
struct HtmlRender {
    res: Vec<char>,
    cur: Styles,
    skip: Vec<bool>,
    stack: Vec<Block>,
}

impl HtmlRender {
    closed spec fn view(&self) -> HtmlState {
        HtmlState { res: self.res@, cur: self.cur, skip: self.skip@, stack: self.stack@ }
    }

    fn chunks(&mut self, pieces: &Vec<Piece>, full: bool)
        ensures
            final(self).view() == html_chunks(
                pieces@.map_values(|p: Piece| p.spec()),
                full,
                old(self).view(),
            ),
    {
        let ghost all = pieces@.map_values(|p: Piece| p.spec());
        let mut i: usize = 0;
        assert(all.skip(0) =~= all);
        while i < pieces.len()
            invariant
                i <= pieces@.len(),
                all == pieces@.map_values(|p: Piece| p.spec()),
                html_chunks(all, full, old(self).view()) == html_chunks(
                    all.skip(i as int),
                    full,
                    self.view(),
                ),
            decreases pieces.len() - i,
        {
            assert(all.skip(i as int).drop_first() =~= all.skip(i + 1));
            match &pieces[i] {
                Piece::Raw(s, _) => {
                    push_html_escaped(&mut self.res, s);
                },
                Piece::Paragraph => {
                    if full {
                        push_str_chars(&mut self.res, "<br>\n");
                    } else {
                        skip_enable_exec(&mut self.skip);
                        return;
                    }
                },
                Piece::LineBreak => {
                    push_str_chars(&mut self.res, "<br>\n");
                },
            }
            i = i + 1;
        }
        assert(all.skip(i as int) =~= Seq::<SpecChunk>::empty());
    }

    fn token(&mut self, doc: &Doc, t: Token, from: usize, full: bool)
        requires
            doc.wf(),
            from + token_len(t) <= doc.payload().len(),
            t != Token::BlockStart(Block::Meta),
            t != Token::BlockEnd(Block::Meta),
        ensures
            final(self).view() == html_token(
                t,
                doc.payload().subrange(from as int, from + token_len(t)),
                full,
                old(self).view(),
            ),
    {
        proof {
            doc.lemma_wf();
        }
        match t {
            Token::Text { len, style } => {
                if skip_is_enabled(&self.skip) {
                    return;
                }
                change_style(&mut self.res, &mut self.cur, Styles::from_style(style));
                let input = doc.text_range(from, from + len);
                let pieces = split_chars(&input);
                self.chunks(&pieces, full);
            },
            Token::BlockStart(b) => {
                change_style(&mut self.res, &mut self.cur, Styles::plain());
                match b {
                    Block::Header => {
                        blank_html_line(&mut self.res);
                        push_str_chars(&mut self.res, "# ");
                    },
                    Block::Section2 => {
                        push_str_chars(&mut self.res, "<div>\n");
                    },
                    Block::ItemTerm => push_str_chars(&mut self.res, "<dt>"),
                    Block::ItemBody => {
                        if stack_top(&self.stack) == Some(Block::DefinitionList) {
                            push_str_chars(&mut self.res, "<dd>");
                        } else {
                            push_str_chars(&mut self.res, "<li>");
                        }
                    },
                    Block::DefinitionList => {
                        push_str_chars(&mut self.res, "<dl>");
                    },
                    Block::Block => {
                        push_str_chars(&mut self.res, "<p>");
                    },
                    Block::Section3 => push_str_chars(
                        &mut self.res,
                        "<div style='padding-left: 0.5em'>",
                    ),
                    Block::Meta | Block::Mono | Block::TermRef => {},
                    Block::InlineBlock => {
                        self.skip.push(false);
                    },
                }
                self.stack.push(b);
            },
            Token::BlockEnd(b) => {
                change_style(&mut self.res, &mut self.cur, Styles::plain());
                stack_pop_exec(&mut self.stack);
                match b {
                    Block::Header => {
                        blank_html_line(&mut self.res);
                    },
                    Block::Section2 => {
                        push_str_chars(&mut self.res, "</div>");
                    },
                    Block::InlineBlock => {
                        skip_pop_exec(&mut self.skip);
                    },
                    Block::ItemTerm => push_str_chars(&mut self.res, "</dt>\n"),
                    Block::ItemBody => {
                        if stack_top(&self.stack) == Some(Block::DefinitionList) {
                            push_str_chars(&mut self.res, "</dd>\n");
                        } else {
                            push_str_chars(&mut self.res, "</li>\n");
                        }
                    },
                    Block::DefinitionList => push_str_chars(&mut self.res, "</dl>\n"),
                    Block::Block => {
                        push_str_chars(&mut self.res, "</p>");
                    },
                    Block::Mono | Block::Meta | Block::TermRef => {},
                    Block::Section3 => push_str_chars(&mut self.res, "</div>"),
                }
            },
        }
    }
}

/// Text length accounting when walking tokens from the front.
pub proof fn lemma_text_len_front(tokens: Seq<Token>)
    requires
        tokens.len() > 0,
    ensures
        text_len(tokens) == token_len(tokens[0]) + text_len(tokens.drop_first()),
    decreases tokens.len(),
{
    if tokens.len() > 1 {
        lemma_text_len_front(tokens.drop_last());
        assert(tokens.drop_last().drop_first() =~= tokens.drop_first().drop_last());
        assert(tokens.drop_first().last() == tokens.last());
        assert(tokens.drop_last()[0] == tokens[0]);
    } else {
        assert(tokens.drop_first().len() == 0);
        assert(tokens.drop_last().len() == 0);
        assert(tokens.last() == tokens[0]);
        assert(text_len(tokens.drop_first()) == 0);
        assert(text_len(tokens.drop_last()) == 0);
    }
}

impl Doc {
    /// Render doc into html page, used by documentation sample generator
    pub fn render_html(&self, full: bool, include_css: bool) -> (s: String)
        requires
            self.wf(),
            no_meta(self.tokens()),
        ensures
            s@ == html_of(self.tokens(), self.payload(), full, include_css),
    {
        let mut r = HtmlRender {
            res: Vec::new(),
            cur: Styles::plain(),
            skip: Vec::new(),
            stack: Vec::new(),
        };
        let ghost tokens = self.tokens();
        let ghost payload = self.payload();
        let ghost init = r.view();
        let n = self.token_count();
        let mut i: usize = 0;
        let mut pos: usize = 0;
        proof {
            self.lemma_wf();
        }
        assert(tokens.skip(0) =~= tokens);
        assert(payload.skip(0) =~= payload);
        while i < n
            invariant
                self.wf(),
                n == tokens.len(),
                tokens == self.tokens(),
                payload == self.payload(),
                no_meta(tokens),
                i <= n,
                pos + text_len(tokens.skip(i as int)) == payload.len(),
                html_fold(tokens, payload, full, init) == html_fold(
                    tokens.skip(i as int),
                    payload.skip(pos as int),
                    full,
                    r.view(),
                ),
            decreases n - i,
        {
            let t = self.token_at(i);
            proof {
                self.lemma_wf();
                lemma_text_len_front(tokens.skip(i as int));
                assert(tokens.skip(i as int).drop_first() =~= tokens.skip(i + 1));
                assert(payload.skip(pos as int).take(token_len(t) as int) =~= payload.subrange(
                    pos as int,
                    pos + token_len(t),
                ));
                assert(payload.skip(pos as int).skip(token_len(t) as int) =~= payload.skip(
                    pos + token_len(t),
                ));
            }
            assert(tokens[i as int] == t);
            r.token(self, t, pos, full);
            if let Token::Text { len, .. } = t {
                pos = pos + len;
            }
            i = i + 1;
        }
        change_style(&mut r.res, &mut r.cur, Styles::plain());
        if include_css {
            push_str_chars(
                &mut r.res,
                "
<style>
div.bpaf-doc {
    padding: 14px;
    background-color:var(--code-block-background-color);
    font-family: \"Source Code Pro\", monospace;
    margin-bottom: 0.75em;
}
div.bpaf-doc dt { margin-left: 1em; }
div.bpaf-doc dd { margin-left: 3em; }
div.bpaf-doc dl { margin-top: 0; padding-left: 1em; }
div.bpaf-doc  { padding-left: 1em; }
</style>",
            );
        }
        chars_string(&r.res)
    }
}

} // verus!

verus! {

/// No token opens or closes a [`Block::Meta`], which html and markdown cannot render.
pub open spec fn no_meta(tokens: Seq<Token>) -> bool {
    forall|i: int|
        0 <= i < tokens.len() ==> #[trigger] tokens[i] != Token::BlockStart(Block::Meta)
            && tokens[i] != Token::BlockEnd(Block::Meta)
}

/// Text with `[` and `]` escaped for markdown.
pub open spec fn md_escape(s: Seq<char>) -> Seq<char>
    decreases s.len(),
{
    if s.len() == 0 {
        Seq::empty()
    } else {
        md_escape(s.drop_last()) + if s.last() == '[' {
            "\\["@
        } else if s.last() == ']' {
            "\\]"@
        } else {
            seq![s.last()]
        }
    }
}

fn push_md_escaped(res: &mut Vec<char>, s: &Vec<char>)
    ensures
        final(res)@ == old(res)@ + md_escape(s@),
{
    let mut i: usize = 0;
    while i < s.len()
        invariant
            i <= s@.len(),
            res@ == old(res)@ + md_escape(s@.take(i as int)),
        decreases s.len() - i,
    {
        let c = s[i];
        proof {
            assert(s@.take(i + 1).drop_last() =~= s@.take(i as int));
        }
        if c == '[' {
            push_str_chars(res, "\\[");
        } else if c == ']' {
            push_str_chars(res, "\\]");
        } else {
            res.push(c);
        }
        i = i + 1;
        proof {
            assert(res@ =~= old(res)@ + md_escape(s@.take(i as int)));
        }
    }
    assert(s@.take(s@.len() as int) =~= s@);
}

/// Markdown rendering state.
pub struct MdState {
    pub res: Seq<char>,
    pub cur: Styles,
    pub skip: Seq<bool>,
    pub stack: Seq<Block>,
    pub empty_term: bool,
    pub mono: int,
}

/// Renders the chunks of a text token; a paragraph ends the text unless `full`.
pub open spec fn md_chunks(chunks: Seq<SpecChunk>, full: bool, st: MdState) -> MdState
    decreases chunks.len(),
{
    if chunks.len() == 0 {
        st
    } else {
        match chunks[0] {
            SpecChunk::Raw(s, _) => md_chunks(
                chunks.drop_first(),
                full,
                MdState {
                    res: st.res + if st.mono > 0 {
                        md_escape(s)
                    } else {
                        s
                    },
                    ..st
                },
            ),
            SpecChunk::Paragraph => if full {
                md_chunks(chunks.drop_first(), full, MdState { res: st.res + "\n\n"@, ..st })
            } else {
                MdState { skip: skip_enable(st.skip), ..st }
            },
            SpecChunk::LineBreak => md_chunks(
                chunks.drop_first(),
                full,
                MdState { res: st.res + "\n"@, ..st },
            ),
        }
    }
}

/// Rendering chunks as markdown only appends to the output.
proof fn lemma_md_chunks_grows(chunks: Seq<SpecChunk>, full: bool, st: MdState)
    ensures
        md_chunks(chunks, full, st).res.len() >= st.res.len(),
        md_chunks(chunks, full, st).res.take(st.res.len() as int) == st.res,
        md_chunks(chunks, full, st).mono == st.mono,
    decreases chunks.len(),
{
    if chunks.len() > 0 {
        let rest = chunks.drop_first();
        match chunks[0] {
            SpecChunk::Raw(s, _) => {
                let st2 = MdState { res: st.res + if st.mono > 0 { md_escape(s) } else { s }, ..st };
                lemma_md_chunks_grows(rest, full, st2);
                assert(st2.res.take(st.res.len() as int) =~= st.res);
            },
            SpecChunk::Paragraph => if full {
                let st2 = MdState { res: st.res + "\n\n"@, ..st };
                lemma_md_chunks_grows(rest, full, st2);
                assert(st2.res.take(st.res.len() as int) =~= st.res);
            } else {
                assert(st.res.take(st.res.len() as int) =~= st.res);
            },
            SpecChunk::LineBreak => {
                let st2 = MdState { res: st.res + "\n"@, ..st };
                lemma_md_chunks_grows(rest, full, st2);
                assert(st2.res.take(st.res.len() as int) =~= st.res);
            },
        }
    } else {
        assert(st.res.take(st.res.len() as int) =~= st.res);
    }
}

/// Markdown rendering of two runs of chunks one after the other renders the second from
/// where the first left off, when the first does not stop the text at a paragraph.
#[verifier::spinoff_prover]
proof fn lemma_md_chunks_append(c1: Seq<SpecChunk>, c2: Seq<SpecChunk>, full: bool, st: MdState)
    requires
        full || no_paragraph(c1),
    ensures
        md_chunks(c1 + c2, full, st) == md_chunks(c2, full, md_chunks(c1, full, st)),
    decreases c1.len(),
{
    if c1.len() == 0 {
        assert(c1 + c2 =~= c2);
    } else {
        assert((c1 + c2)[0] == c1[0]);
        assert((c1 + c2).drop_first() =~= c1.drop_first() + c2);
        assert(full || no_paragraph(c1.drop_first())) by {
            if !full {
                assert forall|k: int| 0 <= k < c1.drop_first().len() implies #[trigger] c1.drop_first()[k]
                    != SpecChunk::Paragraph by {
                    assert(c1.drop_first()[k] == c1[k + 1]);
                }
            }
        }
        match c1[0] {
            SpecChunk::Raw(s, _) => lemma_md_chunks_append(
                c1.drop_first(),
                c2,
                full,
                MdState { res: st.res + if st.mono > 0 { md_escape(s) } else { s }, ..st },
            ),
            SpecChunk::Paragraph => {
                assert(full);
                lemma_md_chunks_append(c1.drop_first(), c2, full, MdState { res: st.res + "\n\n"@, ..st });
            },
            SpecChunk::LineBreak => lemma_md_chunks_append(
                c1.drop_first(),
                c2,
                full,
                MdState { res: st.res + "\n"@, ..st },
            ),
        }
    }
}

/// Each chunk of a text shows in the markdown right where the chunks before it end: a
/// hard line break as a newline, a paragraph break as a blank line in full mode, a word as
/// it is, with `[` and `]` escaped inside monospaced text; outside full mode the text stops
/// at its first paragraph break. Nothing rendered before is changed.
#[verifier::spinoff_prover]
pub proof fn law_markdown_chunk_in_place(
    before: Seq<SpecChunk>,
    c: SpecChunk,
    after: Seq<SpecChunk>,
    full: bool,
    st: MdState,
)
    requires
        full || no_paragraph(before),
    ensures
        ({
            let mid = md_chunks(before, full, st).res;
            let out = md_chunks(before + seq![c] + after, full, st).res;
            let n = mid.len() as int;
            &&& mid.take(st.res.len() as int) == st.res
            &&& out.take(n) == mid
            &&& c is LineBreak ==> out.subrange(n, n + 1) == "\n"@
            &&& (c is Paragraph && full) ==> out.subrange(n, n + 2) == "\n\n"@
            &&& (c is Paragraph && !full) ==> out == mid
            &&& c matches SpecChunk::Raw(s, _) ==> {
                let w = if st.mono > 0 { md_escape(s) } else { s };
                out.subrange(n, n + w.len()) == w
            }
        }),
{
    reveal_strlit("\n");
    reveal_strlit("\n\n");
    let m = md_chunks(before, full, st);
    let mid = m.res;
    let n = mid.len() as int;
    let tail = seq![c] + after;
    assert(before + seq![c] + after =~= before + tail);
    lemma_md_chunks_append(before, tail, full, st);
    lemma_md_chunks_grows(before, full, st);
    let out = md_chunks(before + tail, full, st).res;
    assert(tail[0] == c);
    assert(tail.drop_first() =~= after);
    let piece: Seq<char> = match c {
        SpecChunk::Raw(s, _) => if m.mono > 0 { md_escape(s) } else { s },
        SpecChunk::Paragraph => if full { "\n\n"@ } else { Seq::empty() },
        SpecChunk::LineBreak => "\n"@,
    };
    if c is Paragraph && !full {
        assert(out.take(n) =~= mid);
    } else {
        let st2 = MdState { res: mid + piece, ..m };
        assert(md_chunks(tail, full, m) == md_chunks(after, full, st2));
        lemma_md_chunks_grows(after, full, st2);
        assert(out.take(n + piece.len()) == mid + piece);
        assert(out.take(n) =~= mid) by {
            assert forall|j: int| 0 <= j < n implies out.take(n)[j] == mid[j] by {
                assert(out[j] == out.take(n + piece.len())[j]);
            }
        }
        assert(out.subrange(n, n + piece.len()) =~= piece) by {
            assert forall|j: int| 0 <= j < piece.len() implies out.subrange(n, n + piece.len())[j] == piece[j] by {
                assert(out[n + j] == out.take(n + piece.len())[n + j]);
            }
        }
    }
}

/// Markdown for the start of a block; `empty_term` tells if the block is an empty term.
pub open spec fn md_open(b: Block, res: Seq<char>, empty_term: bool) -> Seq<char> {
    match b {
        Block::Header => blank_markdown(res) + "# "@,
        Block::ItemTerm => res + if empty_term {
            "  "@
        } else {
            "- "@
        },
        Block::ItemBody => new_markdown(res),
        Block::Block => res + "\n"@,
        Block::Section3 => res + "### "@,
        Block::Section2 | Block::DefinitionList | Block::Meta | Block::Mono | Block::TermRef
        | Block::InlineBlock => res,
    }
}

/// Markdown for the end of a block, `stack` being the blocks still open around it.
pub open spec fn md_close(b: Block, res: Seq<char>, stack: Seq<Block>, empty_term: bool) -> Seq<
    char,
> {
    match b {
        Block::Header | Block::Section2 | Block::DefinitionList | Block::Block | Block::Section3 => res
            + "\n"@,
        Block::ItemTerm => res + if empty_term {
            " "@
        } else {
            " &mdash; "@
        },
        Block::ItemBody => if stack.len() > 0 && stack.last() == Block::DefinitionList {
            res + "\n"@
        } else {
            res
        },
        Block::InlineBlock | Block::Mono | Block::Meta | Block::TermRef => res,
    }
}

/// One token of markdown rendering; `next` is the following token, if any.
pub open spec fn md_token(t: Token, next: Option<Token>, input: Seq<char>, full: bool, st: MdState) -> MdState {
    match t {
        Token::Text { style, .. } => if skip_enabled(st.skip) {
            st
        } else {
            md_chunks(
                split_spec(input, Code::No),
                full,
                MdState {
                    res: st.res + markdown_transition(st.cur, styles_of(style)),
                    cur: styles_of(style),
                    ..st
                },
            )
        },
        Token::BlockStart(b) => {
            let res = st.res + markdown_transition(st.cur, plain_styles());
            let empty_term = if b == Block::ItemTerm {
                next == Some(Token::BlockEnd(Block::ItemTerm))
            } else {
                st.empty_term
            };
            MdState {
                res: md_open(b, res, empty_term),
                cur: plain_styles(),
                skip: if b == Block::InlineBlock { st.skip.push(false) } else { st.skip },
                stack: st.stack.push(b),
                empty_term,
                mono: if b == Block::Mono { st.mono + 1 } else { st.mono },
            }
        },
        Token::BlockEnd(b) => {
            let res = st.res + markdown_transition(st.cur, plain_styles());
            let stack = stack_pop(st.stack);
            MdState {
                res: md_close(b, res, stack, st.empty_term),
                cur: plain_styles(),
                skip: if b == Block::InlineBlock { skip_pop(st.skip) } else { st.skip },
                stack,
                empty_term: st.empty_term,
                mono: if b == Block::Mono { st.mono - 1 } else { st.mono },
            }
        },
    }
}

/// Markdown rendering of all tokens, text taken from the front of `payload`.
pub open spec fn md_fold(tokens: Seq<Token>, payload: Seq<char>, full: bool, st: MdState) -> MdState
    decreases tokens.len(),
{
    if tokens.len() == 0 {
        st
    } else {
        let n = token_len(tokens[0]) as int;
        let next = if tokens.len() > 1 {
            Some(tokens[1])
        } else {
            None
        };
        md_fold(
            tokens.drop_first(),
            payload.skip(n),
            full,
            md_token(tokens[0], next, payload.take(n), full, st),
        )
    }
}

/// The markdown a document renders to.
pub open spec fn markdown_of(tokens: Seq<Token>, payload: Seq<char>, full: bool) -> Seq<char> {
    let st = md_fold(
        tokens,
        payload,
        full,
        MdState {
            res: Seq::empty(),
            cur: plain_styles(),
            skip: Seq::empty(),
            stack: Seq::empty(),
            empty_term: false,
            mono: 0,
        },
    );
    st.res + markdown_transition(st.cur, plain_styles())
}

struct MdRender {
    res: Vec<char>,
    cur: Styles,
    skip: Vec<bool>,
    stack: Vec<Block>,
    empty_term: bool,
    mono: i128,
}

impl MdRender {
    closed spec fn view(&self) -> MdState {
        MdState {
            res: self.res@,
            cur: self.cur,
            skip: self.skip@,
            stack: self.stack@,
            empty_term: self.empty_term,
            mono: self.mono as int,
        }
    }

    fn chunks(&mut self, pieces: &Vec<Piece>, full: bool)
        ensures
            final(self).mono == old(self).mono,
            final(self).view() == md_chunks(
                pieces@.map_values(|p: Piece| p.spec()),
                full,
                old(self).view(),
            ),
    {
        let ghost all = pieces@.map_values(|p: Piece| p.spec());
        let mut i: usize = 0;
        assert(all.skip(0) =~= all);
        while i < pieces.len()
            invariant
                i <= pieces@.len(),
                all == pieces@.map_values(|p: Piece| p.spec()),
                self.mono == old(self).mono,
                md_chunks(all, full, old(self).view()) == md_chunks(
                    all.skip(i as int),
                    full,
                    self.view(),
                ),
            decreases pieces.len() - i,
        {
            assert(all.skip(i as int).drop_first() =~= all.skip(i + 1));
            match &pieces[i] {
                Piece::Raw(s, _) => {
                    if self.mono > 0 {
                        push_md_escaped(&mut self.res, s);
                    } else {
                        push_chars(&mut self.res, s);
                    }
                },
                Piece::Paragraph => {
                    if full {
                        push_str_chars(&mut self.res, "\n\n");
                    } else {
                        skip_enable_exec(&mut self.skip);
                        return;
                    }
                },
                Piece::LineBreak => {
                    push_str_chars(&mut self.res, "\n");
                },
            }
            i = i + 1;
        }
        assert(all.skip(i as int) =~= Seq::<SpecChunk>::empty());
    }

    fn token(&mut self, doc: &Doc, t: Token, next: Option<Token>, from: usize, full: bool, bound: usize)
        requires
            doc.wf(),
            from + token_len(t) <= doc.payload().len(),
            t != Token::BlockStart(Block::Meta),
            t != Token::BlockEnd(Block::Meta),
            -(bound as int) <= old(self).mono <= bound,
            bound < usize::MAX,
        ensures
            final(self).view() == md_token(
                t,
                next,
                doc.payload().subrange(from as int, from + token_len(t)),
                full,
                old(self).view(),
            ),
            -(bound + 1) <= final(self).mono <= bound + 1,
    {
        proof {
            doc.lemma_wf();
        }
        match t {
            Token::Text { len, style } => {
                if skip_is_enabled(&self.skip) {
                    return;
                }
                change_to_markdown_style(&mut self.res, &mut self.cur, Styles::from_style(style));
                let input = doc.text_range(from, from + len);
                let pieces = split_chars(&input);
                self.chunks(&pieces, full);
            },
            Token::BlockStart(b) => {
                change_to_markdown_style(&mut self.res, &mut self.cur, Styles::plain());
                match b {
                    Block::Header => {
                        blank_markdown_line(&mut self.res);
                        push_str_chars(&mut self.res, "# ");
                    },
                    Block::ItemTerm => {
                        self.empty_term = next == Some(Token::BlockEnd(Block::ItemTerm));
                        if self.empty_term {
                            push_str_chars(&mut self.res, "  ");
                        } else {
                            push_str_chars(&mut self.res, "- ");
                        }
                    },
                    Block::ItemBody => {
                        new_markdown_line(&mut self.res);
                    },
                    Block::Block => {
                        push_str_chars(&mut self.res, "\n");
                    },
                    Block::Mono => {
                        self.mono = self.mono + 1;
                    },
                    Block::Section3 => push_str_chars(&mut self.res, "### "),
                    Block::InlineBlock => {
                        self.skip.push(false);
                    },
                    Block::Section2 | Block::DefinitionList | Block::Meta | Block::TermRef => {},
                }
                self.stack.push(b);
            },
            Token::BlockEnd(b) => {
                change_to_markdown_style(&mut self.res, &mut self.cur, Styles::plain());
                stack_pop_exec(&mut self.stack);
                match b {
                    Block::Header | Block::Section2 | Block::DefinitionList | Block::Block
                    | Block::Section3 => {
                        push_str_chars(&mut self.res, "\n");
                    },
                    Block::InlineBlock => {
                        skip_pop_exec(&mut self.skip);
                    },
                    Block::ItemTerm => {
                        if self.empty_term {
                            push_str_chars(&mut self.res, " ");
                        } else {
                            push_str_chars(&mut self.res, " &mdash; ");
                        }
                    },
                    Block::ItemBody => {
                        if stack_top(&self.stack) == Some(Block::DefinitionList) {
                            push_str_chars(&mut self.res, "\n");
                        }
                    },
                    Block::Mono => {
                        self.mono = self.mono - 1;
                    },
                    Block::Meta | Block::TermRef => {},
                }
            },
        }
    }
}

impl Doc {
    /// Render doc into markdown document, used by documentation sample generator
    pub fn render_markdown(&self, full: bool) -> (s: String)
        requires
            self.wf(),
            no_meta(self.tokens()),
        ensures
            s@ == markdown_of(self.tokens(), self.payload(), full),
    {
        let mut r = MdRender {
            res: Vec::new(),
            cur: Styles::plain(),
            skip: Vec::new(),
            stack: Vec::new(),
            empty_term: false,
            mono: 0,
        };
        let ghost tokens = self.tokens();
        let ghost payload = self.payload();
        let ghost init = r.view();
        let n = self.token_count();
        let mut i: usize = 0;
        let mut pos: usize = 0;
        proof {
            self.lemma_wf();
        }
        assert(tokens.skip(0) =~= tokens);
        assert(payload.skip(0) =~= payload);
        while i < n
            invariant
                self.wf(),
                n == tokens.len(),
                tokens == self.tokens(),
                payload == self.payload(),
                no_meta(tokens),
                i <= n,
                -(i as int) <= r.mono <= i,
                pos + text_len(tokens.skip(i as int)) == payload.len(),
                md_fold(tokens, payload, full, init) == md_fold(
                    tokens.skip(i as int),
                    payload.skip(pos as int),
                    full,
                    r.view(),
                ),
            decreases n - i,
        {
            let t = self.token_at(i);
            let next = if i + 1 < n {
                Some(self.token_at(i + 1))
            } else {
                None
            };
            proof {
                self.lemma_wf();
                lemma_text_len_front(tokens.skip(i as int));
                assert(tokens.skip(i as int).drop_first() =~= tokens.skip(i + 1));
                assert(payload.skip(pos as int).take(token_len(t) as int) =~= payload.subrange(
                    pos as int,
                    pos + token_len(t),
                ));
                assert(payload.skip(pos as int).skip(token_len(t) as int) =~= payload.skip(
                    pos + token_len(t),
                ));
                assert(tokens[i as int] == t);
            }
            r.token(self, t, next, pos, full, i);
            if let Token::Text { len, .. } = t {
                pos = pos + len;
            }
            i = i + 1;
        }
        change_to_markdown_style(&mut r.res, &mut r.cur, Styles::plain());
        chars_string(&r.res)
    }
}

} // verus!
