//! Markdown documents from the data folder: a single page, or a directory of pages that
//! renders to one rust file with pagination between the pages.

use crate::console::{trim_end, trim_end_exec};
use crate::md_eval::types::{fence_of, lines, lines_exec, opt_str, FenceError, SpecUpcoming, Upcoming};
use crate::text::{chars_string, decimal, push_decimal, push_str_chars, str_chars};
use pulldown_cmark::CodeBlockKind::Fenced;
use pulldown_cmark::LinkType::Inline;
use pulldown_cmark::Event::{End, Start};
use pulldown_cmark::Tag::{CodeBlock, Link};
use pulldown_cmark::{CowStr, Event, Parser, Tag};
use pulldown_cmark_to_cmark::cmark;
use crate::md_eval::md::Emit::{FenceStart, Html, LinkEnd, LinkStart, Orig};
use crate::satis::{path_debug_of, path_debug_text};
use std::path::PathBuf;
use vstd::prelude::*;

verus! {

#[verifier::external_type_specification]
#[verifier::external_body]
pub struct ExPathBuf(PathBuf);

/// Trusted: `PathBuf::clone` copies the path; paths are opaque here, so nothing is stated of
/// the copy.
pub assume_specification[ <PathBuf as Clone>::clone ](p: &PathBuf) -> (r: PathBuf);


/// Markdown document from data folder
pub enum Document {
    /// Single markdown document, used with `#[doc = ...`, renders to .md
    Page {
        /// markdown file to generate
        name: String,
        contents: String,
        /// the file the page is read from, as text
        file: String,
    },
    /// Multi page document, used with `mod`, renders to .rs
    Pages {
        /// rs file to generate
        name: String,
        /// sorted alphabetically
        pages: Vec<String>,
        /// entry point to the file, as text. "load" this to get the document again
        file: String,
        /// Original file names, used for diagnostics
        files: Vec<PathBuf>,
    },
}

/// Generated rust module
#[derive(Debug, Clone)]
pub struct Mod {
    pub name: String,
    pub code: String,
}

impl Document {
    /// Name of the document
    pub fn name(&self) -> (r: &str)
        ensures
            r@ == (match self {
                Document::Page { name, .. } => name@,
                Document::Pages { name, .. } => name@,
            }),
    {
        match self {
            Document::Page { name, .. } | Document::Pages { name, .. } => name.as_str(),
        }
    }

    /// Extension of the file the document renders to
    pub fn ext(&self) -> (r: &str)
        ensures
            r@ == (if self is Page {
                "md"@
            } else {
                "rs"@
            }),
    {
        match self {
            Document::Page { .. } => "md",
            Document::Pages { .. } => "rs",
        }
    }

    /// File the document is read from
    pub fn read_from(&self) -> (r: &str)
        ensures
            r@ == doc_path(*self),
    {
        match self {
            Document::Page { file, .. } | Document::Pages { file, .. } => file.as_str(),
        }
    }
}

/// Opening of a folded section with a title.
pub open spec fn fold_open_html(title: Seq<char>) -> Seq<char> {
    "<details><summary>"@ + title + "</summary>"@
}

/// Html that opens a folded section with a title
pub fn fold_open(title: &str) -> (r: String)
    ensures
        r@ == fold_open_html(title@),
{
    let mut v = str_chars("<details><summary>");
    push_str_chars(&mut v, title);
    push_str_chars(&mut v, "</summary>");
    chars_string(&v)
}

/// Navigation between the pages of a multi page document
#[derive(Clone, Copy)]
pub struct Pagination<'a> {
    pub pad: &'a str,
    pub index: &'a str,
    pub current: usize,
    pub pages: usize,
}

/// A line of the pagination block: the padding, `s`, a newline.
pub open spec fn pad_line(pad: Seq<char>, s: Seq<char>) -> Seq<char> {
    pad + s + "\n"@
}

/// The link to page `page`, or its bold number when it is the current one.
pub open spec fn page_link(pad: Seq<char>, index: Seq<char>, current: nat, page: nat) -> Seq<char> {
    if page == current {
        pad_line(pad, " **"@ + decimal(page + 1) + "**"@)
    } else if page == 0 {
        pad_line(pad, " [1](super::"@ + index + ")"@)
    } else {
        pad_line(pad, " ["@ + decimal(page + 1) + "](page_"@ + decimal(page) + ")"@)
    }
}

/// Links to the first `n` pages.
pub open spec fn page_links(pad: Seq<char>, index: Seq<char>, current: nat, n: nat) -> Seq<char>
    decreases n,
{
    if n == 0 {
        Seq::empty()
    } else {
        page_links(pad, index, current, (n - 1) as nat) + page_link(pad, index, current, (n - 1) as nat)
    }
}

/// The pagination block: nothing for a single page, else a centered table cell with a link
/// back, links to all pages and a link forward.
pub open spec fn pagination_text(pad: Seq<char>, index: Seq<char>, current: nat, pages: nat) -> Seq<char> {
    if pages == 1 {
        Seq::empty()
    } else {
        pad_line(pad, Seq::empty()) + pad_line(
            pad,
            " <table width='100%' cellspacing='0' style='border: hidden;'><tr>"@,
        ) + pad_line(pad, "  <td style='text-align: center;'>"@) + pad_line(pad, Seq::empty()) + (
        if current == 0 {
            Seq::empty()
        } else if current == 1 {
            pad_line(pad, " [&larr;](super::"@ + index + ")"@)
        } else {
            pad_line(pad, " [&larr;](page_"@ + decimal((current - 1) as nat) + ")"@)
        }) + page_links(pad, index, current, pages) + (if current + 1 < pages {
            pad_line(pad, " [&rarr;](page_"@ + decimal(current + 1) + ")"@)
        } else {
            Seq::empty()
        }) + pad_line(pad, Seq::empty()) + pad_line(pad, "  </td>"@) + pad_line(
            pad,
            " </tr></table>"@,
        )
    }
}

/// Appends the padding, `s` and a newline.
fn push_line(out: &mut Vec<char>, pad: &str, s: &str)
    ensures
        final(out)@ == old(out)@ + pad_line(pad@, s@),
{
    push_str_chars(out, pad);
    push_str_chars(out, s);
    push_str_chars(out, "\n");
}

impl Pagination<'_> {
    /// The pagination block
    pub fn render(&self) -> (r: String)
        requires
            self.current < usize::MAX,
        ensures
            r@ == pagination_text(self.pad@, self.index@, self.current as nat, self.pages as nat),
    {
        let pad = self.pad;
        let index = self.index;
        let current = self.current;
        let pages = self.pages;
        let mut out: Vec<char> = Vec::new();
        if pages == 1 {
            return chars_string(&out);
        }
        proof {
            reveal_strlit("");
        }
        push_line(&mut out, pad, "");
        push_line(&mut out, pad, " <table width='100%' cellspacing='0' style='border: hidden;'><tr>");
        push_line(&mut out, pad, "  <td style='text-align: center;'>");
        push_line(&mut out, pad, "");
        let ghost head = out@;
        assert(head =~= pad_line(pad@, Seq::empty()) + pad_line(
            pad@,
            " <table width='100%' cellspacing='0' style='border: hidden;'><tr>"@,
        ) + pad_line(pad@, "  <td style='text-align: center;'>"@) + pad_line(pad@, Seq::empty()));
        if current == 1 {
            push_str_chars(&mut out, pad);
            push_str_chars(&mut out, " [&larr;](super::");
            push_str_chars(&mut out, index);
            push_str_chars(&mut out, ")\n");
            proof {
                reveal_strlit(")\n");
                reveal_strlit(")");
                reveal_strlit("\n");
            }
            assert(out@ =~= head + pad_line(pad@, " [&larr;](super::"@ + index@ + ")"@));
        } else if current > 1 {
            push_str_chars(&mut out, pad);
            push_str_chars(&mut out, " [&larr;](page_");
            push_decimal(&mut out, current - 1);
            push_str_chars(&mut out, ")\n");
            proof {
                reveal_strlit(")\n");
                reveal_strlit(")");
                reveal_strlit("\n");
            }
            assert(out@ =~= head + pad_line(
                pad@,
                " [&larr;](page_"@ + decimal((current - 1) as nat) + ")"@,
            ));
        }
        let ghost before_links = out@;
        let ghost prev_link = if current == 0 {
            Seq::<char>::empty()
        } else if current == 1 {
            pad_line(pad@, " [&larr;](super::"@ + index@ + ")"@)
        } else {
            pad_line(pad@, " [&larr;](page_"@ + decimal((current - 1) as nat) + ")"@)
        };
        assert(before_links =~= head + prev_link);
        let mut page: usize = 0;
        while page < pages
            invariant
                page <= pages,
                pad@ == self.pad@,
                index@ == self.index@,
                out@ == before_links + page_links(pad@, index@, current as nat, page as nat),
            decreases pages - page,
        {
            let ghost prev = out@;
            if page == current {
                push_str_chars(&mut out, pad);
                push_str_chars(&mut out, " **");
                push_decimal(&mut out, page + 1);
                push_str_chars(&mut out, "**\n");
                proof {
                    reveal_strlit("**\n");
                    reveal_strlit("**");
                    reveal_strlit("\n");
                }
                assert(out@ =~= prev + page_link(pad@, index@, current as nat, page as nat));
            } else if page == 0 {
                push_str_chars(&mut out, pad);
                push_str_chars(&mut out, " [1](super::");
                push_str_chars(&mut out, index);
                push_str_chars(&mut out, ")\n");
                proof {
                    reveal_strlit(")\n");
                    reveal_strlit(")");
                    reveal_strlit("\n");
                }
                assert(out@ =~= prev + page_link(pad@, index@, current as nat, page as nat));
            } else {
                push_str_chars(&mut out, pad);
                push_str_chars(&mut out, " [");
                push_decimal(&mut out, page + 1);
                push_str_chars(&mut out, "](page_");
                push_decimal(&mut out, page);
                push_str_chars(&mut out, ")\n");
                proof {
                    reveal_strlit(")\n");
                    reveal_strlit(")");
                    reveal_strlit("\n");
                }
                assert(out@ =~= prev + page_link(pad@, index@, current as nat, page as nat));
            }
            page = page + 1;
        }
        let ghost before_next = out@;
        let ghost next_link = if current + 1 < pages {
            pad_line(pad@, " [&rarr;](page_"@ + decimal((current + 1) as nat) + ")"@)
        } else {
            Seq::<char>::empty()
        };
        if current + 1 < pages {
            push_str_chars(&mut out, pad);
            push_str_chars(&mut out, " [&rarr;](page_");
            push_decimal(&mut out, current + 1);
            push_str_chars(&mut out, ")\n");
            proof {
                reveal_strlit(")\n");
                reveal_strlit(")");
                reveal_strlit("\n");
            }
            assert(out@ =~= before_next + pad_line(
                pad@,
                " [&rarr;](page_"@ + decimal((current + 1) as nat) + ")"@,
            ));
        }
        assert(out@ =~= before_next + next_link);
        push_line(&mut out, pad, "");
        push_line(&mut out, pad, "  </td>");
        push_line(&mut out, pad, " </tr></table>");
        assert(out@ =~= pagination_text(pad@, index@, current as nat, pages as nat));
        chars_string(&out)
    }
}

#[verifier::external_type_specification]
#[verifier::external_body]
pub struct ExFmtError(std::fmt::Error);

/// A markdown event, as far as generating and rendering documents needs to tell them apart
#[derive(Debug, Clone)]
pub enum MdEvent {
    /// Start of a fenced code block, with its info string
    StartFence(String),
    /// End of a fenced code block
    EndFence,
    /// Text; `true` when the parser lent the text straight out of the document
    Text(String, bool),
    /// Inline code
    Code(String),
    /// Anything else
    Other,
}

/// Mathematical form of an [`MdEvent`]
pub enum SpecMdEvent {
    StartFence(Seq<char>),
    EndFence,
    Text(Seq<char>, bool),
    Code(Seq<char>),
    Other,
}

impl MdEvent {
    /// The event as a mathematical value.
    pub open spec fn spec(&self) -> SpecMdEvent {
        match self {
            MdEvent::StartFence(f) => SpecMdEvent::StartFence(f@),
            MdEvent::EndFence => SpecMdEvent::EndFence,
            MdEvent::Text(t, b) => SpecMdEvent::Text(t@, *b),
            MdEvent::Code(c) => SpecMdEvent::Code(c@),
            MdEvent::Other => SpecMdEvent::Other,
        }
    }
}

/// Events as mathematical values.
pub open spec fn events_spec(v: Seq<MdEvent>) -> Seq<SpecMdEvent> {
    v.map_values(|e: MdEvent| e.spec())
}

/// The events `pulldown_cmark::Parser` reads from a markdown text.
pub uninterp spec fn markdown_events(text: Seq<char>) -> Seq<SpecMdEvent>;

/// The events of a markdown text.
///
/// Trusted: runs `pulldown_cmark::Parser::new` over the text and tells the events apart;
/// the events are named, not described: they are determined by the text.
#[verifier::external_body]
fn md_events(text: &str) -> (r: Vec<MdEvent>)
    ensures
        events_spec(r@) == markdown_events(text@),
{
    Parser::new(text).map(|e| match e {
        Event::Start(Tag::CodeBlock(Fenced(f))) => MdEvent::StartFence(f.to_string()),
        Event::End(Tag::CodeBlock(Fenced(_))) => MdEvent::EndFence,
        Event::Text(CowStr::Borrowed(t)) => MdEvent::Text(t.to_string(), true),
        Event::Text(t) => MdEvent::Text(t.to_string(), false),
        Event::Code(c) => MdEvent::Code(c.to_string()),
        _ => MdEvent::Other,
    }).collect()
}

/// An event of a rendered document
#[derive(Debug, Clone)]
pub enum Emit {
    /// The event of the source document at this position
    Orig(usize),
    /// Raw html
    Html(String),
    /// Start of a fenced code block in the given language
    FenceStart(String),
    /// Start of an inline link to a destination, with a title
    LinkStart(String, String),
    /// End of an inline link to a destination, with a title
    LinkEnd(String, String),
}

/// Mathematical form of an [`Emit`]
pub enum SpecEmit {
    Orig(usize),
    Html(Seq<char>),
    FenceStart(Seq<char>),
    LinkStart(Seq<char>, Seq<char>),
    LinkEnd(Seq<char>, Seq<char>),
}

impl Emit {
    /// The event as a mathematical value.
    pub open spec fn spec(&self) -> SpecEmit {
        match self {
            Emit::Orig(i) => SpecEmit::Orig(*i),
            Emit::Html(h) => SpecEmit::Html(h@),
            Emit::FenceStart(l) => SpecEmit::FenceStart(l@),
            Emit::LinkStart(d, t) => SpecEmit::LinkStart(d@, t@),
            Emit::LinkEnd(d, t) => SpecEmit::LinkEnd(d@, t@),
        }
    }
}

/// Emitted events as mathematical values.
pub open spec fn emits_spec(v: Seq<Emit>) -> Seq<SpecEmit> {
    v.map_values(|e: Emit| e.spec())
}

/// Source events the plan refers to exist.
pub open spec fn plan_in_bounds(plan: Seq<SpecEmit>, n: nat) -> bool {
    forall|k: int| 0 <= k < plan.len() ==> (#[trigger] plan[k] matches SpecEmit::Orig(i) ==> i < n)
}

/// The markdown `pulldown_cmark_to_cmark::cmark` writes for the events of a plan.
pub uninterp spec fn cmark_text(text: Seq<char>, plan: Seq<SpecEmit>) -> Seq<char>;

/// Markdown for the events of a plan over a source document.
///
/// Trusted: parses `text` with `pulldown_cmark::Parser::new`, builds the events of the plan
/// (source events by position, html, fence starts in the language the plan gives, inline link
/// starts and ends with the destination and title the plan gives) and
/// writes them with `pulldown_cmark_to_cmark::cmark`; the text written is named, not
/// described: it is determined by the source and the plan. `cmark` fails only when its writer
/// does, and writing into a `String` does not fail, so the call succeeds.
#[verifier::external_body]
fn cmark_render(text: &str, plan: &Vec<Emit>) -> (r: Result<String, std::fmt::Error>)
    requires
        plan_in_bounds(emits_spec(plan@), markdown_events(text@).len()),
    ensures
        r is Ok,
        r matches Ok(s) ==> s@ == cmark_text(text@, emits_spec(plan@)),
{
    let evs: Vec<Event> = Parser::new(text).collect();
    let link = |d: &String, t: &String| Link(Inline, d.clone().into(), t.clone().into());
    let out = plan.iter().map(|p| match p {
        Orig(i) => evs[*i].clone(),
        Html(h) => Event::Html(h.as_str().into()),
        FenceStart(l) => Start(CodeBlock(Fenced(l.as_str().into()))),
        LinkStart(d, t) => Start(link(d, t)),
        LinkEnd(d, t) => End(link(d, t)),
    });
    let mut res = String::new();
    cmark(out, &mut res)?;
    Ok(res)
}

/// Html opening a fold for a title, if there is one.
pub open spec fn fold_start(title: Option<Seq<char>>) -> Seq<SpecEmit> {
    match title {
        Some(t) => seq![SpecEmit::Html(fold_open_html(t))],
        None => Seq::empty(),
    }
}

/// Html closing the fold of a title, if there is one.
pub open spec fn fold_end(title: Option<Seq<char>>) -> Seq<SpecEmit> {
    match title {
        Some(_) => seq![SpecEmit::Html("</details>"@)],
        None => Seq::empty(),
    }
}

/// The text of an exec block: the command line and the output it gave.
pub open spec fn exec_html(code: Seq<char>, snip: Seq<char>) -> Seq<char> {
    "\n\n```text\n$ app "@ + code + snip + "```\n\n"@
}

/// Text of an inline link: inline code or text.
pub open spec fn link_text(e: SpecMdEvent) -> Option<Seq<char>> {
    match e {
        SpecMdEvent::Code(b) => Some(b),
        SpecMdEvent::Text(b, _) => Some(b),
        _ => None,
    }
}

/// Text `[` or `]` lent straight out of the document.
pub open spec fn is_bracket(e: SpecMdEvent, c: char) -> bool {
    e matches SpecMdEvent::Text(t, true) && t == seq![c]
}

/// The events of a rendered document from source event `i` on, and how many outputs were
/// used: rust blocks get a `rust` fence and a fold when titled, exec blocks are replaced by
/// the command line and its output, `[text]` becomes a link to `text`. Rendering stops
/// where the source ends in the middle of such a construct.
pub open spec fn splice_from(evs: Seq<SpecMdEvent>, i: nat, outs: Seq<Seq<char>>, used: nat) -> (Seq<SpecEmit>, nat)
    decreases evs.len() - i,
{
    if i >= evs.len() {
        (Seq::empty(), used)
    } else {
        match evs[i as int] {
            SpecMdEvent::StartFence(f) => match fence_of(f) {
                Ok(SpecUpcoming::Code { title, .. }) => if i + 2 < evs.len() {
                    let head = fold_start(title) + seq![
                        SpecEmit::FenceStart("rust"@),
                        SpecEmit::Orig((i + 1) as usize),
                        SpecEmit::Orig((i + 2) as usize),
                    ] + fold_end(title);
                    let rest = splice_from(evs, i + 3, outs, used);
                    (head + rest.0, rest.1)
                } else {
                    (Seq::empty(), used)
                },
                Ok(SpecUpcoming::Exec { title, ids }) => if i + 1 >= evs.len() {
                    (Seq::empty(), used)
                } else if i + 2 >= evs.len() {
                    (Seq::empty(), used + ids.len())
                } else {
                    let code = evs[i + 1int]->Text_0;
                    let head = fold_start(title) + seq![SpecEmit::Html(exec_html(code, outs[used as int]))]
                        + fold_end(title);
                    let rest = splice_from(evs, i + 3, outs, used + ids.len());
                    (head + rest.0, rest.1)
                },
                _ => {
                    let rest = splice_from(evs, i + 1, outs, used);
                    (seq![SpecEmit::Orig(i as usize)] + rest.0, rest.1)
                },
            },
            SpecMdEvent::Text(t, true) if t == seq!['['] => if i + 2 < evs.len() {
                let head = match link_text(evs[i + 1int]) {
                    Some(b) if is_bracket(evs[i + 2int], ']') => seq![
                        SpecEmit::LinkStart(b, Seq::empty()),
                        SpecEmit::Orig((i + 1) as usize),
                        SpecEmit::LinkEnd(b, Seq::empty()),
                    ],
                    _ => seq![
                        SpecEmit::Orig(i as usize),
                        SpecEmit::Orig((i + 1) as usize),
                        SpecEmit::Orig((i + 2) as usize),
                    ],
                };
                let rest = splice_from(evs, i + 3, outs, used);
                (head + rest.0, rest.1)
            } else {
                (Seq::empty(), used)
            },
            _ => {
                let rest = splice_from(evs, i + 1, outs, used);
                (seq![SpecEmit::Orig(i as usize)] + rest.0, rest.1)
            },
        }
    }
}

/// An event the renderer has nothing to change in: no fence and no `[` of a link.
pub open spec fn plain_event(e: SpecMdEvent) -> bool {
    !(e is StartFence) && !(e matches SpecMdEvent::Text(t, true) && t == seq!['['])
}

/// Events that are neither fences nor the `[` of a link pass through rendering as they
/// are, in order, and use no outputs.
#[verifier::spinoff_prover]
pub proof fn law_splice_plain_passes(evs: Seq<SpecMdEvent>, i: nat, outs: Seq<Seq<char>>, used: nat)
    requires
        i <= evs.len(),
        forall|j: int| i <= j < evs.len() ==> plain_event(#[trigger] evs[j]),
    ensures
        ({
            let (r, u) = splice_from(evs, i, outs, used);
            &&& u == used
            &&& r.len() == evs.len() - i
            &&& forall|j: int| 0 <= j < r.len() ==> #[trigger] r[j] == SpecEmit::Orig((i + j) as usize)
        }),
    decreases evs.len() - i,
{
    if i < evs.len() {
        law_splice_plain_passes(evs, i + 1, outs, used);
        let e = evs[i as int];
        assert(plain_event(e));
        let rest = splice_from(evs, i + 1, outs, used);
        assert(splice_from(evs, i, outs, used) == (seq![SpecEmit::Orig(i as usize)] + rest.0, rest.1)) by {
            match e {
                SpecMdEvent::Text(t, b) => {
                    assert(!(b && t == seq!['[']));
                },
                _ => {},
            }
        }
        let r = splice_from(evs, i, outs, used).0;
        assert forall|j: int| 0 <= j < r.len() implies #[trigger] r[j] == SpecEmit::Orig((i + j) as usize) by {
            if j > 0 {
                assert(r[j] == rest.0[j - 1]);
                assert(i + 1 + (j - 1) == i + j);
            }
        }
    }
}

/// `[text]` or ``[`code`]`` in the source becomes a link to that text whose shown text is
/// the original event; rendering goes on after the closing bracket with the same outputs.
#[verifier::spinoff_prover]
pub proof fn law_splice_bracket_link(evs: Seq<SpecMdEvent>, i: nat, outs: Seq<Seq<char>>, used: nat, b: Seq<char>)
    requires
        i + 2 < evs.len(),
        evs[i as int] == SpecMdEvent::Text(seq!['['], true),
        link_text(evs[i + 1int]) == Some(b),
        evs[i + 2int] == SpecMdEvent::Text(seq![']'], true),
    ensures
        ({
            let (r, u) = splice_from(evs, i, outs, used);
            let rest = splice_from(evs, i + 3, outs, used);
            &&& r == seq![
                SpecEmit::LinkStart(b, Seq::empty()),
                SpecEmit::Orig((i + 1) as usize),
                SpecEmit::LinkEnd(b, Seq::empty()),
            ] + rest.0
            &&& u == rest.1
        }),
{
    assert(is_bracket(evs[i + 2int], ']'));
}

/// The outputs used by an exec block over `n` code blocks exist and agree.
pub open spec fn outs_agree(outs: Seq<Seq<char>>, used: nat, n: nat) -> bool {
    &&& used < outs.len()
    &&& n > 1 ==> used + n <= outs.len()
    &&& forall|k: int| 1 <= k < n ==> #[trigger] outs[used + k] == outs[used as int]
}

/// Rendering from source event `i` on takes no step the renderer refuses: every fence is
/// understood, an exec block holds text and the outputs it uses exist and agree.
pub open spec fn splice_ok(evs: Seq<SpecMdEvent>, i: nat, outs: Seq<Seq<char>>, used: nat) -> bool
    decreases evs.len() - i,
{
    if i >= evs.len() {
        true
    } else {
        match evs[i as int] {
            SpecMdEvent::StartFence(f) => match fence_of(f) {
                Err(_) => false,
                Ok(SpecUpcoming::Code { .. }) => i + 2 < evs.len() ==> splice_ok(evs, i + 3, outs, used),
                Ok(SpecUpcoming::Exec { ids, .. }) => i + 1 < evs.len() ==> {
                    &&& evs[i + 1int] is Text
                    &&& outs_agree(outs, used, ids.len())
                    &&& (i + 2 < evs.len() ==> splice_ok(evs, i + 3, outs, used + ids.len()))
                },
                Ok(SpecUpcoming::Ignore) => splice_ok(evs, i + 1, outs, used),
            },
            SpecMdEvent::Text(t, true) if t == seq!['['] => i + 2 < evs.len() ==> splice_ok(evs, i + 3, outs, used),
            _ => splice_ok(evs, i + 1, outs, used),
        }
    }
}

/// Outputs as mathematical values.
pub open spec fn outs_spec(v: Seq<String>) -> Seq<Seq<char>> {
    v.map_values(|s: String| s@)
}

fn push_emit(plan: &mut Vec<Emit>, e: Emit)
    ensures
        emits_spec(final(plan)@) == emits_spec(old(plan)@).push(e.spec()),
{
    plan.push(e);
    assert(emits_spec(plan@) =~= emits_spec(old(plan)@).push(e.spec()));
}

fn push_fold_start(plan: &mut Vec<Emit>, title: &Option<String>)
    ensures
        emits_spec(final(plan)@) == emits_spec(old(plan)@) + fold_start(opt_str(*title)),
{
    match title {
        Some(t) => push_emit(plan, Emit::Html(fold_open(t.as_str()))),
        None => {
            assert(emits_spec(plan@) =~= emits_spec(plan@) + fold_start(opt_str(*title)));
        },
    }
}

fn push_fold_end(plan: &mut Vec<Emit>, title: &Option<String>)
    ensures
        emits_spec(final(plan)@) == emits_spec(old(plan)@) + fold_end(opt_str(*title)),
{
    match title {
        Some(_) => push_emit(plan, Emit::Html(String::from_str("</details>"))),
        None => {
            assert(emits_spec(plan@) =~= emits_spec(plan@) + fold_end(opt_str(*title)));
        },
    }
}

/// Checks whether a text is the single character `c`.
fn is_single(t: &String, c: char) -> (r: bool)
    ensures
        r == (t@ == seq![c]),
{
    let v = str_chars(t.as_str());
    let r = v.len() == 1 && v[0] == c;
    if r {
        assert(v@ =~= seq![c]);
    }
    r
}

/// The events of the rendered document and how many outputs were used, as [`splice_from`]
/// describes them
pub fn splice(evs: &Vec<MdEvent>, outs: &Vec<String>, used: usize) -> (r: (Vec<Emit>, usize))
    requires
        splice_ok(events_spec(evs@), 0, outs_spec(outs@), used as nat),
    ensures
        (emits_spec(r.0@), r.1 as nat) == splice_from(events_spec(evs@), 0, outs_spec(outs@), used as nat),
        plan_in_bounds(emits_spec(r.0@), evs@.len()),
{
    let ghost ev = events_spec(evs@);
    let ghost ov = outs_spec(outs@);
    let ghost goal = splice_from(ev, 0, ov, used as nat);
    let n = evs.len();
    let mut plan: Vec<Emit> = Vec::new();
    let mut u = used;
    let mut i: usize = 0;
    assert(emits_spec(plan@) =~= Seq::<SpecEmit>::empty());
    assert(goal.0 =~= emits_spec(plan@) + splice_from(ev, 0, ov, u as nat).0);
    while i < n
        invariant
            n == evs@.len(),
            ev == events_spec(evs@),
            ov == outs_spec(outs@),
            i <= n,
            goal == splice_from(ev, 0, ov, used as nat),
            goal.0 == emits_spec(plan@) + splice_from(ev, i as nat, ov, u as nat).0,
            goal.1 == splice_from(ev, i as nat, ov, u as nat).1,
            splice_ok(ev, i as nat, ov, u as nat),
            plan_in_bounds(emits_spec(plan@), n as nat),
        decreases n - i,
    {
        let ghost before = emits_spec(plan@);
        assert(ev[i as int] == evs@[i as int].spec());
        match &evs[i] {
            MdEvent::StartFence(f) => {
                match Upcoming::parse_fence(f.as_str()) {
                    Err(_) => {
                        assert(false);
                        return (plan, u);
                    },
                    Ok(Upcoming::Code { title, .. }) => {
                        if n - i > 2 {
                            push_fold_start(&mut plan, &title);
                            push_emit(&mut plan, Emit::FenceStart(chars_string(&str_chars("rust"))));
                            push_emit(&mut plan, Emit::Orig(i + 1));
                            push_emit(&mut plan, Emit::Orig(i + 2));
                            push_fold_end(&mut plan, &title);
                            let ghost head = fold_start(opt_str(title)) + seq![
                                SpecEmit::FenceStart("rust"@),
                                SpecEmit::Orig((i + 1) as usize),
                                SpecEmit::Orig((i + 2) as usize),
                            ] + fold_end(opt_str(title));
                            assert(emits_spec(plan@) =~= before + head);
                            assert(plan_in_bounds(emits_spec(plan@), n as nat)) by {
                                assert forall|k: int| 0 <= k < emits_spec(plan@).len() implies (#[trigger] emits_spec(plan@)[k] matches SpecEmit::Orig(j) ==> j < n) by {
                                    if k >= before.len() {
                                        assert(emits_spec(plan@)[k] == head[k - before.len()]);
                                    }
                                }
                            }
                            i = i + 3;
                        } else {
                            return (plan, u);
                        }
                    },
                    Ok(Upcoming::Exec { title, ids }) => {
                        if n - i <= 1 {
                            return (plan, u);
                        }
                        assert(ev[i + 1] == evs@[i + 1].spec());
                        let code = match &evs[i + 1] {
                            MdEvent::Text(c, _) => c,
                            _ => {
                                assert(false);
                                return (plan, u);
                            },
                        };
                        let k = ids.len();
                        let olen = outs.len();
                        assert(ov.len() == olen);
                        if n - i <= 2 {
                            return (plan, u + k);
                        }
                        let snip = &outs[u];
                        let mut html = str_chars("\n\n```text\n$ app ");
                        push_str_chars(&mut html, code.as_str());
                        push_str_chars(&mut html, snip.as_str());
                        push_str_chars(&mut html, "```\n\n");
                        let h = chars_string(&html);
                        assert(h@ == exec_html(code@, ov[u as int]));
                        push_fold_start(&mut plan, &title);
                        push_emit(&mut plan, Emit::Html(h));
                        push_fold_end(&mut plan, &title);
                        let ghost head = fold_start(opt_str(title)) + seq![SpecEmit::Html(exec_html(code@, ov[u as int]))]
                            + fold_end(opt_str(title));
                        assert(emits_spec(plan@) =~= before + head);
                        assert(plan_in_bounds(emits_spec(plan@), n as nat)) by {
                            assert forall|j: int| 0 <= j < emits_spec(plan@).len() implies (#[trigger] emits_spec(plan@)[j] matches SpecEmit::Orig(x) ==> x < n) by {
                                if j >= before.len() {
                                    assert(emits_spec(plan@)[j] == head[j - before.len()]);
                                }
                            }
                        }
                        u = u + k;
                        i = i + 3;
                    },
                    Ok(Upcoming::Ignore) => {
                        push_emit(&mut plan, Emit::Orig(i));
                        assert(emits_spec(plan@) =~= before + seq![SpecEmit::Orig(i)]);
                        i = i + 1;
                    },
                }
            },
            MdEvent::Text(t, borrowed) => {
                if *borrowed && is_single(t, '[') {
                    if n - i > 2 {
                        assert(ev[i + 1] == evs@[i + 1].spec());
                        assert(ev[i + 2] == evs@[i + 2].spec());
                        let b: Option<String> = match &evs[i + 1] {
                            MdEvent::Code(b) => Some(b.clone()),
                            MdEvent::Text(b, _) => Some(b.clone()),
                            _ => None,
                        };
                        let closing = match &evs[i + 2] {
                            MdEvent::Text(c, true) => is_single(c, ']'),
                            _ => false,
                        };
                        let ghost head: Seq<SpecEmit>;
                        match b {
                            Some(b) if closing => {
                                let b2 = b.clone();
                                push_emit(&mut plan, Emit::LinkStart(b, String::new()));
                                push_emit(&mut plan, Emit::Orig(i + 1));
                                push_emit(&mut plan, Emit::LinkEnd(b2, String::new()));
                                proof {
                                    head = seq![
                                        SpecEmit::LinkStart(b@, Seq::empty()),
                                        SpecEmit::Orig((i + 1) as usize),
                                        SpecEmit::LinkEnd(b@, Seq::empty()),
                                    ];
                                }
                            },
                            _ => {
                                push_emit(&mut plan, Emit::Orig(i));
                                push_emit(&mut plan, Emit::Orig(i + 1));
                                push_emit(&mut plan, Emit::Orig(i + 2));
                                proof {
                                    head = seq![SpecEmit::Orig(i as usize), SpecEmit::Orig((i + 1) as usize), SpecEmit::Orig((i + 2) as usize)];
                                }
                            },
                        }
                        assert(emits_spec(plan@) =~= before + head);
                        assert(plan_in_bounds(emits_spec(plan@), n as nat)) by {
                            assert forall|j: int| 0 <= j < emits_spec(plan@).len() implies (#[trigger] emits_spec(plan@)[j] matches SpecEmit::Orig(x) ==> x < n) by {
                                if j >= before.len() {
                                    assert(emits_spec(plan@)[j] == head[j - before.len()]);
                                }
                            }
                        }
                        i = i + 3;
                    } else {
                        return (plan, u);
                    }
                } else {
                    push_emit(&mut plan, Emit::Orig(i));
                    assert(emits_spec(plan@) =~= before + seq![SpecEmit::Orig(i)]);
                    i = i + 1;
                }
            },
            _ => {
                push_emit(&mut plan, Emit::Orig(i));
                assert(emits_spec(plan@) =~= before + seq![SpecEmit::Orig(i)]);
                i = i + 1;
            },
        }
    }
    assert(goal.0 =~= emits_spec(plan@));
    (plan, u)
}

/// Why a document could not be rendered
#[derive(Debug)]
pub enum RenderError {
    /// Writing markdown failed
    Format(std::fmt::Error),
    /// A fence of the document is not understood
    Fence(FenceError),
    /// Two code blocks of a page have the same id
    Duplicate(usize),
}

/// Markdown of one page and how many outputs were used after it.
pub open spec fn page_md(text: Seq<char>, outs: Seq<Seq<char>>, used: nat) -> (Seq<char>, nat) {
    let (plan, u) = splice_from(markdown_events(text), 0, outs, used);
    (cmark_text(text, plan), u)
}

/// Lines turned into doc comments: each line without trailing whitespace after `pad` and a
/// space, an empty line as `pad` alone.
pub open spec fn comment_lines(ls: Seq<Seq<char>>, pad: Seq<char>) -> Seq<char>
    decreases ls.len(),
{
    if ls.len() == 0 {
        Seq::empty()
    } else {
        let l = trim_end(ls.last());
        comment_lines(ls.drop_last(), pad) + if l.len() == 0 {
            pad + "\n"@
        } else {
            pad + " "@ + l + "\n"@
        }
    }
}

/// Pages from `k` on, each a documented empty module with pagination.
pub open spec fn pages_md(pages: Seq<Seq<char>>, k: nat, outs: Seq<Seq<char>>, used: nat, name: Seq<char>) -> Seq<char>
    decreases pages.len() - k,
{
    if k >= pages.len() {
        Seq::empty()
    } else {
        let (buf, u) = page_md(pages[k as int], outs, used);
        "\n\n"@ + comment_lines(lines(buf), "///"@) + pagination_text("///"@, name, k, pages.len())
            + "pub mod page_"@ + decimal(k) + " {}\n"@ + pages_md(pages, k + 1, outs, u, name)
    }
}

/// Pages from `k` on render without a step the renderer refuses.
pub open spec fn pages_ok(pages: Seq<Seq<char>>, k: nat, outs: Seq<Seq<char>>, used: nat) -> bool
    decreases pages.len() - k,
{
    if k >= pages.len() {
        true
    } else {
        &&& splice_ok(markdown_events(pages[k as int]), 0, outs, used)
        &&& pages_ok(pages, k + 1, outs, page_md(pages[k as int], outs, used).1)
    }
}

/// Pages as mathematical values.
pub open spec fn pages_spec(v: Seq<String>) -> Seq<Seq<char>> {
    v.map_values(|s: String| s@)
}

/// The markdown of a document: a page as it is, rust doc comments for several pages, the
/// first page documenting the module and each other one an empty module, with pagination.
pub open spec fn document_md(doc: Document, outs: Seq<Seq<char>>) -> Seq<char> {
    match doc {
        Document::Page { contents, .. } => page_md(contents@, outs, 0).0,
        Document::Pages { pages, name, .. } => {
            let ps = pages_spec(pages@);
            let (buf, u) = page_md(ps[0], outs, 0);
            comment_lines(lines(buf), "//!"@) + pagination_text("//!"@, name@, 0, ps.len())
                + "#[allow(unused_imports)] use crate::{*, parsers::*};\n"@ + pages_md(ps, 1, outs, u, name@)
        },
    }
}

/// The document renders without a step the renderer refuses.
pub open spec fn document_ok(doc: Document, outs: Seq<Seq<char>>) -> bool {
    match doc {
        Document::Page { contents, .. } => splice_ok(markdown_events(contents@), 0, outs, 0),
        Document::Pages { pages, .. } => pages@.len() > 0 && pages_ok(pages_spec(pages@), 0, outs, 0),
    }
}

/// Markdown of one page and the outputs used after it.
fn render_page(text: &str, outs: &Vec<String>, used: usize) -> (r: Result<(String, usize), RenderError>)
    requires
        splice_ok(markdown_events(text@), 0, outs_spec(outs@), used as nat),
    ensures
        r is Ok,
        r matches Ok((s, u)) ==> (s@, u as nat) == page_md(text@, outs_spec(outs@), used as nat),
{
    let evs = md_events(text);
    let (plan, u) = splice(&evs, outs, used);
    match cmark_render(text, &plan) {
        Ok(s) => Ok((s, u)),
        Err(e) => Err(RenderError::Format(e)),
    }
}

/// Appends the lines of `buf` as doc comments.
fn push_comment_lines(res: &mut Vec<char>, buf: &str, pad: &str)
    ensures
        final(res)@ == old(res)@ + comment_lines(lines(buf@), pad@),
{
    let ls = lines_exec(buf);
    let ghost lv = ls@.map_values(|w: Vec<char>| w@);
    let ghost start = res@;
    let mut i: usize = 0;
    assert(lv.take(0) =~= Seq::<Seq<char>>::empty());
    while i < ls.len()
        invariant
            i <= ls@.len(),
            lv == ls@.map_values(|w: Vec<char>| w@),
            lv == lines(buf@),
            res@ == start + comment_lines(lv.take(i as int), pad@),
        decreases ls.len() - i,
    {
        assert(lv.take(i + 1).drop_last() =~= lv.take(i as int));
        assert(lv.take(i + 1).last() == ls@[i as int]@);
        let ghost before = res@;
        let mut line = ls[i].clone();
        assert(line@ =~= ls@[i as int]@);
        trim_end_exec(&mut line);
        push_str_chars(res, pad);
        if line.len() == 0 {
            push_str_chars(res, "\n");
        } else {
            push_str_chars(res, " ");
            crate::text::push_chars(res, &line);
            push_str_chars(res, "\n");
        }
        assert(res@ =~= start + comment_lines(lv.take(i + 1), pad@));
        i = i + 1;
    }
    assert(lv.take(i as int) =~= lv);
}

impl Document {
    /// Renders the document to markdown with the given outputs of its exec blocks
    pub fn render_markdown(&self, out: &Vec<String>) -> (r: Result<String, RenderError>)
        requires
            document_ok(*self, outs_spec(out@)),
        ensures
            r is Ok,
            r matches Ok(s) ==> s@ == document_md(*self, outs_spec(out@)),
    {
        let ghost ov = outs_spec(out@);
        match self {
            Document::Page { contents, .. } => {
                let (res, _) = render_page(contents.as_str(), out, 0)?;
                Ok(res)
            },
            Document::Pages { pages, name, .. } => {
                let ghost ps = pages_spec(pages@);
                let mut res: Vec<char> = Vec::new();
                assert(ps[0] == pages@[0]@);
                let (buf, mut x) = render_page(pages[0].as_str(), out, 0)?;
                push_comment_lines(&mut res, buf.as_str(), "//!");
                let first = Pagination { pad: "//!", index: name.as_str(), current: 0, pages: pages.len() };
                let p = first.render();
                push_str_chars(&mut res, p.as_str());
                push_str_chars(&mut res, "#[allow(unused_imports)] use crate::{*, parsers::*};\n");
                let ghost head = res@;
                let mut k: usize = 1;
                assert(pages_ok(ps, 0, ov, 0));
                while k < pages.len()
                    invariant
                        1 <= k <= pages@.len(),
                        ps == pages_spec(pages@),
                        ov == outs_spec(out@),
                        pages_ok(ps, k as nat, ov, x as nat),
                        res@ + pages_md(ps, k as nat, ov, x as nat, name@) == head + pages_md(ps, 1, ov, page_md(ps[0], ov, 0).1, name@),
                    decreases pages.len() - k,
                {
                    assert(ps[k as int] == pages@[k as int]@);
                    let ghost before = res@;
                    let (buf, u) = render_page(pages[k].as_str(), out, x)?;
                    push_str_chars(&mut res, "\n\n");
                    push_comment_lines(&mut res, buf.as_str(), "///");
                    let pag = Pagination { pad: "///", index: name.as_str(), current: k, pages: pages.len() };
                    let p = pag.render();
                    push_str_chars(&mut res, p.as_str());
                    push_str_chars(&mut res, "pub mod page_");
                    push_decimal(&mut res, k);
                    push_str_chars(&mut res, " {}\n");
                    assert(res@ =~= before + ("\n\n"@ + comment_lines(lines(buf@), "///"@) + pagination_text("///"@, name@, k as nat, ps.len())
                        + "pub mod page_"@ + decimal(k as nat) + " {}\n"@));
                    x = u;
                    k = k + 1;
                }
                assert(pages_md(ps, k as nat, ov, x as nat, name@) == Seq::<char>::empty());
                assert(res@ =~= head + pages_md(ps, 1, ov, page_md(ps[0], ov, 0).1, name@));
                Ok(chars_string(&res))
            },
        }
    }
}

/// Checks that the outputs an exec block uses exist and agree.
fn outs_agree_exec(outs: &Vec<String>, used: usize, n: usize) -> (r: bool)
    ensures
        r == outs_agree(outs_spec(outs@), used as nat, n as nat),
{
    let ghost ov = outs_spec(outs@);
    if used >= outs.len() {
        return false;
    }
    if n > 1 && n > outs.len() - used {
        return false;
    }
    let olen = outs.len();
    let mut k: usize = 1;
    while k < n
        invariant
            1 <= k,
            olen == outs@.len(),
            used < outs@.len(),
            n > 1 ==> used + n <= outs@.len(),
            k <= n || n <= 1,
            ov == outs_spec(outs@),
            forall|j: int| 1 <= j < k ==> #[trigger] ov[used + j] == ov[used as int],
        decreases n - k,
    {
        assert(ov[used + k] == outs@[used + k]@);
        assert(ov[used as int] == outs@[used as int]@);
        if !crate::text::chars_eq(&str_chars(outs[used + k].as_str()), &str_chars(outs[used].as_str())) {
            return false;
        }
        k = k + 1;
    }
    true
}

/// Checks that rendering takes no step the renderer refuses.
fn splice_check(evs: &Vec<MdEvent>, outs: &Vec<String>, used: usize) -> (r: bool)
    ensures
        r == splice_ok(events_spec(evs@), 0, outs_spec(outs@), used as nat),
{
    let ghost ev = events_spec(evs@);
    let ghost ov = outs_spec(outs@);
    let n = evs.len();
    let mut u = used;
    let mut i: usize = 0;
    while i < n
        invariant
            n == evs@.len(),
            ev == events_spec(evs@),
            ov == outs_spec(outs@),
            i <= n,
            splice_ok(ev, 0, ov, used as nat) == splice_ok(ev, i as nat, ov, u as nat),
        decreases n - i,
    {
        assert(ev[i as int] == evs@[i as int].spec());
        match &evs[i] {
            MdEvent::StartFence(f) => {
                match Upcoming::parse_fence(f.as_str()) {
                    Err(_) => {
                        return false;
                    },
                    Ok(Upcoming::Code { .. }) => {
                        if n - i > 2 {
                            i = i + 3;
                        } else {
                            return true;
                        }
                    },
                    Ok(Upcoming::Exec { ids, .. }) => {
                        if n - i <= 1 {
                            return true;
                        }
                        assert(ev[i + 1] == evs@[i + 1].spec());
                        match &evs[i + 1] {
                            MdEvent::Text(_, _) => {},
                            _ => {
                                return false;
                            },
                        }
                        let k = ids.len();
                        if !outs_agree_exec(outs, u, k) {
                            return false;
                        }
                        if n - i <= 2 {
                            return true;
                        }
                        let olen = outs.len();
                        assert(ov.len() == olen);
                        u = u + k;
                        i = i + 3;
                    },
                    Ok(Upcoming::Ignore) => {
                        i = i + 1;
                    },
                }
            },
            MdEvent::Text(t, borrowed) => {
                if *borrowed && is_single(t, '[') {
                    if n - i > 2 {
                        i = i + 3;
                    } else {
                        return true;
                    }
                } else {
                    i = i + 1;
                }
            },
            _ => {
                i = i + 1;
            },
        }
    }
    true
}

impl Document {
    /// Whether the document renders without a step the renderer refuses, with the given
    /// outputs of its exec blocks
    pub fn renders_with(&self, out: &Vec<String>) -> (r: bool)
        ensures
            r == document_ok(*self, outs_spec(out@)),
    {
        let ghost ov = outs_spec(out@);
        match self {
            Document::Page { contents, .. } => {
                let evs = md_events(contents.as_str());
                splice_check(&evs, out, 0)
            },
            Document::Pages { pages, .. } => {
                if pages.len() == 0 {
                    return false;
                }
                let ghost ps = pages_spec(pages@);
                assert(document_ok(*self, ov) == (pages@.len() > 0 && pages_ok(ps, 0, ov, 0)));
                let mut x: usize = 0;
                let mut k: usize = 0;
                while k < pages.len()
                    invariant
                        document_ok(*self, ov) == (pages@.len() > 0 && pages_ok(ps, 0, ov, 0)),
                        k <= pages@.len(),
                        pages@.len() > 0,
                        ps == pages_spec(pages@),
                        ov == outs_spec(out@),
                        pages_ok(ps, 0, ov, 0) == pages_ok(ps, k as nat, ov, x as nat),
                    decreases pages.len() - k,
                {
                    assert(ps[k as int] == pages@[k as int]@);
                    let evs = md_events(pages[k].as_str());
                    assert(pages_ok(ps, k as nat, ov, x as nat) == (splice_ok(markdown_events(ps[k as int]), 0, ov, x as nat)
                        && pages_ok(ps, (k + 1) as nat, ov, page_md(ps[k as int], ov, x as nat).1)));
                    if !splice_check(&evs, out, x) {
                        return false;
                    }
                    let (_, u) = splice(&evs, out, x);
                    x = u;
                    k = k + 1;
                }
                true
            },
        }
    }

    /// Renders the document to markdown with the given outputs of its exec blocks, or gives
    /// nothing when the renderer refuses a step of it
    pub fn try_render_markdown(&self, out: &Vec<String>) -> (r: Option<Result<String, RenderError>>)
        ensures
            r is None <==> !document_ok(*self, outs_spec(out@)),
            r matches Some(res) ==> res is Ok,
            r matches Some(Ok(s)) ==> s@ == document_md(*self, outs_spec(out@)),
    {
        if self.renders_with(out) {
            Some(self.render_markdown(out))
        } else {
            None
        }
    }
}

/// What `shell_words::split` makes of a command line: its words, or nothing when a quote is
/// not closed.
pub uninterp spec fn shell_split(s: Seq<char>) -> Option<Seq<Seq<char>>>;

#[verifier::external_type_specification]
#[verifier::external_body]
pub struct ExShellParseError(shell_words::ParseError);

/// Words of a command line, as a shell splits them.
///
/// Trusted: calls `shell_words::split`; the words are named, not described: they are
/// determined by the line.
#[verifier::external_body]
fn split_words(s: &str) -> (r: Result<Vec<String>, shell_words::ParseError>)
    ensures
        match r {
            Ok(v) => shell_split(s@) == Some(v@.map_values(|w: String| w@)),
            Err(_) => shell_split(s@) is None,
        },
{
    shell_words::split(s)
}

/// The `Debug` form of a list of strings: the quoted strings, separated by `, `, in
/// brackets.
pub open spec fn debug_list(args: Seq<Seq<char>>) -> Seq<char> {
    "["@ + debug_items(args) + "]"@
}

/// Quoted strings separated by `, `.
pub open spec fn debug_items(args: Seq<Seq<char>>) -> Seq<char>
    decreases args.len(),
{
    if args.len() == 0 {
        Seq::empty()
    } else if args.len() == 1 {
        crate::complete_shell::debug_escaped(args[0])
    } else {
        debug_items(args.drop_last()) + ", "@ + crate::complete_shell::debug_escaped(args.last())
    }
}

/// A line of rust code from a code block: without the `# ` that hides it, if it has one after
/// its indentation, in which case the indentation goes too.
pub open spec fn code_line(l: Seq<char>) -> Seq<char> {
    let t = crate::satis::trim_start(l);
    if crate::text::starts_with(t, "# "@) {
        t.skip(2)
    } else {
        l
    }
}

/// Lines of rust code, each followed by a newline.
pub open spec fn code_lines(ls: Seq<Seq<char>>) -> Seq<char>
    decreases ls.len(),
{
    if ls.len() == 0 {
        Seq::empty()
    } else {
        code_lines(ls.drop_last()) + code_line(ls.last()) + "\n"@
    }
}

/// A statement running the example of code block `code_id` with the given arguments.
pub open spec fn exec_line(code_id: usize, args: Seq<Seq<char>>) -> Seq<char> {
    "out.push(crate::render_res(r"@ + decimal(code_id as nat) + "::options().run_inner(bpaf::Args::from(&"@
        + debug_list(args) + ").set_name(\"app\"))));\n"@
}

/// Statements running the examples of the code blocks with the given ids.
pub open spec fn exec_lines(ids: Seq<usize>, mapping: Map<usize, usize>, args: Seq<Seq<char>>) -> Seq<char>
    decreases ids.len(),
{
    if ids.len() == 0 {
        Seq::empty()
    } else {
        exec_lines(ids.drop_last(), mapping, args) + exec_line(mapping[ids.last()], args)
    }
}

/// Module generation state: the fence in effect, the modules and the statements so far, the
/// numbers of the code blocks by id and the number of the last code block.
pub struct RustGen {
    pub fence: SpecUpcoming,
    pub modules: Seq<char>,
    pub execs: Seq<char>,
    pub mapping: Map<usize, usize>,
    pub ix: nat,
}

/// Mathematical form of a [`RenderError`] that module generation returns.
pub enum SpecGenError {
    Fence(crate::md_eval::types::SpecFenceError),
    Duplicate(usize),
}

/// The opening of the module of a code block.
pub open spec fn module_open(prefix: char, ix: nat) -> Seq<char> {
    "mod "@ + seq![prefix] + decimal(ix) + " { #![allow(dead_code)]\n"@
}

/// One event of module generation: a source block becomes a module (`r` with an id, `t`
/// without), its lines go in it, and the command lines of exec blocks become statements
/// that run the examples they refer to.
pub open spec fn gen_event(e: SpecMdEvent, st: RustGen) -> Result<RustGen, SpecGenError> {
    match e {
        SpecMdEvent::StartFence(f) => match fence_of(f) {
            Err(err) => Err(SpecGenError::Fence(err)),
            Ok(u) => match u {
                SpecUpcoming::Code { id: Some(id), .. } => if st.mapping.contains_key(id) {
                    Err(SpecGenError::Duplicate(id))
                } else {
                    Ok(RustGen {
                        fence: u,
                        modules: st.modules + module_open('r', st.ix + 1),
                        mapping: st.mapping.insert(id, (st.ix + 1) as usize),
                        ix: st.ix + 1,
                        ..st
                    })
                },
                SpecUpcoming::Code { id: None, .. } => Ok(RustGen {
                    fence: u,
                    modules: st.modules + module_open('t', st.ix + 1),
                    ix: st.ix + 1,
                    ..st
                }),
                _ => Ok(RustGen { fence: u, ..st }),
            },
        },
        SpecMdEvent::EndFence => Ok(RustGen {
            modules: if st.fence is Code { st.modules + "}\n"@ } else { st.modules },
            fence: SpecUpcoming::Ignore,
            ..st
        }),
        SpecMdEvent::Text(code, _) => match st.fence {
            SpecUpcoming::Code { .. } => Ok(RustGen { modules: st.modules + code_lines(lines(code)), ..st }),
            SpecUpcoming::Exec { ids, .. } => Ok(RustGen {
                execs: st.execs + exec_lines(ids, st.mapping, shell_split(code)->Some_0),
                ..st
            }),
            SpecUpcoming::Ignore => Ok(st),
        },
        _ => Ok(st),
    }
}

/// Module generation over events `i..` of a page.
pub open spec fn gen_events(evs: Seq<SpecMdEvent>, i: nat, st: RustGen) -> Result<RustGen, SpecGenError>
    decreases evs.len() - i,
{
    if i >= evs.len() {
        Ok(st)
    } else {
        match gen_event(evs[i as int], st) {
            Err(e) => Err(e),
            Ok(next) => gen_events(evs, i + 1, next),
        }
    }
}

/// Module generation over pages `k..`; ids are resolved among the code blocks of a page.
pub open spec fn gen_pages(pages: Seq<Seq<char>>, k: nat, st: RustGen) -> Result<RustGen, SpecGenError>
    decreases pages.len() - k,
{
    if k >= pages.len() {
        Ok(st)
    } else {
        match gen_events(markdown_events(pages[k as int]), 0, RustGen { mapping: Map::empty(), ..st }) {
            Err(e) => Err(e),
            Ok(next) => gen_pages(pages, k + 1, next),
        }
    }
}

/// Exec blocks of the event refer to code blocks that exist and their command lines split.
pub open spec fn gen_event_ok(e: SpecMdEvent, st: RustGen) -> bool {
    match (e, st.fence) {
        (SpecMdEvent::StartFence(f), _) => (fence_of(f) matches Ok(SpecUpcoming::Code { .. })) ==> st.ix < usize::MAX,
        (SpecMdEvent::Text(code, _), SpecUpcoming::Exec { ids, .. }) => {
            &&& shell_split(code) is Some
            &&& forall|k: int| 0 <= k < ids.len() ==> st.mapping.contains_key(#[trigger] ids[k])
        },
        _ => true,
    }
}

/// Module generation over events `i..` takes no step the generator refuses.
pub open spec fn gen_events_ok(evs: Seq<SpecMdEvent>, i: nat, st: RustGen) -> bool
    decreases evs.len() - i,
{
    if i >= evs.len() {
        true
    } else {
        &&& gen_event_ok(evs[i as int], st)
        &&& match gen_event(evs[i as int], st) {
            Err(_) => true,
            Ok(next) => gen_events_ok(evs, i + 1, next),
        }
    }
}

/// Module generation over pages `k..` takes no step the generator refuses.
pub open spec fn gen_pages_ok(pages: Seq<Seq<char>>, k: nat, st: RustGen) -> bool
    decreases pages.len() - k,
{
    if k >= pages.len() {
        true
    } else {
        let st0 = RustGen { mapping: Map::empty(), ..st };
        &&& gen_events_ok(markdown_events(pages[k as int]), 0, st0)
        &&& match gen_events(markdown_events(pages[k as int]), 0, st0) {
            Err(_) => true,
            Ok(next) => gen_pages_ok(pages, k + 1, next),
        }
    }
}

/// The pages of a document.
pub open spec fn doc_pages(doc: Document) -> Seq<Seq<char>> {
    match doc {
        Document::Page { contents, .. } => seq![contents@],
        Document::Pages { pages, .. } => pages_spec(pages@),
    }
}

/// Initial module generation state.
pub open spec fn gen_init() -> RustGen {
    RustGen { fence: SpecUpcoming::Ignore, modules: Seq::empty(), execs: Seq::empty(), mapping: Map::empty(), ix: 0 }
}

/// The rust module generated for a document: its modules, a `run` function that runs the
/// examples, renders the document with their output and writes it to the output directory.
/// `d` is how the file the document is read from is written.
pub open spec fn module_code(name: Seq<char>, ext: Seq<char>, modules: Seq<char>, execs: Seq<char>, d: Seq<char>) -> Seq<char> {
    "mod "@ + name + " {\n        "@ + modules + "\n        pub fn run(output_dir: &std::path::Path) {\n            #[allow(unused_mut)]\n            let mut out = Vec::new();\n            "@
        + execs + "\n\n            let doc = md_eval::md::Document::load("@ + d + ").expect(\"Failed to read \\"@ + d
        + ");\n            let md = doc.render_markdown(&out).expect(\"Failed to render \\"@ + d
        + ");\n\n            let dest = std::path::PathBuf::from(output_dir).join(\""@ + name + "."@ + ext
        + "\");\n            std::fs::write(dest, md.to_string()).unwrap();\n\n        }\n    }"@
}

/// The generation error a render error stands for.
pub open spec fn gen_error(e: RenderError) -> Option<SpecGenError> {
    match e {
        RenderError::Fence(f) => Some(SpecGenError::Fence(f.spec())),
        RenderError::Duplicate(id) => Some(SpecGenError::Duplicate(id)),
        RenderError::Format(_) => None,
    }
}

/// Appends the `Debug` form of a list of strings.
fn push_debug_list(res: &mut Vec<char>, args: &Vec<String>)
    ensures
        final(res)@ == old(res)@ + debug_list(args@.map_values(|w: String| w@)),
{
    let ghost av = args@.map_values(|w: String| w@);
    push_str_chars(res, "[");
    let ghost start = res@;
    let mut i: usize = 0;
    assert(av.take(0) =~= Seq::<Seq<char>>::empty());
    while i < args.len()
        invariant
            i <= args@.len(),
            av == args@.map_values(|w: String| w@),
            res@ == start + debug_items(av.take(i as int)),
        decreases args.len() - i,
    {
        assert(av.take(i + 1).drop_last() =~= av.take(i as int));
        assert(av.take(i + 1).last() == args@[i as int]@);
        let ghost before = res@;
        if i > 0 {
            push_str_chars(res, ", ");
        }
        let d = crate::complete_shell::debug_str(args[i].as_str());
        push_str_chars(res, d.as_str());
        if i == 0 {
            assert(av.take(1) =~= seq![av[0]]);
        }
        assert(res@ =~= start + debug_items(av.take(i + 1)));
        i = i + 1;
    }
    assert(av.take(i as int) =~= av);
    push_str_chars(res, "]");
    assert(res@ =~= old(res)@ + debug_list(av));
}

/// Exec module generation state
struct Gen {
    fence: Upcoming,
    modules: Vec<char>,
    execs: Vec<char>,
    mapping: std::collections::BTreeMap<usize, usize>,
    ix: usize,
}

impl Gen {
    closed spec fn view(&self) -> RustGen {
        RustGen { fence: self.fence.spec(), modules: self.modules@, execs: self.execs@, mapping: self.mapping@, ix: self.ix as nat }
    }

    /// Checks that the event takes no step the generator refuses
    fn event_ok(&self, e: &MdEvent) -> (r: bool)
        ensures
            r == gen_event_ok(e.spec(), self.view()),
    {
        match (e, &self.fence) {
            (MdEvent::StartFence(f), _) => {
                match Upcoming::parse_fence(f.as_str()) {
                    Ok(Upcoming::Code { .. }) => self.ix < usize::MAX,
                    _ => true,
                }
            },
            (MdEvent::Text(code, _), Upcoming::Exec { ids, .. }) => {
                match split_words(code.as_str()) {
                    Err(_) => false,
                    Ok(_) => {
                        let ghost st = self.view();
                        assert(st.fence matches SpecUpcoming::Exec { ids: x, .. } && x == ids@);
                        let mut k: usize = 0;
                        while k < ids.len()
                            invariant
                                k <= ids@.len(),
                                st == self.view(),
                                st.fence matches SpecUpcoming::Exec { ids: x, .. } && x == ids@,
                                e.spec() matches SpecMdEvent::Text(c, _) && c == code@,
                                shell_split(code@) is Some,
                                forall|j: int| 0 <= j < k ==> self.mapping@.contains_key(#[trigger] ids@[j]),
                            decreases ids.len() - k,
                        {
                            if !self.mapping.contains_key(&ids[k]) {
                                assert(!st.mapping.contains_key(ids@[k as int]));
                                return false;
                            }
                            k = k + 1;
                        }
                        true
                    },
                }
            },
            _ => true,
        }
    }

    /// Appends the lines of a code block to the current module.
    fn push_code(&mut self, code: &String)
        ensures
            final(self).modules@ == old(self).modules@ + code_lines(lines(code@)),
            final(self).fence == old(self).fence,
            final(self).execs == old(self).execs,
            final(self).mapping == old(self).mapping,
            final(self).ix == old(self).ix,
    {
        let ls = lines_exec(code.as_str());
        let ghost lv = ls@.map_values(|w: Vec<char>| w@);
        let ghost start = self.modules@;
        let mut i: usize = 0;
        assert(lv.take(0) =~= Seq::<Seq<char>>::empty());
        while i < ls.len()
            invariant
                i <= ls@.len(),
                lv == ls@.map_values(|w: Vec<char>| w@),
                self.modules@ == start + code_lines(lv.take(i as int)),
                self.fence == old(self).fence,
                self.execs == old(self).execs,
                self.mapping == old(self).mapping,
                self.ix == old(self).ix,
            decreases ls.len() - i,
        {
            assert(lv.take(i + 1).drop_last() =~= lv.take(i as int));
            assert(lv.take(i + 1).last() == ls@[i as int]@);
            let t = crate::satis::trim_start_exec(&ls[i]);
            proof {
                reveal_strlit("# ");
            }
            let line = if crate::text::chars_at(&t, 0, "# ") {
                crate::text::chars_skip(&t, 2)
            } else {
                ls[i].clone()
            };
            assert(line@ =~= code_line(lv[i as int]));
            crate::text::push_chars(&mut self.modules, &line);
            self.modules.push('\n');
            assert(self.modules@ =~= start + code_lines(lv.take(i + 1))) by {
                reveal_strlit("\n");
            }
            i = i + 1;
        }
        assert(lv.take(i as int) =~= lv);
    }

    /// Appends the statements of an exec block.
    fn push_execs(&mut self, ids: &Vec<usize>, args: &Vec<String>)
        requires
            forall|k: int| 0 <= k < ids@.len() ==> old(self).mapping@.contains_key(#[trigger] ids@[k]),
        ensures
            final(self).execs@ == old(self).execs@ + exec_lines(ids@, old(self).mapping@, args@.map_values(|w: String| w@)),
            final(self).fence == old(self).fence,
            final(self).modules == old(self).modules,
            final(self).mapping == old(self).mapping,
            final(self).ix == old(self).ix,
    {
        let ghost av = args@.map_values(|w: String| w@);
        let ghost start = self.execs@;
        let mut k: usize = 0;
        assert(ids@.take(0) =~= Seq::<usize>::empty());
        while k < ids.len()
            invariant
                k <= ids@.len(),
                forall|j: int| 0 <= j < ids@.len() ==> self.mapping@.contains_key(#[trigger] ids@[j]),
                self.execs@ == start + exec_lines(ids@.take(k as int), self.mapping@, av),
                av == args@.map_values(|w: String| w@),
                self.fence == old(self).fence,
                self.modules == old(self).modules,
                self.mapping == old(self).mapping,
                self.ix == old(self).ix,
            decreases ids.len() - k,
        {
            assert(ids@.take(k + 1).drop_last() =~= ids@.take(k as int));
            assert(ids@.take(k + 1).last() == ids@[k as int]);
            assert(self.mapping@.contains_key(ids@[k as int]));
            let code_id = match self.mapping.get(&ids[k]) {
                Some(c) => *c,
                None => 0,
            };
            assert(code_id == self.mapping@[ids@[k as int]]);
            let ghost before = self.execs@;
            push_str_chars(&mut self.execs, "out.push(crate::render_res(r");
            push_decimal(&mut self.execs, code_id);
            push_str_chars(&mut self.execs, "::options().run_inner(bpaf::Args::from(&");
            push_debug_list(&mut self.execs, args);
            push_str_chars(&mut self.execs, ").set_name(\"app\"))));\n");
            assert(self.execs@ =~= before + exec_line(code_id, av));
            k = k + 1;
        }
        assert(ids@.take(k as int) =~= ids@);
    }

    /// One event of module generation
    fn event(&mut self, e: &MdEvent) -> (r: Result<(), RenderError>)
        requires
            gen_event_ok(e.spec(), old(self).view()),
        ensures
            match r {
                Ok(()) => gen_event(e.spec(), old(self).view()) == Ok::<RustGen, SpecGenError>(final(self).view()),
                Err(err) => gen_error(err) matches Some(g) && gen_event(e.spec(), old(self).view()) == Err::<RustGen, SpecGenError>(g),
            },
    {
        match e {
            MdEvent::StartFence(f) => {
                let u = match Upcoming::parse_fence(f.as_str()) {
                    Ok(u) => u,
                    Err(err) => {
                        return Err(RenderError::Fence(err));
                    },
                };
                match &u {
                    Upcoming::Code { id: Some(id), .. } => {
                        let ix = self.ix + 1;
                        if self.mapping.contains_key(id) {
                            return Err(RenderError::Duplicate(*id));
                        }
                        push_str_chars(&mut self.modules, "mod r");
                        push_decimal(&mut self.modules, ix);
                        push_str_chars(&mut self.modules, " { #![allow(dead_code)]\n");
                        self.mapping.insert(*id, ix);
                        self.ix = ix;
                        proof {
                            reveal_strlit("mod r");
                            reveal_strlit("mod ");
                        }
                        assert(self.modules@ =~= old(self).modules@ + module_open('r', ix as nat));
                    },
                    Upcoming::Code { id: None, .. } => {
                        let ix = self.ix + 1;
                        push_str_chars(&mut self.modules, "mod t");
                        push_decimal(&mut self.modules, ix);
                        push_str_chars(&mut self.modules, " { #![allow(dead_code)]\n");
                        self.ix = ix;
                        proof {
                            reveal_strlit("mod t");
                            reveal_strlit("mod ");
                        }
                        assert(self.modules@ =~= old(self).modules@ + module_open('t', ix as nat));
                    },
                    _ => {},
                }
                self.fence = u;
                Ok(())
            },
            MdEvent::EndFence => {
                if let Upcoming::Code { .. } = &self.fence {
                    push_str_chars(&mut self.modules, "}\n");
                }
                self.fence = Upcoming::Ignore;
                Ok(())
            },
            MdEvent::Text(code, _) => {
                match &self.fence {
                    Upcoming::Code { .. } => {
                        self.push_code(code);
                    },
                    Upcoming::Exec { ids, .. } => {
                        let ids = ids.clone();
                        assert(ids@ =~= old(self).fence->Exec_ids@);
                        match split_words(code.as_str()) {
                            Ok(args) => {
                                self.push_execs(&ids, &args);
                            },
                            Err(_) => {},
                        }
                    },
                    Upcoming::Ignore => {},
                }
                Ok(())
            },
            _ => Ok(()),
        }
    }
}

/// The file a document is read from, as text.
pub open spec fn doc_path(doc: Document) -> Seq<char> {
    match doc {
        Document::Page { file, .. } => file@,
        Document::Pages { file, .. } => file@,
    }
}

/// Name of a document.
pub open spec fn doc_name(doc: Document) -> Seq<char> {
    match doc {
        Document::Page { name, .. } => name@,
        Document::Pages { name, .. } => name@,
    }
}

/// Extension of the file a document renders to.
pub open spec fn doc_ext(doc: Document) -> Seq<char> {
    if doc is Page {
        "md"@
    } else {
        "rs"@
    }
}

impl Document {
    /// The texts of the pages.
    fn page_texts(&self) -> (r: Vec<&str>)
        ensures
            r@.map_values(|t: &str| t@) == doc_pages(*self),
    {
        let mut r: Vec<&str> = Vec::new();
        match self {
            Document::Page { contents, .. } => {
                r.push(contents.as_str());
                assert(r@.map_values(|t: &str| t@) =~= doc_pages(*self));
            },
            Document::Pages { pages, .. } => {
                let mut k: usize = 0;
                while k < pages.len()
                    invariant
                        k <= pages@.len(),
                        r@.map_values(|t: &str| t@) == pages_spec(pages@).take(k as int),
                    decreases pages.len() - k,
                {
                    let ghost before = r@.map_values(|t: &str| t@);
                    r.push(pages[k].as_str());
                    assert(r@.map_values(|t: &str| t@) =~= before.push(pages@[k as int]@));
                    assert(pages_spec(pages@).take(k + 1) =~= pages_spec(pages@).take(k as int).push(pages@[k as int]@));
                    k = k + 1;
                }
                assert(pages_spec(pages@).take(k as int) =~= pages_spec(pages@));
            },
        }
        r
    }

    /// Generates the rust module that runs the examples of the document and renders it, or
    /// gives nothing when a command line does not split or refers to an unknown code block
    pub fn try_render_rust(&self) -> (r: Option<Result<Mod, RenderError>>)
        ensures
            r is None <==> !gen_pages_ok(doc_pages(*self), 0, gen_init()),
            r matches Some(Ok(m)) ==> {
                &&& gen_pages(doc_pages(*self), 0, gen_init()) is Ok
                &&& m.name@ == doc_name(*self)
                &&& m.code@ == module_code(
                    doc_name(*self),
                    doc_ext(*self),
                    gen_pages(doc_pages(*self), 0, gen_init())->Ok_0.modules,
                    gen_pages(doc_pages(*self), 0, gen_init())->Ok_0.execs,
                    path_debug_text(doc_path(*self)),
                )
            },
            r matches Some(Err(e)) ==> gen_error(e) matches Some(g) && gen_pages(doc_pages(*self), 0, gen_init())
                == Err::<RustGen, SpecGenError>(g),
    {
        let texts = self.page_texts();
        let ghost ps = doc_pages(*self);
        let mut st = Gen { fence: Upcoming::Ignore, modules: Vec::new(), execs: Vec::new(), mapping: std::collections::BTreeMap::new(), ix: 0 };
        assert(st.view() == gen_init());
        let mut k: usize = 0;
        while k < texts.len()
            invariant
                k <= texts@.len(),
                ps == texts@.map_values(|t: &str| t@),
                ps == doc_pages(*self),
                gen_pages_ok(ps, 0, gen_init()) == gen_pages_ok(ps, k as nat, st.view()),
                gen_pages(ps, 0, gen_init()) == gen_pages(ps, k as nat, st.view()),
            decreases texts.len() - k,
        {
            assert(ps[k as int] == texts@[k as int]@);
            let evs = md_events(texts[k]);
            let ghost ev = events_spec(evs@);
            let ghost st_k = st.view();
            st.mapping.clear();
            let ghost st0 = st.view();
            assert(st0 == RustGen { mapping: Map::empty(), ..st_k });
            let mut i: usize = 0;
            while i < evs.len()
                invariant
                    i <= evs@.len(),
                    ev == events_spec(evs@),
                    ev == markdown_events(ps[k as int]),
                    ps == doc_pages(*self),
                    k < ps.len(),
                    gen_pages_ok(ps, 0, gen_init()) == gen_pages_ok(ps, k as nat, st_k),
                    gen_pages(ps, 0, gen_init()) == gen_pages(ps, k as nat, st_k),
                    st0 == (RustGen { mapping: Map::empty(), ..st_k }),
                    gen_events_ok(ev, 0, st0) == gen_events_ok(ev, i as nat, st.view()),
                    gen_events(ev, 0, st0) == gen_events(ev, i as nat, st.view()),
                decreases evs.len() - i,
            {
                assert(ev[i as int] == evs@[i as int].spec());
                let ghost before = st.view();
                if !st.event_ok(&evs[i]) {
                    assert(!gen_events_ok(ev, i as nat, before));
                    assert(!gen_events_ok(ev, 0, st0));
                    assert(!gen_pages_ok(ps, k as nat, st_k));
                    return None;
                }
                match st.event(&evs[i]) {
                    Err(err) => {
                        assert(gen_events_ok(ev, i as nat, before));
                        assert(gen_events(ev, i as nat, before) == gen_event(ev[i as int], before));
                        assert(gen_pages_ok(ps, k as nat, st_k));
                        assert(gen_pages(ps, k as nat, st_k) == gen_events(ev, 0, st0));
                        return Some(Err(err));
                    },
                    Ok(()) => {},
                }
                i = i + 1;
            }
            k = k + 1;
        }
        let name = self.name();
        let ext = self.ext();
        let d = path_debug_of(self.read_from());
        let mut code = str_chars("mod ");
        push_str_chars(&mut code, name);
        push_str_chars(&mut code, " {\n        ");
        crate::text::push_chars(&mut code, &st.modules);
        push_str_chars(&mut code, "\n        pub fn run(output_dir: &std::path::Path) {\n            #[allow(unused_mut)]\n            let mut out = Vec::new();\n            ");
        crate::text::push_chars(&mut code, &st.execs);
        push_str_chars(&mut code, "\n\n            let doc = md_eval::md::Document::load(");
        push_str_chars(&mut code, d.as_str());
        push_str_chars(&mut code, ").expect(\"Failed to read \\");
        push_str_chars(&mut code, d.as_str());
        push_str_chars(&mut code, ");\n            let md = doc.render_markdown(&out).expect(\"Failed to render \\");
        push_str_chars(&mut code, d.as_str());
        push_str_chars(&mut code, ");\n\n            let dest = std::path::PathBuf::from(output_dir).join(\"");
        push_str_chars(&mut code, name);
        push_str_chars(&mut code, ".");
        push_str_chars(&mut code, ext);
        push_str_chars(&mut code, "\");\n            std::fs::write(dest, md.to_string()).unwrap();\n\n        }\n    }");
        assert(code@ =~= module_code(doc_name(*self), doc_ext(*self), st.modules@, st.execs@, d@));
        Some(Ok(Mod { name: name.to_owned(), code: chars_string(&code) }))
    }

    /// Generates the rust module that runs the examples of the document and renders it
    pub fn render_rust(&self) -> (r: Result<Mod, RenderError>)
        requires
            gen_pages_ok(doc_pages(*self), 0, gen_init()),
        ensures
            r matches Ok(m) ==> {
                &&& gen_pages(doc_pages(*self), 0, gen_init()) is Ok
                &&& m.name@ == doc_name(*self)
                &&& m.code@ == module_code(
                    doc_name(*self),
                    doc_ext(*self),
                    gen_pages(doc_pages(*self), 0, gen_init())->Ok_0.modules,
                    gen_pages(doc_pages(*self), 0, gen_init())->Ok_0.execs,
                    path_debug_text(doc_path(*self)),
                )
            },
            r matches Err(e) ==> gen_error(e) matches Some(g) && gen_pages(doc_pages(*self), 0, gen_init())
                == Err::<RustGen, SpecGenError>(g),
    {
        match self.try_render_rust() {
            Some(r) => r,
            None => Err(RenderError::Duplicate(0)),
        }
    }
}

} // verus!
