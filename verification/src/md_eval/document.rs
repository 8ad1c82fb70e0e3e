//! Documents made of nested markdown pages, with navigation between siblings and folded
//! sections for sources and command outputs.

use crate::text::{chars_string, push_str_chars, str_chars};
use vstd::prelude::*;

verus! {

/// Style of the box holding a command and its output
pub const STYLE: &'static str = "padding: 14px; background-color:var(--code-block-background-color); font-family: 'Source Code Pro', monospace; margin-bottom: 0.75em;";

/// Navigation links between documents
pub struct Nav<'a> {
    pub pad: &'a str,
    pub prev: Option<&'a str>,
    pub index: Option<&'a str>,
    pub next: Option<&'a str>,
}

/// A line of the navigation block: the padding, `s`, a newline.
pub open spec fn nav_line(pad: Seq<char>, s: Seq<char>) -> Seq<char> {
    pad + s + "\n"@
}

/// One table cell of the navigation block, with a link when there is a target.
pub open spec fn nav_cell(pad: Seq<char>, open: Seq<char>, arrow: Seq<char>, target: Option<&str>) -> Seq<char> {
    nav_line(pad, open) + match target {
        Some(m) => nav_line(pad, Seq::empty()) + nav_line(pad, " ["@ + arrow + "]("@ + m@ + ")"@)
            + nav_line(pad, Seq::empty()),
        None => Seq::empty(),
    } + nav_line(pad, "  </td>"@)
}

/// The navigation block: nothing without links, else a table of three cells: index, previous
/// and next.
pub open spec fn nav_text(nav: Nav) -> Seq<char> {
    if nav.prev is None && nav.next is None && nav.index is None {
        Seq::empty()
    } else {
        let pad = nav.pad@;
        nav_line(pad, Seq::empty()) + nav_line(
            pad,
            " <table width='100%' cellspacing='0' style='border: hidden;'><tr>"@,
        ) + nav_cell(pad, "  <td style='width: 34%; text-align: left;'>"@, "&larr;&larr;"@, nav.index)
            + nav_cell(pad, "  <td style='width: 33%; text-align: center;'>"@, "&larr; "@, nav.prev)
            + nav_cell(pad, "  <td style='width: 33%; text-align: right;'>"@, "&rarr;"@, nav.next)
            + nav_line(pad, " </tr></table>"@) + nav_line(pad, Seq::empty())
    }
}

/// Appends the padding, `s` and a newline.
fn push_line(out: &mut Vec<char>, pad: &str, s: &str)
    ensures
        final(out)@ == old(out)@ + nav_line(pad@, s@),
{
    push_str_chars(out, pad);
    push_str_chars(out, s);
    push_str_chars(out, "\n");
}

/// Appends a table cell of the navigation block.
fn push_cell(out: &mut Vec<char>, pad: &str, open: &str, arrow: &str, target: Option<&str>)
    ensures
        final(out)@ == old(out)@ + nav_cell(pad@, open@, arrow@, target),
{
    proof {
        reveal_strlit("");
        reveal_strlit(")");
        reveal_strlit("\n");
        reveal_strlit(")\n");
    }
    let ghost start = out@;
    push_line(out, pad, open);
    let ghost mid = out@;
    if let Some(module) = target {
        push_line(out, pad, "");
        push_str_chars(out, pad);
        push_str_chars(out, " [");
        push_str_chars(out, arrow);
        push_str_chars(out, "](");
        push_str_chars(out, module);
        push_str_chars(out, ")\n");
        push_line(out, pad, "");
        assert(out@ =~= mid + (nav_line(pad@, Seq::empty()) + nav_line(
            pad@,
            " ["@ + arrow@ + "]("@ + module@ + ")"@,
        ) + nav_line(pad@, Seq::empty())));
    }
    let ghost body = out@;
    push_line(out, pad, "  </td>");
    assert(out@ =~= start + nav_cell(pad@, open@, arrow@, target));
}

impl Nav<'_> {
    /// The navigation block
    pub fn render(&self) -> (r: String)
        ensures
            r@ == nav_text(*self),
    {
        let mut out: Vec<char> = Vec::new();
        if self.prev.is_none() && self.next.is_none() && self.index.is_none() {
            return chars_string(&out);
        }
        proof {
            reveal_strlit("");
        }
        let pad = self.pad;
        push_line(&mut out, pad, "");
        push_line(&mut out, pad, " <table width='100%' cellspacing='0' style='border: hidden;'><tr>");
        push_cell(&mut out, pad, "  <td style='width: 34%; text-align: left;'>", "&larr;&larr;", self.index);
        push_cell(&mut out, pad, "  <td style='width: 33%; text-align: center;'>", "&larr; ", self.prev);
        push_cell(&mut out, pad, "  <td style='width: 33%; text-align: right;'>", "&rarr;", self.next);
        push_line(&mut out, pad, " </tr></table>");
        push_line(&mut out, pad, "");
        assert(out@ =~= nav_text(*self));
        chars_string(&out)
    }
}

/// A document and the ones nested in it
#[derive(Debug)]
pub struct Document {
    /// Module name, derived from file name/path
    pub name: String,
    /// Markdown title, extracted from the first line
    pub title: Option<String>,
    /// Document body
    pub body: Option<String>,
    /// Number of executions - used to track insertions from children
    pub execs: usize,
    pub children: Vec<Document>,
    pub prev_sibling: Option<String>,
    pub parent: Option<String>,
    pub next_sibling: Option<String>,
}

impl Clone for Document {
    fn clone(&self) -> (r: Self)
        ensures
            r.name@ == self.name@,
            crate::md_eval::types::opt_str(r.title) == crate::md_eval::types::opt_str(self.title),
            crate::md_eval::types::opt_str(r.body) == crate::md_eval::types::opt_str(self.body),
            r.execs == self.execs,
            r.children@.len() == self.children@.len(),
            forall|i: int| 0 <= i < r.children@.len() ==> #[trigger] r.children@[i].name@ == self.children@[i].name@,
            crate::md_eval::types::opt_str(r.prev_sibling) == crate::md_eval::types::opt_str(self.prev_sibling),
            crate::md_eval::types::opt_str(r.parent) == crate::md_eval::types::opt_str(self.parent),
            crate::md_eval::types::opt_str(r.next_sibling) == crate::md_eval::types::opt_str(self.next_sibling),
        decreases self,
    {
        let mut children: Vec<Document> = Vec::new();
        let mut i: usize = 0;
        while i < self.children.len()
            invariant
                i <= self.children@.len(),
                children@.len() == i,
                forall|j: int| 0 <= j < i ==> #[trigger] children@[j].name@ == self.children@[j].name@,
            decreases self.children.len() - i,
        {
            assert(decreases_to!(self => self.children@[i as int]));
            children.push(self.children[i].clone());
            i = i + 1;
        }
        Document {
            name: self.name.clone(),
            title: self.title.clone(),
            body: self.body.clone(),
            execs: self.execs,
            children,
            prev_sibling: self.prev_sibling.clone(),
            parent: self.parent.clone(),
            next_sibling: self.next_sibling.clone(),
        }
    }
}

impl Default for Document {
    fn default() -> (d: Document)
        ensures
            d.name@ == Seq::<char>::empty(),
            d.title is None,
            d.body is None,
            d.execs == 0,
            d.children@ == Seq::<Document>::empty(),
            d.prev_sibling is None,
            d.parent is None,
            d.next_sibling is None,
    {
        Document {
            name: String::new(),
            title: None,
            body: None,
            execs: 0,
            children: Vec::new(),
            prev_sibling: None,
            parent: None,
            next_sibling: None,
        }
    }
}

/// A folded section with a command line and its output.
pub open spec fn fold_html_text(title: Seq<char>, line: Seq<char>, contents: Seq<char>) -> Seq<char> {
    "<details><summary>"@ + title + "</summary><div style=\""@ + STYLE@ + "\">\n$ app "@ + line
        + "<br />\n"@ + contents + "\n</div></details>"@
}

/// A folded section with rust source.
pub open spec fn fold_source_text(title: Seq<char>, contents: Seq<char>) -> Seq<char> {
    "<details><summary>"@ + title + "</summary>\n\n```rust\n"@ + contents + "```\n\n</details>"@
}

/// Html of a folded section holding a command line and its output
pub fn fold_html(title: &str, line: &str, contents: &str) -> (r: String)
    ensures
        r@ == fold_html_text(title@, line@, contents@),
{
    let mut v = str_chars("<details><summary>");
    push_str_chars(&mut v, title);
    push_str_chars(&mut v, "</summary><div style=\"");
    push_str_chars(&mut v, STYLE);
    push_str_chars(&mut v, "\">\n$ app ");
    push_str_chars(&mut v, line);
    push_str_chars(&mut v, "<br />\n");
    push_str_chars(&mut v, contents);
    push_str_chars(&mut v, "\n</div></details>");
    chars_string(&v)
}

/// Html of a folded section holding rust source
pub fn fold_source(title: &str, contents: &str) -> (r: String)
    ensures
        r@ == fold_source_text(title@, contents@),
{
    let mut v = str_chars("<details><summary>");
    push_str_chars(&mut v, title);
    push_str_chars(&mut v, "</summary>\n\n```rust\n");
    push_str_chars(&mut v, contents);
    push_str_chars(&mut v, "```\n\n</details>");
    chars_string(&v)
}

} // verus!
