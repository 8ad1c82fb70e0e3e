//! Roff document composer
//!
//! [ROFF] is a family of Unix text-formatting languages, implemented by the `nroff`, `troff`, and
//! `groff` programs, among others. A [`Roff`] value is an abstract representation of a document in
//! ROFF format, meant for writing code that generates manual pages.
//!
//! [ROFF]: https://en.wikipedia.org/wiki/Roff_(software)

use crate::monoid::{appended, FreeMonoid, Label};
use crate::text::{chars_string, push_str_chars, str_chars};
use vstd::prelude::*;

verus! {

/// How the characters of a fragment are escaped on rendering.
#[derive(Debug, Clone, Copy, PartialEq, Eq, Structural)]
pub enum Escape {
    /// Special characters (`\`, `-`, leading `.` and `'`) are escaped
    Special,
    /// As [`Escape::Special`], and newlines become spaces
    SpecialNoNewline,
    /// Spaces are escaped so that the text stays a single macro argument
    Spaces,
    /// Copied as is
    Unescaped,
    /// Copied as is, starting on a new line of the document source
    UnescapedAtNewline,
}

impl Label for Escape {
    fn same_label(&self, other: &Self) -> (r: bool) {
        *self == *other
    }
}

/// Should apostrophes be rendered with a portable string definition
#[derive(Debug, Clone, Copy, PartialEq, Eq, Structural)]
pub enum Apostrophes {
    /// Define `Aq` in a preamble and render `'` as `\*(Aq`
    Handle,
    /// Keep `'` as it is
    DontHandle,
}

/// Preamble defining the `Aq` string used for apostrophes.
pub open spec fn apostrophe_preamble() -> Seq<char> {
    ".ie \\n(.g .ds Aq \\(aq\n.el .ds Aq '\n"@
}

/// The rendered form of an apostrophe when apostrophes are handled.
pub open spec fn apostrophe() -> Seq<char> {
    "\\*(Aq"@
}

/// True when the next character of `out` starts a line of the document source.
pub open spec fn at_line_start(out: Seq<char>) -> bool {
    out.len() == 0 || out.last() == '\n'
}

/// Escaped form of a single character.
pub open spec fn escape_char(meta: Escape, c: char, ap: Apostrophes, line_start: bool) -> Seq<char> {
    match meta {
        Escape::Spaces => if c == ' ' {
            seq!['\\', ' ']
        } else {
            seq![c]
        },
        Escape::Special | Escape::SpecialNoNewline => {
            if c == '\n' && meta == Escape::SpecialNoNewline {
                seq![' ']
            } else if c == '\\' {
                seq!['\\', '\\']
            } else if c == '-' {
                seq!['\\', '-']
            } else if c == '\'' && ap == Apostrophes::Handle {
                apostrophe()
            } else if (c == '.' || c == '\'') && line_start {
                seq!['\\', '&', c]
            } else {
                seq![c]
            }
        },
        Escape::Unescaped | Escape::UnescapedAtNewline => seq![c],
    }
}

/// `out` followed by the escaped characters of `text`.
pub open spec fn escape_text(meta: Escape, text: Seq<char>, ap: Apostrophes, out: Seq<char>) -> Seq<
    char,
>
    decreases text.len(),
{
    if text.len() == 0 {
        out
    } else {
        escape_text(
            meta,
            text.drop_first(),
            ap,
            out + escape_char(meta, text[0], ap, at_line_start(out)),
        )
    }
}

/// No line of `r` that starts at or after `from` starts with `.` or `'`, the characters
/// that make a line of the document source a request.
pub open spec fn no_control_line_from(r: Seq<char>, from: int) -> bool {
    forall|k: int|
        from <= k < r.len() && (k == 0 || r[k - 1] == '\n') ==> #[trigger] r[k] != '.' && r[k] != '\''
}

/// Escaping only appends to what is already written.
proof fn lemma_escape_text_extends(meta: Escape, text: Seq<char>, ap: Apostrophes, out: Seq<char>)
    ensures
        escape_text(meta, text, ap, out).len() >= out.len(),
        escape_text(meta, text, ap, out).take(out.len() as int) == out,
    decreases text.len(),
{
    if text.len() == 0 {
        assert(out.take(out.len() as int) =~= out);
    } else {
        let out2 = out + escape_char(meta, text[0], ap, at_line_start(out));
        lemma_escape_text_extends(meta, text.drop_first(), ap, out2);
        let r = escape_text(meta, text, ap, out);
        assert(r.take(out.len() as int) =~= out) by {
            assert forall|j: int| 0 <= j < out.len() implies r.take(out.len() as int)[j] == out[j] by {
                assert(r[j] == r.take(out2.len() as int)[j]);
                assert(out2[j] == out[j]);
            }
        }
    }
}

/// The escaped form of a character never starts with a request character where it starts
/// a line, and holds no newline before its last character.
proof fn lemma_escape_char_shape(meta: Escape, c: char, ap: Apostrophes, line_start: bool)
    requires
        meta == Escape::Special || meta == Escape::SpecialNoNewline,
    ensures
        ({
            let p = escape_char(meta, c, ap, line_start);
            &&& p.len() >= 1
            &&& line_start ==> p[0] != '.' && p[0] != '\''
            &&& forall|j: int| 0 <= j < p.len() - 1 ==> #[trigger] p[j] != '\n'
        }),
{
    reveal_strlit("\\*(Aq");
}

#[verifier::spinoff_prover]
proof fn lemma_escape_text_no_control(meta: Escape, text: Seq<char>, ap: Apostrophes, out: Seq<char>)
    requires
        meta == Escape::Special || meta == Escape::SpecialNoNewline,
    ensures
        no_control_line_from(escape_text(meta, text, ap, out), out.len() as int),
    decreases text.len(),
{
    if text.len() > 0 {
        let ls = at_line_start(out);
        let p = escape_char(meta, text[0], ap, ls);
        let out2 = out + p;
        lemma_escape_char_shape(meta, text[0], ap, ls);
        lemma_escape_text_no_control(meta, text.drop_first(), ap, out2);
        lemma_escape_text_extends(meta, text.drop_first(), ap, out2);
        let r = escape_text(meta, text, ap, out);
        assert forall|k: int|
            out.len() <= k < r.len() && (k == 0 || r[k - 1] == '\n') implies #[trigger] r[k] != '.' && r[k]
            != '\'' by {
            if k < out2.len() {
                assert(r[k] == r.take(out2.len() as int)[k]);
                assert(r[k] == p[k - out.len()]);
                if k > out.len() {
                    assert(r[k - 1] == r.take(out2.len() as int)[k - 1]);
                    assert(r[k - 1] == p[k - 1 - out.len()]);
                } else if k > 0 {
                    assert(r[k - 1] == r.take(out2.len() as int)[k - 1]);
                    assert(r[k - 1] == out[k - 1]);
                    assert(out.last() == out[k - 1]);
                }
            }
        }
    }
}

/// Text escaped as special never starts a line of the document source with `.` or `'`,
/// so no part of it is read as a request, whatever came before it.
pub proof fn law_escaped_text_makes_no_requests(meta: Escape, text: Seq<char>, ap: Apostrophes, out: Seq<char>)
    requires
        meta == Escape::Special || meta == Escape::SpecialNoNewline,
    ensures
        escape_text(meta, text, ap, out).take(out.len() as int) == out,
        no_control_line_from(escape_text(meta, text, ap, out), out.len() as int),
{
    lemma_escape_text_extends(meta, text, ap, out);
    lemma_escape_text_no_control(meta, text, ap, out);
}

/// `out` followed by one escaped fragment.
pub open spec fn escape_frag(meta: Escape, text: Seq<char>, ap: Apostrophes, out: Seq<char>) -> Seq<
    char,
> {
    let start = if meta == Escape::UnescapedAtNewline && !at_line_start(out) {
        out.push('\n')
    } else {
        out
    };
    escape_text(meta, text, ap, start)
}

/// `out` followed by all escaped fragments.
pub open spec fn escape_frags(frags: Seq<(Seq<char>, Escape)>, ap: Apostrophes, out: Seq<char>) -> Seq<
    char,
>
    decreases frags.len(),
{
    if frags.len() == 0 {
        out
    } else {
        escape_frags(frags.drop_first(), ap, escape_frag(frags[0].1, frags[0].0, ap, out))
    }
}

/// The document source a sequence of fragments renders to.
pub open spec fn render_frags(frags: Seq<(Seq<char>, Escape)>, ap: Apostrophes) -> Seq<char> {
    let start = if ap == Apostrophes::Handle {
        apostrophe_preamble()
    } else {
        Seq::empty()
    };
    escape_frags(frags, ap, start)
}

fn is_line_start(out: &Vec<char>) -> (r: bool)
    ensures
        r == at_line_start(out@),
{
    out.len() == 0 || out[out.len() - 1] == '\n'
}

fn escape_char_into(out: &mut Vec<char>, meta: Escape, c: char, ap: Apostrophes)
    ensures
        final(out)@ == old(out)@ + escape_char(meta, c, ap, at_line_start(old(out)@)),
{
    let line_start = is_line_start(out);
    let ghost e = escape_char(meta, c, ap, line_start);
    match meta {
        Escape::Spaces => {
            if c == ' ' {
                out.push('\\');
                out.push(' ');
            } else {
                out.push(c);
            }
        },
        Escape::Special | Escape::SpecialNoNewline => {
            if c == '\n' && meta == Escape::SpecialNoNewline {
                out.push(' ');
            } else if c == '\\' {
                out.push('\\');
                out.push('\\');
            } else if c == '-' {
                out.push('\\');
                out.push('-');
            } else if c == '\'' && ap == Apostrophes::Handle {
                push_str_chars(out, "\\*(Aq");
            } else if (c == '.' || c == '\'') && line_start {
                out.push('\\');
                out.push('&');
                out.push(c);
            } else {
                out.push(c);
            }
        },
        Escape::Unescaped | Escape::UnescapedAtNewline => {
            out.push(c);
        },
    }
    assert(out@ =~= old(out)@ + e);
}

/// Escapes every fragment of `items` into `res`.
pub fn escape(items: &FreeMonoid<Escape>, res: &mut Vec<char>, ap: Apostrophes)
    requires
        items.wf(),
    ensures
        final(res)@ == escape_frags(items.frags(), ap, old(res)@),
{
    let n = items.len();
    let ghost frags = items.frags();
    let mut i: usize = 0;
    assert(frags.skip(0) =~= frags);
    while i < n
        invariant
            items.wf(),
            n == frags.len(),
            frags == items.frags(),
            i <= n,
            escape_frags(frags, ap, old(res)@) == escape_frags(frags.skip(i as int), ap, res@),
        decreases n - i,
    {
        let (s, e, meta) = items.span(i);
        let ghost text = frags[i as int].0;
        let ghost before = res@;
        assert(frags.skip(i as int).drop_first() =~= frags.skip(i + 1));
        if meta == Escape::UnescapedAtNewline && !is_line_start(res) {
            res.push('\n');
        }
        let mut j: usize = s;
        assert(text.skip(0) =~= text);
        while j < e
            invariant
                s <= j <= e <= items.text().len(),
                text == items.text().subrange(s as int, e as int),
                escape_frag(meta, text, ap, before) == escape_text(
                    meta,
                    text.skip(j - s),
                    ap,
                    res@,
                ),
            decreases e - j,
        {
            let c = items.char_at(j);
            assert(text.skip(j - s).drop_first() =~= text.skip(j + 1 - s));
            escape_char_into(res, meta, c, ap);
            j = j + 1;
        }
        i = i + 1;
    }
}

/// Font selector
#[derive(Debug, Clone, Copy, PartialEq, Eq, Structural)]
pub enum Font {
    /// Roman font - regular font that should be used for most of the text
    Roman,
    /// Bold font
    Bold,
    /// Italic font
    Italic,
}

/// Escape code used to return to the previous font
pub open spec fn restore_font() -> Seq<char> {
    "\\fP"@
}

/// Escape sequence selecting a font.
pub open spec fn font_escape(font: Font) -> Seq<char> {
    match font {
        Font::Bold => "\\fB"@,
        Font::Italic => "\\fI"@,
        Font::Roman => "\\fR"@,
    }
}

impl Font {
    /// Escape sequence needed to set this font
    pub fn escape(self) -> (r: &'static str)
        ensures
            r@ == font_escape(self),
    {
        match self {
            Font::Bold => "\\fB",
            Font::Italic => "\\fI",
            Font::Roman => "\\fR",
        }
    }
}

/// Fragments for the arguments of a control line.
pub open spec fn control_args(args: Seq<&str>) -> Seq<(Seq<char>, Escape)>
    decreases args.len(),
{
    if args.len() == 0 {
        Seq::empty()
    } else {
        let a = if args[0]@.len() == 0 {
            "\"\""@
        } else {
            args[0]@
        };
        seq![(" "@, Escape::Unescaped), (a, Escape::Spaces)] + control_args(args.drop_first())
    }
}

/// Fragments of a control line `.name arg1 arg2 ...`.
pub open spec fn control_frags(name: Seq<char>, args: Seq<&str>) -> Seq<(Seq<char>, Escape)> {
    seq![("."@, Escape::UnescapedAtNewline), (name, Escape::Unescaped)] + control_args(args)
        + seq![(""@, Escape::UnescapedAtNewline)]
}

/// Fragments of a run of text in fonts: a font escape wherever the font changes, the
/// escaped text, and a final escape restoring the previous font.
pub open spec fn text_frags(items: Seq<(Font, &str)>, prev: Option<Font>, plain: Escape) -> Seq<
    (Seq<char>, Escape),
>
    decreases items.len(),
{
    if items.len() == 0 {
        if prev is Some {
            seq![(restore_font(), Escape::Unescaped)]
        } else {
            Seq::empty()
        }
    } else {
        let (font, t) = items[0];
        if prev == Some(font) {
            seq![(t@, plain)] + text_frags(items.drop_first(), prev, plain)
        } else {
            seq![(font_escape(font), Escape::Unescaped), (t@, plain)] + text_frags(
                items.drop_first(),
                Some(font),
                plain,
            )
        }
    }
}

/// You can concatenate multiple `Roff` documents with `add` or `add_assign`.
pub struct Roff {
    payload: FreeMonoid<Escape>,
    /// keep or strip newlines from inserted text
    pub strip_newlines: bool,
}

impl Roff {
    /// Internal consistency: fragments are never merged.
    pub closed spec fn wf(&self) -> bool {
        self.payload.wf() && !self.payload.squashing()
    }

    /// The fragments of the document, in order.
    pub closed spec fn frags(&self) -> Seq<(Seq<char>, Escape)> {
        self.payload.frags()
    }

    /// Total length of the unescaped text.
    pub closed spec fn size(&self) -> nat {
        self.payload.text().len()
    }

    /// Whether newlines in plain text are replaced with spaces.
    pub closed spec fn stripping(&self) -> bool {
        self.strip_newlines
    }

    /// Escape used for plain text in the current mode.
    pub open spec fn plain_escape(&self) -> Escape {
        if self.stripping() {
            Escape::SpecialNoNewline
        } else {
            Escape::Special
        }
    }

    /// Create new raw Roff document
    pub fn new() -> (r: Self)
        ensures
            r.wf(),
            r.frags() == Seq::<(Seq<char>, Escape)>::empty(),
            !r.stripping(),
    {
        Roff { payload: FreeMonoid::new(), strip_newlines: false }
    }

    fn push_frag(&mut self, meta: Escape, text: &str)
        requires
            old(self).wf(),
        ensures
            final(self).wf(),
            final(self).frags() == old(self).frags().push((text@, meta)),
            final(self).stripping() == old(self).stripping(),
    {
        let v = str_chars(text);
        self.payload.push_vec(meta, &v);
    }

    /// Chainable setter for `strip_newlines` field
    ///
    /// `strip_newlines` specifies if [`render`](Self::render) should keep all the newline
    /// characters inside added text.
    pub fn strip_newlines(&mut self, state: bool) -> (r: &mut Self)
        requires
            old(self).wf(),
        ensures
            r.wf(),
            r.frags() == old(self).frags(),
            r.stripping() == state,
            *final(self) == *final(r),
    {
        self.strip_newlines = state;
        self
    }

    /// Insert a raw control sequence
    ///
    /// `name` should not contain initial `'.'`. Arguments are escaped so that each one stays a
    /// single argument; an empty argument is written as `""`.
    pub fn control(&mut self, name: &str, args: &[&str]) -> (r: &mut Self)
        requires
            old(self).wf(),
        ensures
            r.wf(),
            r.frags() == old(self).frags() + control_frags(name@, args@),
            r.stripping() == old(self).stripping(),
            *final(self) == *final(r),
    {
        self.push_frag(Escape::UnescapedAtNewline, ".");
        self.push_frag(Escape::Unescaped, name);
        let ghost base = self.frags();
        let mut i: usize = 0;
        while i < args.len()
            invariant
                self.wf(),
                i <= args@.len(),
                self.stripping() == old(self).stripping(),
                self.frags() == base + control_args(args@.take(i as int)),
            decreases args.len() - i,
        {
            let mut s: &str = args[i];
            if s.is_empty() {
                s = "\"\"";
            }
            self.push_frag(Escape::Unescaped, " ");
            self.push_frag(Escape::Spaces, s);
            proof {
                lemma_control_args_push(args@.take(i as int), args@[i as int]);
                assert(args@.take(i + 1) =~= args@.take(i as int).push(args@[i as int]));
            }
            i = i + 1;
        }
        self.push_frag(Escape::UnescapedAtNewline, "");
        proof {
            assert(args@.take(args@.len() as int) =~= args@);
            assert(self.frags() =~= old(self).frags() + control_frags(name@, args@));
        }
        self
    }

    /// A variant of control that takes no parameters
    pub fn control0(&mut self, name: &str) -> (r: &mut Self)
        requires
            old(self).wf(),
        ensures
            r.wf(),
            r.frags() == old(self).frags() + control_frags(name@, Seq::empty()),
            r.stripping() == old(self).stripping(),
            *final(self) == *final(r),
    {
        self.push_frag(Escape::UnescapedAtNewline, ".");
        self.push_frag(Escape::Unescaped, name);
        self.push_frag(Escape::UnescapedAtNewline, "");
        proof {
            assert(control_args(Seq::<&str>::empty()) =~= Seq::<(Seq<char>, Escape)>::empty());
            assert(self.frags() =~= old(self).frags() + control_frags(name@, Seq::empty()));
        }
        self
    }

    /// Insert a line break in the Roff document source
    ///
    /// This will not show up in the output of the roff program.
    pub fn roff_linebreak(&mut self) -> (r: &mut Self)
        requires
            old(self).wf(),
        ensures
            r.wf(),
            r.frags() == old(self).frags().push((""@, Escape::UnescapedAtNewline)),
            r.stripping() == old(self).stripping(),
            *final(self) == *final(r),
    {
        self.push_frag(Escape::UnescapedAtNewline, "");
        self
    }

    /// Insert raw escape sequence
    ///
    /// It is copied into the output stream as is without extra checks or escapes.
    pub fn escape(&mut self, arg: &str) -> (r: &mut Self)
        requires
            old(self).wf(),
        ensures
            r.wf(),
            r.frags() == old(self).frags().push((arg@, Escape::Unescaped)),
            r.stripping() == old(self).stripping(),
            *final(self) == *final(r),
    {
        self.push_frag(Escape::Unescaped, arg);
        self
    }

    /// Insert a plain text string, special characters are escaped
    pub fn plaintext(&mut self, text: &str) -> (r: &mut Self)
        requires
            old(self).wf(),
        ensures
            r.wf(),
            r.frags() == old(self).frags().push((text@, old(self).plain_escape())),
            r.stripping() == old(self).stripping(),
            *final(self) == *final(r),
    {
        if self.strip_newlines {
            self.push_frag(Escape::SpecialNoNewline, text);
        } else {
            self.push_frag(Escape::Special, text);
        }
        self
    }

    /// Insert one or more string slices using custom font for each one
    pub fn text(&mut self, text: &[(Font, &str)]) -> (r: &mut Self)
        requires
            old(self).wf(),
        ensures
            r.wf(),
            r.frags() == old(self).frags() + text_frags(text@, None, old(self).plain_escape()),
            r.stripping() == old(self).stripping(),
            *final(self) == *final(r),
    {
        let ghost plain = old(self).plain_escape();
        let mut prev: Option<Font> = None;
        let mut i: usize = 0;
        assert(text@.skip(0) =~= text@);
        while i < text.len()
            invariant
                self.wf(),
                i <= text@.len(),
                self.stripping() == old(self).stripping(),
                plain == self.plain_escape(),
                old(self).frags() + text_frags(text@, None, plain) == self.frags()
                    + text_frags(text@.skip(i as int), prev, plain),
            decreases text.len() - i,
        {
            let (font, item) = text[i];
            let ghost before = self.frags();
            let ghost rest = text@.skip(i as int);
            assert(rest.drop_first() =~= text@.skip(i + 1));
            if prev == Some(font) {
                self.plaintext(item);
                assert(before + text_frags(rest, prev, plain) =~= self.frags() + text_frags(
                    text@.skip(i + 1),
                    prev,
                    plain,
                ));
            } else {
                self.escape(font.escape());
                self.plaintext(item);
                assert(before + text_frags(rest, prev, plain) =~= self.frags() + text_frags(
                    text@.skip(i + 1),
                    Some(font),
                    plain,
                ));
                prev = Some(font);
            }
            i = i + 1;
        }
        if prev.is_some() {
            self.escape("\\fP");
        }
        proof {
            let e = text@.skip(text@.len() as int);
            assert(e =~= Seq::<(Font, &str)>::empty());
            if prev is None {
                assert(self.frags() + text_frags(e, prev, plain) =~= self.frags());
            }
        }
        self
    }

    /// Render Roff document to `String`
    ///
    /// This method creates a valid ROFF document which can be fed to a ROFF implementation
    pub fn render(&self, ap: Apostrophes) -> (s: String)
        requires
            self.wf(),
        ensures
            s@ == render_frags(self.frags(), ap),
    {
        let mut res: Vec<char> = Vec::new();
        if ap == Apostrophes::Handle {
            push_str_chars(&mut res, ".ie \\n(.g .ds Aq \\(aq\n.el .ds Aq '\n");
        }
        escape(&self.payload, &mut res, ap);
        chars_string(&res)
    }

    /// Appends the fragments of `rhs`; the newline mode is taken from `rhs`.
    pub fn add_assign(&mut self, rhs: &Roff)
        requires
            old(self).wf(),
            rhs.wf(),
            old(self).size() + rhs.size() <= usize::MAX,
        ensures
            final(self).wf(),
            final(self).frags() == old(self).frags() + rhs.frags(),
            final(self).size() == old(self).size() + rhs.size(),
            final(self).stripping() == rhs.stripping(),
    {
        self.payload.add_assign(&rhs.payload);
        self.strip_newlines = rhs.strip_newlines;
    }

    /// Concatenation of two documents.
    pub fn add(self, rhs: &Roff) -> (r: Roff)
        requires
            self.wf(),
            rhs.wf(),
            self.size() + rhs.size() <= usize::MAX,
        ensures
            r.wf(),
            r.frags() == self.frags() + rhs.frags(),
            r.size() == self.size() + rhs.size(),
            r.stripping() == rhs.stripping(),
    {
        let mut r = self;
        r.add_assign(rhs);
        r
    }
}

impl Default for Roff {
    fn default() -> (r: Self)
        ensures
            r.wf(),
            r.frags() == Seq::<(Seq<char>, Escape)>::empty(),
            !r.stripping(),
    {
        Roff::new()
    }
}

proof fn lemma_control_args_push(args: Seq<&str>, a: &str)
    ensures
        control_args(args.push(a)) == control_args(args) + seq![
            (" "@, Escape::Unescaped),
            (if a@.len() == 0 { "\"\""@ } else { a@ }, Escape::Spaces),
        ],
    decreases args.len(),
{
    if args.len() == 0 {
        assert(args.push(a).drop_first() =~= Seq::<&str>::empty());
        assert(control_args(Seq::<&str>::empty()) =~= Seq::<(Seq<char>, Escape)>::empty());
        assert(control_args(args.push(a)) =~= seq![
            (" "@, Escape::Unescaped),
            (if a@.len() == 0 { "\"\""@ } else { a@ }, Escape::Spaces),
        ]);
    } else {
        lemma_control_args_push(args.drop_first(), a);
        assert(args.push(a).drop_first() =~= args.drop_first().push(a));
        assert(control_args(args.push(a)) =~= control_args(args) + seq![
            (" "@, Escape::Unescaped),
            (if a@.len() == 0 { "\"\""@ } else { a@ }, Escape::Spaces),
        ]);
    }
}

} // verus!
