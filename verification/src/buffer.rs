//! Semantic documents: styled text interleaved with block markers, rendered later to the
//! console, html, markdown or roff.

use crate::complete_gen::{preferred_name, spec_preferred_name, ShortLong};
use crate::text::{chars_string, push_chars, str_chars};
use vstd::prelude::*;

verus! {

/// What a piece of text means, which decides how it is decorated
#[derive(Debug, Copy, Clone, Eq, PartialEq, Structural)]
pub enum Style {
    /// Plain text, no decorations
    Text,
    /// Word with emphasis - things like "Usage", "Available options", etc
    Emphasis,
    /// Something user needs to type literally - command names, etc
    Literal,
    /// Metavavar placeholder - something user needs to replace with own input
    Metavar,
    /// Invalid input given by user - used to display errors
    Invalid,
    /// Something less important, usually rendered in a more dull color
    Muted,
}

/// Structural element of a document
#[derive(Debug, Copy, Clone, Eq, PartialEq, Structural)]
pub enum Block {
    /// Level 1 section header, block for separate command inside manpage, not used in --help
    Header,
    /// Level 2 section header, "Available options" in --help, etc
    Section2,
    /// Level 3 section header, "group_help" header, etc.
    Section3,
    /// Definition list term: -h, --help
    ItemTerm,
    /// Definition list body, item of a list
    ItemBody,
    /// Definition list
    DefinitionList,
    /// Block of text, blocks are separated by a blank line in man or help
    Block,
    /// Usage information
    Meta,
    /// Monospaced text
    Mono,
    /// Displayed with `` in monochrome or not when rendered with colors.
    TermRef,
    /// Block whose text after the first paragraph is only shown in the full version
    InlineBlock,
}

/// Document token: text of a given length and style, or a block boundary
#[derive(Debug, Copy, Clone, Eq, PartialEq, Structural)]
pub enum Token {
    /// `len` characters of the payload, written in `style`
    Text { len: usize, style: Style },
    /// Start of a block
    BlockStart(Block),
    /// End of a block
    BlockEnd(Block),
}

/// Total number of payload characters the tokens account for.
pub open spec fn text_len(tokens: Seq<Token>) -> nat
    decreases tokens.len(),
{
    if tokens.len() == 0 {
        0
    } else {
        text_len(tokens.drop_last()) + match tokens.last() {
            Token::Text { len, .. } => len as nat,
            _ => 0,
        }
    }
}

/// Styled text: tokens plus the characters the text tokens refer to
#[derive(Debug, Clone)]
pub struct Buffer {
    /// string info saved here
    payload: Vec<char>,
    /// string meta info tokens
    tokens: Vec<Token>,
}

/// Documentation fragment
pub type Doc = Buffer;

/// Tokens after writing `len` characters in `style`: merged into the last text token
/// when it has the same style.
pub open spec fn styled(tokens: Seq<Token>, len: nat, style: Style) -> Seq<Token> {
    if tokens.len() > 0 && (tokens.last() matches Token::Text { len: l, style: s } && s == style) {
        let l = tokens.last()->len;
        tokens.update(tokens.len() - 1, Token::Text { len: (l + len) as usize, style })
    } else {
        tokens.push(Token::Text { len: len as usize, style })
    }
}

/// The leading text tokens, up to the first block boundary.
pub open spec fn leading_text(tokens: Seq<Token>) -> nat
    decreases tokens.len(),
{
    if tokens.len() == 0 {
        0
    } else if tokens[0] is Text {
        1 + leading_text(tokens.drop_first())
    } else {
        0
    }
}

proof fn lemma_text_len_push(tokens: Seq<Token>, t: Token)
    ensures
        text_len(tokens.push(t)) == text_len(tokens) + match t {
            Token::Text { len, .. } => len as nat,
            _ => 0,
        },
{
    assert(tokens.push(t).drop_last() =~= tokens);
}

proof fn lemma_text_len_append(a: Seq<Token>, b: Seq<Token>)
    ensures
        text_len(a + b) == text_len(a) + text_len(b),
    decreases b.len(),
{
    if b.len() == 0 {
        assert(a + b =~= a);
    } else {
        lemma_text_len_append(a, b.drop_last());
        assert((a + b).drop_last() =~= a + b.drop_last());
    }
}

proof fn lemma_text_len_styled(tokens: Seq<Token>, len: nat, style: Style)
    requires
        text_len(tokens) + len <= usize::MAX,
    ensures
        text_len(styled(tokens, len, style)) == text_len(tokens) + len,
{
    if tokens.len() > 0 && (tokens.last() matches Token::Text { len: l, style: s } && s
        == style) {
        let n = tokens.len() - 1;
        let l = tokens.last()->len;
        assert(styled(tokens, len, style).drop_last() =~= tokens.drop_last());
        assert(text_len(tokens) == text_len(tokens.drop_last()) + l);
    } else {
        lemma_text_len_push(tokens, Token::Text { len: len as usize, style });
    }
}

impl Buffer {
    /// Text tokens account for exactly the payload.
    pub closed spec fn wf(&self) -> bool {
        text_len(self.tokens@) == self.payload@.len() && self.payload@.len() <= usize::MAX
    }

    /// What well-formedness promises about the text.
    pub proof fn lemma_wf(&self)
        requires
            self.wf(),
        ensures
            text_len(self.tokens()) == self.payload().len(),
            self.payload().len() <= usize::MAX,
    {
    }

    /// The characters of all text tokens, in order.
    pub closed spec fn payload(&self) -> Seq<char> {
        self.payload@
    }

    /// The tokens of the document, in order.
    pub closed spec fn tokens(&self) -> Seq<Token> {
        self.tokens@
    }

    /// An empty document.
    pub fn new() -> (b: Buffer)
        ensures
            b.wf(),
            b.payload() == Seq::<char>::empty(),
            b.tokens() == Seq::<Token>::empty(),
    {
        Buffer { payload: Vec::new(), tokens: Vec::new() }
    }

    /// Write `input` in `style`
    pub fn write_str(&mut self, input: &str, style: Style)
        requires
            old(self).wf(),
            old(self).payload().len() + input@.len() <= usize::MAX,
        ensures
            final(self).wf(),
            final(self).payload() == old(self).payload() + input@,
            final(self).tokens() == styled(old(self).tokens(), input@.len(), style),
    {
        let v = str_chars(input);
        self.write_chars(&v, style);
    }

    /// Write characters in `style`
    pub fn write_chars(&mut self, input: &Vec<char>, style: Style)
        requires
            old(self).wf(),
            old(self).payload().len() + input@.len() <= usize::MAX,
        ensures
            final(self).wf(),
            final(self).payload() == old(self).payload() + input@,
            final(self).tokens() == styled(old(self).tokens(), input@.len(), style),
    {
        push_chars(&mut self.payload, input);
        self.set_style(input.len(), style);
    }

    /// Write a single character in `style`
    pub fn write_char(&mut self, c: char, style: Style)
        requires
            old(self).wf(),
            old(self).payload().len() + 1 <= usize::MAX,
        ensures
            final(self).wf(),
            final(self).payload() == old(self).payload().push(c),
            final(self).tokens() == styled(old(self).tokens(), 1, style),
    {
        self.payload.push(c);
        self.set_style(1, style);
    }

    // buffer chunks are unified with previous chunks of the same type
    // [metavar]"foo" + [metavar]"bar" => [metavar]"foobar"
    fn set_style(&mut self, len: usize, style: Style)
        requires
            text_len(old(self).tokens@) + len == old(self).payload@.len(),
            old(self).payload@.len() <= usize::MAX,
        ensures
            final(self).wf(),
            final(self).payload@ == old(self).payload@,
            final(self).tokens@ == styled(old(self).tokens@, len as nat, style),
    {
        let n = self.tokens.len();
        proof {
            lemma_text_len_styled(self.tokens@, len as nat, style);
        }
        if n > 0 {
            if let Token::Text { len: prev, style: prev_style } = self.tokens[n - 1] {
                if prev_style == style {
                    proof {
                        assert(text_len(self.tokens@) == text_len(self.tokens@.drop_last()) + prev);
                    }
                    self.tokens.set(n - 1, Token::Text { len: prev + len, style });
                    return;
                }
            }
        }
        self.tokens.push(Token::Text { len, style });
    }

    /// Plain text
    pub fn text(&mut self, text: &str)
        requires
            old(self).wf(),
            old(self).payload().len() + text@.len() <= usize::MAX,
        ensures
            final(self).wf(),
            final(self).payload() == old(self).payload() + text@,
            final(self).tokens() == styled(old(self).tokens(), text@.len(), Style::Text),
    {
        self.write_str(text, Style::Text);
    }

    /// Text the user needs to type literally
    pub fn literal(&mut self, text: &str)
        requires
            old(self).wf(),
            old(self).payload().len() + text@.len() <= usize::MAX,
        ensures
            final(self).wf(),
            final(self).payload() == old(self).payload() + text@,
            final(self).tokens() == styled(old(self).tokens(), text@.len(), Style::Literal),
    {
        self.write_str(text, Style::Literal);
    }

    /// Section titles, written with emphasis
    pub fn title(&mut self, text: &str)
        requires
            old(self).wf(),
            old(self).payload().len() + text@.len() <= usize::MAX,
        ensures
            final(self).wf(),
            final(self).payload() == old(self).payload() + text@,
            final(self).tokens() == styled(old(self).tokens(), text@.len(), Style::Emphasis),
    {
        self.write_str(text, Style::Emphasis);
    }

    /// Text with emphasis
    pub fn emphasis(&mut self, text: &str)
        requires
            old(self).wf(),
            old(self).payload().len() + text@.len() <= usize::MAX,
        ensures
            final(self).wf(),
            final(self).payload() == old(self).payload() + text@,
            final(self).tokens() == styled(old(self).tokens(), text@.len(), Style::Emphasis),
    {
        self.write_str(text, Style::Emphasis);
    }

    /// Invalid input given by the user
    pub fn invalid(&mut self, text: &str)
        requires
            old(self).wf(),
            old(self).payload().len() + text@.len() <= usize::MAX,
        ensures
            final(self).wf(),
            final(self).payload() == old(self).payload() + text@,
            final(self).tokens() == styled(old(self).tokens(), text@.len(), Style::Invalid),
    {
        self.write_str(text, Style::Invalid);
    }

    /// Less important text
    pub fn muted(&mut self, text: &str)
        requires
            old(self).wf(),
            old(self).payload().len() + text@.len() <= usize::MAX,
        ensures
            final(self).wf(),
            final(self).payload() == old(self).payload() + text@,
            final(self).tokens() == styled(old(self).tokens(), text@.len(), Style::Muted),
    {
        self.write_str(text, Style::Muted);
    }

    /// Metavariable placeholder
    pub fn metavar(&mut self, text: &str)
        requires
            old(self).wf(),
            old(self).payload().len() + text@.len() <= usize::MAX,
        ensures
            final(self).wf(),
            final(self).payload() == old(self).payload() + text@,
            final(self).tokens() == styled(old(self).tokens(), text@.len(), Style::Metavar),
    {
        self.write_str(text, Style::Metavar);
    }

    /// A flag's name as the user types it: `-s` for a short name, else `--long`
    pub fn write_shortlong(&mut self, name: &ShortLong)
        requires
            old(self).wf(),
            old(self).payload().len() + spec_preferred_name(*name).len() <= usize::MAX,
        ensures
            final(self).wf(),
            final(self).payload() == old(self).payload() + spec_preferred_name(*name),
            final(self).tokens() == styled(
                old(self).tokens(),
                spec_preferred_name(*name).len(),
                Style::Literal,
            ),
    {
        let s = preferred_name(name);
        self.write_str(&s, Style::Literal);
    }

    /// Insert a block boundary
    pub fn token(&mut self, token: Token)
        requires
            old(self).wf(),
            !(token is Text),
        ensures
            final(self).wf(),
            final(self).payload() == old(self).payload(),
            final(self).tokens() == old(self).tokens().push(token),
    {
        proof {
            lemma_text_len_push(self.tokens@, token);
        }
        self.tokens.push(token);
    }

    /// `true` when the document holds no tokens
    pub fn is_empty(&self) -> (r: bool)
        ensures
            r == (self.tokens().len() == 0),
    {
        self.tokens.len() == 0
    }

    /// Append all tokens and text of `buf`
    pub fn buffer(&mut self, buf: &Buffer)
        requires
            old(self).wf(),
            buf.wf(),
            old(self).payload().len() + buf.payload().len() <= usize::MAX,
        ensures
            final(self).wf(),
            final(self).payload() == old(self).payload() + buf.payload(),
            final(self).tokens() == old(self).tokens() + buf.tokens(),
    {
        let mut i: usize = 0;
        while i < buf.tokens.len()
            invariant
                i <= buf.tokens@.len(),
                self.tokens@ == old(self).tokens@ + buf.tokens@.take(i as int),
                self.payload@ == old(self).payload@,
            decreases buf.tokens.len() - i,
        {
            self.tokens.push(buf.tokens[i]);
            i = i + 1;
            assert(buf.tokens@.take(i as int) =~= buf.tokens@.take(i - 1).push(buf.tokens@[i - 1]));
        }
        assert(buf.tokens@.take(buf.tokens@.len() as int) =~= buf.tokens@);
        push_chars(&mut self.payload, &buf.payload);
        proof {
            lemma_text_len_append(old(self).tokens@, buf.tokens@);
        }
    }

    /// The leading run of text, up to the first block boundary; `None` for an empty document
    pub fn first_line(&self) -> (r: Option<Buffer>)
        requires
            self.wf(),
        ensures
            self.tokens().len() == 0 ==> r is None,
            self.tokens().len() > 0 ==> (r matches Some(b) && b.wf() && b.tokens()
                == self.tokens().take(leading_text(self.tokens()) as int) && b.payload()
                == self.payload().take(
                text_len(self.tokens().take(leading_text(self.tokens()) as int)) as int,
            )),
    {
        if self.tokens.len() == 0 {
            return None;
        }
        proof {
            lemma_leading_text_bound(self.tokens@);
        }
        let mut k: usize = 0;
        while k < self.tokens.len() && matches!(self.tokens[k], Token::Text { .. })
            invariant
                k <= self.tokens@.len(),
                forall|j: int| 0 <= j < k ==> self.tokens@[j] is Text,
            decreases self.tokens.len() - k,
        {
            k = k + 1;
        }
        proof {
            if k < self.tokens@.len() {
                lemma_leading_text_at(self.tokens@, k as int);
            } else {
                lemma_leading_text_all(self.tokens@);
            }
        }
        let mut res = Buffer::new();
        let mut cur: usize = 0;
        let mut i: usize = 0;
        while i < k
            invariant
                self.wf(),
                i <= k <= self.tokens@.len(),
                forall|j: int| 0 <= j < k ==> self.tokens@[j] is Text,
                res.tokens@ == self.tokens@.take(i as int),
                cur == text_len(self.tokens@.take(i as int)),
                res.payload@ == self.payload@.take(cur as int),
                res.wf(),
            decreases k - i,
        {
            let t = self.tokens[i];
            proof {
                lemma_text_len_prefix(self.tokens@, i as int + 1);
                assert(self.tokens@.take(i + 1) =~= self.tokens@.take(i as int).push(t));
                lemma_text_len_push(self.tokens@.take(i as int), t);
                lemma_text_len_push(res.tokens@, t);
            }
            if let Token::Text { len, style: _ } = t {
                let plen = self.payload.len();
                assert(cur + len <= plen);
                let end: usize = cur + len;
                res.tokens.push(t);
                crate::text::push_range(&mut res.payload, &self.payload, cur, end);
                assert(self.payload@.take(cur as int) + self.payload@.subrange(
                    cur as int,
                    cur + len,
                ) =~= self.payload@.take(cur + len));
                cur = cur + len;
            }
            i = i + 1;
        }
        Some(res)
    }

    /// Text to show next to a shell completion: the first line of the document
    pub fn to_completion(&self) -> (r: Option<String>)
        requires
            self.wf(),
        ensures
            self.tokens().len() == 0 ==> r is None,
            self.tokens().len() > 0 ==> (r matches Some(s) && s@ == self.payload().take(
                text_len(self.tokens().take(leading_text(self.tokens()) as int)) as int,
            )),
    {
        match self.first_line() {
            Some(b) => Some(chars_string(&b.payload)),
            None => None,
        }
    }

    /// Remove all tokens and text
    pub fn clear(&mut self)
        ensures
            final(self).wf(),
            final(self).payload() == Seq::<char>::empty(),
            final(self).tokens() == Seq::<Token>::empty(),
    {
        self.payload.clear();
        self.tokens.clear();
    }

    /// Number of tokens
    pub fn token_count(&self) -> (n: usize)
        ensures
            n == self.tokens().len(),
    {
        self.tokens.len()
    }

    /// Token at position `i`
    pub fn token_at(&self, i: usize) -> (t: Token)
        requires
            i < self.tokens().len(),
        ensures
            t == self.tokens()[i as int],
    {
        self.tokens[i]
    }

    /// Payload characters `from..to`
    pub fn text_range(&self, from: usize, to: usize) -> (v: Vec<char>)
        requires
            from <= to <= self.payload().len(),
        ensures
            v@ == self.payload().subrange(from as int, to as int),
    {
        let mut v = Vec::new();
        crate::text::push_range(&mut v, &self.payload, from, to);
        v
    }
}

impl Default for Buffer {
    fn default() -> (b: Buffer)
        ensures
            b.wf(),
            b.payload() == Seq::<char>::empty(),
            b.tokens() == Seq::<Token>::empty(),
    {
        Buffer::new()
    }
}

/// Text length of any prefix of the tokens is bounded by the whole.
pub proof fn lemma_text_len_prefix(tokens: Seq<Token>, k: int)
    requires
        0 <= k <= tokens.len(),
    ensures
        text_len(tokens.take(k)) <= text_len(tokens),
    decreases tokens.len() - k,
{
    if k < tokens.len() {
        lemma_text_len_prefix(tokens, k + 1);
        assert(tokens.take(k + 1).drop_last() =~= tokens.take(k));
    } else {
        assert(tokens.take(k) =~= tokens);
    }
}

proof fn lemma_leading_text_bound(tokens: Seq<Token>)
    ensures
        leading_text(tokens) <= tokens.len(),
        forall|j: int| 0 <= j < leading_text(tokens) ==> tokens[j] is Text,
        leading_text(tokens) < tokens.len() ==> !(tokens[leading_text(tokens) as int] is Text),
    decreases tokens.len(),
{
    if tokens.len() > 0 {
        lemma_leading_text_bound(tokens.drop_first());
        assert forall|j: int| 0 <= j < leading_text(tokens) implies tokens[j] is Text by {
            if j > 0 {
                assert(tokens[j] == tokens.drop_first()[j - 1]);
            }
        }
    }
}

proof fn lemma_leading_text_step(tokens: Seq<Token>, i: int)
    requires
        0 <= i < tokens.len(),
        forall|j: int| 0 <= j <= i ==> tokens[j] is Text,
    ensures
        i + 1 <= leading_text(tokens),
    decreases i,
{
    if i > 0 {
        lemma_leading_text_step(tokens.drop_first(), i - 1);
    }
}

proof fn lemma_leading_text_at(tokens: Seq<Token>, i: int)
    requires
        0 <= i < tokens.len(),
        forall|j: int| 0 <= j < i ==> tokens[j] is Text,
        !(tokens[i] is Text),
    ensures
        leading_text(tokens) == i,
    decreases i,
{
    if i > 0 {
        lemma_leading_text_at(tokens.drop_first(), i - 1);
    }
}

proof fn lemma_leading_text_all(tokens: Seq<Token>)
    requires
        forall|j: int| 0 <= j < tokens.len() ==> tokens[j] is Text,
    ensures
        leading_text(tokens) == tokens.len(),
    decreases tokens.len(),
{
    if tokens.len() > 0 {
        lemma_leading_text_all(tokens.drop_first());
    }
}

/// Writing text twice in a row with the same style is the same as writing the
/// concatenated text once: the payloads agree and so do the tokens.
pub proof fn law_same_style_merges(tokens: Seq<Token>, a: nat, b: nat, style: Style)
    requires
        text_len(tokens) + a + b <= usize::MAX,
    ensures
        styled(styled(tokens, a, style), b, style) == styled(tokens, a + b, style),
{
    let t1 = styled(tokens, a, style);
    assert(t1.len() > 0);
    assert(t1.last() matches Token::Text { len: l, style: s } && s == style);
    if tokens.len() > 0 && (tokens.last() matches Token::Text { len: l, style: s } && s == style) {
        let l = tokens.last()->len;
        assert(styled(t1, b, style) =~= styled(tokens, a + b, style));
    } else {
        assert(styled(t1, b, style) =~= styled(tokens, a + b, style));
    }
}

} // verus!
