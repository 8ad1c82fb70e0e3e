//! Splitting of help text into chunks annotated with their width, following the text
//! formatting rules:
//!
//! 1. paragraphs are separated by a blank line,
//! 2. code blocks are indented by 4 spaces and are kept intact,
//! 3. line breaks followed by a space are preserved,
//! 4. other line breaks become spaces and text is fed word by word,
//! 5. everything between lines starting with three backticks is passed as is.

use crate::text::{chars_at, chars_string, occurs_at, starts_with, str_chars};
use vstd::prelude::*;

verus! {

/// Width assigned to lines of an indented code block
pub const CODE: usize = 1_000_000;

/// Width assigned to lines of a fenced code block
pub const TICKED_CODE: usize = 1_000_001;

/// A piece of split text
#[derive(Debug, Clone, PartialEq, Eq)]
pub enum Chunk {
    /// Text with no newlines and its width in characters (or [`CODE`] / [`TICKED_CODE`])
    Raw(String, usize),
    /// Paragraph separator
    Paragraph,
    /// Hard line break
    LineBreak,
}

/// Mathematical form of a [`Chunk`].
pub enum SpecChunk {
    Raw(Seq<char>, nat),
    Paragraph,
    LineBreak,
}

impl Chunk {
    /// The chunk as a mathematical value.
    pub open spec fn spec(&self) -> SpecChunk {
        match self {
            Chunk::Raw(s, w) => SpecChunk::Raw(s@, *w as nat),
            Chunk::Paragraph => SpecChunk::Paragraph,
            Chunk::LineBreak => SpecChunk::LineBreak,
        }
    }
}

/// Splitter state for fenced code blocks
#[derive(Debug, Clone, Copy, PartialEq, Eq, Structural)]
pub enum Code {
    /// Not inside a fenced block
    No,
    /// Next line is the opening fence
    First,
    /// Inside a fenced block
    Rest,
}

/// Index of the first `'\n'` in `s`, or `s.len()` when there is none.
pub open spec fn find_nl(s: Seq<char>) -> nat
    decreases s.len(),
{
    if s.len() == 0 {
        0
    } else if s[0] == '\n' {
        0
    } else {
        1 + find_nl(s.drop_first())
    }
}

/// Index of the first `'\n'` or `' '` in `s`, or `s.len()` when there is none.
pub open spec fn find_ws(s: Seq<char>) -> nat
    decreases s.len(),
{
    if s.len() == 0 {
        0
    } else if s[0] == '\n' || s[0] == ' ' {
        0
    } else {
        1 + find_ws(s.drop_first())
    }
}

proof fn lemma_find_nl(s: Seq<char>, k: int)
    requires
        0 <= k <= s.len(),
        k < s.len() ==> s[k] == '\n',
        forall|j: int| 0 <= j < k ==> s[j] != '\n',
    ensures
        find_nl(s) == k,
    decreases k,
{
    if k > 0 {
        lemma_find_nl(s.drop_first(), k - 1);
    }
}

proof fn lemma_find_ws(s: Seq<char>, k: int)
    requires
        0 <= k <= s.len(),
        k < s.len() ==> (s[k] == '\n' || s[k] == ' '),
        forall|j: int| 0 <= j < k ==> s[j] != '\n' && s[j] != ' ',
    ensures
        find_ws(s) == k,
    decreases k,
{
    if k > 0 {
        lemma_find_ws(s.drop_first(), k - 1);
    }
}

pub proof fn lemma_find_bounds(s: Seq<char>)
    ensures
        find_nl(s) <= s.len(),
        find_ws(s) <= s.len(),
        find_nl(s) < s.len() ==> s[find_nl(s) as int] == '\n',
        find_ws(s) < s.len() ==> (s[find_ws(s) as int] == '\n' || s[find_ws(s) as int] == ' '),
    decreases s.len(),
{
    if s.len() > 0 {
        lemma_find_bounds(s.drop_first());
    }
}

/// One step of splitting a non-empty input: the chunk produced, how many characters
/// are consumed, and the next state.
pub open spec fn step(s: Seq<char>, code: Code) -> (SpecChunk, nat, Code) {
    if code == Code::First || code == Code::Rest {
        let code1 = if code == Code::Rest && starts_with(s, "```"@) {
            Code::No
        } else if code == Code::First {
            Code::Rest
        } else {
            code
        };
        let k = find_nl(s);
        if k < s.len() {
            let consumed = if starts_with(s.skip(k as int), "\n\n"@) && code1 == Code::No {
                k
            } else {
                k + 1
            };
            (SpecChunk::Raw(s.take(k as int), TICKED_CODE as nat), consumed, code1)
        } else {
            (SpecChunk::Raw(s, TICKED_CODE as nat), s.len(), code1)
        }
    } else if s[0] == '\n' {
        let t = s.skip(1);
        if starts_with(t, "    "@) {
            let t2 = t.skip(4);
            let k = find_nl(t2);
            (SpecChunk::Raw(t2.take(k as int), CODE as nat), 5 + k, Code::No)
        } else if starts_with(t, "\n```"@) {
            (SpecChunk::Paragraph, 2, Code::First)
        } else if starts_with(t, "\n    "@) {
            (SpecChunk::Paragraph, 1, Code::No)
        } else if starts_with(t, "\n"@) {
            (SpecChunk::Paragraph, 2, Code::No)
        } else if starts_with(t, " "@) {
            (SpecChunk::LineBreak, 2, Code::No)
        } else {
            (SpecChunk::Raw(" "@, 1), 1, Code::No)
        }
    } else if s[0] == ' ' {
        (SpecChunk::Raw(" "@, 1), 1, Code::No)
    } else {
        let k = find_ws(s);
        (SpecChunk::Raw(s.take(k as int), k), k, Code::No)
    }
}

pub proof fn lemma_step_progress(s: Seq<char>, code: Code)
    requires
        s.len() > 0,
    ensures
        1 <= step(s, code).1 <= s.len(),
{
    reveal_strlit("```");
    reveal_strlit("    ");
    reveal_strlit("\n```");
    reveal_strlit("\n    ");
    reveal_strlit("\n");
    reveal_strlit(" ");
    reveal_strlit("\n\n");
    lemma_find_bounds(s);
    if s.len() >= 5 {
        assert(s.skip(1).skip(4) =~= s.skip(5));
        lemma_find_bounds(s.skip(5));
    }
    if code == Code::Rest && starts_with(s, "```"@) {
        let k = find_nl(s);
        if k < s.len() {
            assert(s.subrange(0, 3)[0] == '`');
            assert(k != 0);
        }
    }
    if code == Code::No && s[0] != '\n' && s[0] != ' ' {
        assert(find_ws(s) != 0);
    }
}

/// All chunks of `s`, starting in state `code`.
pub open spec fn split_spec(s: Seq<char>, code: Code) -> Seq<SpecChunk>
    decreases s.len(),
{
    if s.len() == 0 {
        Seq::empty()
    } else {
        let (c, n, next) = step(s, code);
        proof {
            lemma_step_progress(s, code);
        }
        seq![c] + split_spec(s.skip(n as int), next)
    }
}

/// In plain text a newline followed by a space is a hard line break, unless the spaces
/// after the newline indent a code line; a newline followed by a second newline is a
/// paragraph break, unless what follows starts a code block.
#[verifier::spinoff_prover]
pub proof fn law_newline_breaks(s: Seq<char>)
    requires
        s.len() >= 2,
        s[0] == '\n',
    ensures
        s[1] == ' ' && !(s.len() >= 5 && s[2] == ' ' && s[3] == ' ' && s[4] == ' ') ==> split_spec(
            s,
            Code::No,
        ) == seq![SpecChunk::LineBreak] + split_spec(s.skip(2), Code::No),
        s[1] == '\n' && !starts_with(s.skip(2), "```"@) && !starts_with(s.skip(2), "    "@) ==> split_spec(
            s,
            Code::No,
        ) == seq![SpecChunk::Paragraph] + split_spec(s.skip(2), Code::No),
{
    reveal_strlit("    ");
    reveal_strlit("\n```");
    reveal_strlit("\n    ");
    reveal_strlit("\n");
    reveal_strlit(" ");
    reveal_strlit("```");
    let t = s.skip(1);
    assert(t[0] == s[1]);
    if s[1] == ' ' && !(s.len() >= 5 && s[2] == ' ' && s[3] == ' ' && s[4] == ' ') {
        if s.len() >= 5 {
            assert(!starts_with(t, "    "@)) by {
                if starts_with(t, "    "@) {
                    assert(t.subrange(0, 4)[1] == ' ');
                    assert(t.subrange(0, 4)[2] == ' ');
                    assert(t.subrange(0, 4)[3] == ' ');
                }
            }
        }
        assert(!starts_with(t, "\n```"@)) by {
            if starts_with(t, "\n```"@) {
                assert(t.subrange(0, 4)[0] == '\n');
            }
        }
        assert(!starts_with(t, "\n    "@)) by {
            if starts_with(t, "\n    "@) {
                assert(t.subrange(0, 5)[0] == '\n');
            }
        }
        assert(!starts_with(t, "\n"@)) by {
            if starts_with(t, "\n"@) {
                assert(t.subrange(0, 1)[0] == '\n');
            }
        }
        assert(starts_with(t, " "@)) by {
            assert(t.subrange(0, 1) =~= " "@);
        }
        assert(step(s, Code::No) == (SpecChunk::LineBreak, 2nat, Code::No));
    }
    if s[1] == '\n' && !starts_with(s.skip(2), "```"@) && !starts_with(s.skip(2), "    "@) {
        assert(!starts_with(t, "    "@)) by {
            if starts_with(t, "    "@) {
                assert(t.subrange(0, 4)[0] == ' ');
            }
        }
        assert(!starts_with(t, "\n```"@)) by {
            if starts_with(t, "\n```"@) {
                assert(s.skip(2).subrange(0, 3) =~= t.subrange(0, 4).skip(1));
                assert("\n```"@.skip(1) =~= "```"@);
                assert(s.skip(2).subrange(0, 3) =~= "```"@);
                assert(starts_with(s.skip(2), "```"@));
            }
        }
        assert(!starts_with(t, "\n    "@)) by {
            if starts_with(t, "\n    "@) {
                assert(s.skip(2).subrange(0, 4) =~= t.subrange(0, 5).skip(1));
                assert("\n    "@.skip(1) =~= "    "@);
                assert(s.skip(2).subrange(0, 4) =~= "    "@);
                assert(starts_with(s.skip(2), "    "@));
            }
        }
        assert(starts_with(t, "\n"@)) by {
            assert(t.subrange(0, 1) =~= "\n"@);
        }
        assert(step(s, Code::No) == (SpecChunk::Paragraph, 2nat, Code::No));
    }
}

/// Position of the first `'\n'` at or after `from`, or `v.len()`.
fn scan_nl(v: &Vec<char>, from: usize) -> (k: usize)
    requires
        from <= v.len(),
    ensures
        from <= k <= v.len(),
        k - from == find_nl(v@.skip(from as int)),
{
    let mut i = from;
    while i < v.len() && v[i] != '\n'
        invariant
            from <= i <= v.len(),
            forall|j: int| from <= j < i ==> v@[j] != '\n',
        decreases v.len() - i,
    {
        i = i + 1;
    }
    proof {
        lemma_find_nl(v@.skip(from as int), i - from);
    }
    i
}

/// Position of the first `'\n'` or `' '` at or after `from`, or `v.len()`.
fn scan_ws(v: &Vec<char>, from: usize) -> (k: usize)
    requires
        from <= v.len(),
    ensures
        from <= k <= v.len(),
        k - from == find_ws(v@.skip(from as int)),
{
    let mut i = from;
    while i < v.len() && v[i] != '\n' && v[i] != ' '
        invariant
            from <= i <= v.len(),
            forall|j: int| from <= j < i ==> v@[j] != '\n' && v@[j] != ' ',
        decreases v.len() - i,
    {
        i = i + 1;
    }
    proof {
        lemma_find_ws(v@.skip(from as int), i - from);
    }
    i
}

/// Position of the first `'\n'` at or after `from`, or `v.len()`.
pub fn scan_nl_pub(v: &Vec<char>, from: usize) -> (k: usize)
    requires
        from <= v.len(),
    ensures
        from <= k <= v.len(),
        k - from == find_nl(v@.skip(from as int)),
{
    scan_nl(v, from)
}

fn subseq(v: &Vec<char>, from: usize, to: usize) -> (r: Vec<char>)
    requires
        from <= to <= v.len(),
    ensures
        r@ == v@.subrange(from as int, to as int),
{
    let mut r = Vec::new();
    crate::text::push_range(&mut r, v, from, to);
    r
}

/// A split piece holding its characters.
pub enum Piece {
    Raw(Vec<char>, usize),
    Paragraph,
    LineBreak,
}

impl Piece {
    pub open spec fn spec(&self) -> SpecChunk {
        match self {
            Piece::Raw(s, w) => SpecChunk::Raw(s@, *w as nat),
            Piece::Paragraph => SpecChunk::Paragraph,
            Piece::LineBreak => SpecChunk::LineBreak,
        }
    }
}

fn at(v: &Vec<char>, pos: usize, pat: &str) -> (r: bool)
    requires
        pos <= v.len(),
    ensures
        r == starts_with(v@.skip(pos as int), pat@),
        r ==> pos + pat@.len() <= v.len(),
{
    let r = chars_at(v, pos, pat);
    assert(r == starts_with(v@.skip(pos as int), pat@)) by {
        if pos as int + pat@.len() <= v@.len() {
            assert(v@.skip(pos as int).subrange(0, pat@.len() as int) =~= v@.subrange(
                pos as int,
                pos + pat@.len(),
            ));
        }
    }
    r
}

fn one_space() -> (r: Piece)
    ensures
        r.spec() == SpecChunk::Raw(" "@, 1),
{
    let mut v = Vec::new();
    v.push(' ');
    proof {
        reveal_strlit(" ");
        assert(v@ =~= " "@);
    }
    Piece::Raw(v, 1)
}

/// One splitting step at position `pos` of `v`.
fn next_piece(v: &Vec<char>, pos: usize, code: Code) -> (r: (Piece, usize, Code))
    requires
        pos < v.len(),
    ensures
        r.0.spec() == step(v@.skip(pos as int), code).0,
        r.1 == pos + step(v@.skip(pos as int), code).1,
        r.2 == step(v@.skip(pos as int), code).2,
{
    let ghost s = v@.skip(pos as int);
    proof {
        reveal_strlit("\n");
        reveal_strlit("\n\n");
        reveal_strlit("\n```");
        reveal_strlit("\n    ");
        reveal_strlit(" ");
    }
    if code == Code::First || code == Code::Rest {
        let code1 = if code == Code::Rest && at(v, pos, "```") {
            Code::No
        } else if code == Code::First {
            Code::Rest
        } else {
            code
        };
        let k = scan_nl(v, pos);
        if k < v.len() {
            let consumed = if at(v, k, "\n\n") && code1 == Code::No {
                k
            } else {
                k + 1
            };
            proof {
                assert(s.skip((k - pos) as int) =~= v@.skip(k as int));
                assert(s.take((k - pos) as int) =~= v@.subrange(pos as int, k as int));
            }
            return (Piece::Raw(subseq(v, pos, k), TICKED_CODE), consumed, code1);
        } else {
            assert(s =~= v@.subrange(pos as int, v.len() as int));
            return (Piece::Raw(subseq(v, pos, v.len()), TICKED_CODE), v.len(), code1);
        }
    }
    if v[pos] == '\n' {
        assert(s.skip(1) =~= v@.skip(pos + 1));
        if at(v, pos + 1, "    ") {
            proof {
                reveal_strlit("    ");
            }
            let k = scan_nl(v, pos + 5);
            proof {
                assert(s.skip(1).skip(4) =~= v@.skip(pos + 5));
                assert(v@.skip(pos + 5).take((k - pos - 5) as int) =~= v@.subrange(
                    pos + 5,
                    k as int,
                ));
            }
            (Piece::Raw(subseq(v, pos + 5, k), CODE), k, Code::No)
        } else if at(v, pos + 1, "\n```") {
            (Piece::Paragraph, pos + 2, Code::First)
        } else if at(v, pos + 1, "\n    ") {
            (Piece::Paragraph, pos + 1, Code::No)
        } else if at(v, pos + 1, "\n") {
            (Piece::Paragraph, pos + 2, Code::No)
        } else if at(v, pos + 1, " ") {
            (Piece::LineBreak, pos + 2, Code::No)
        } else {
            (one_space(), pos + 1, Code::No)
        }
    } else if v[pos] == ' ' {
        (one_space(), pos + 1, Code::No)
    } else {
        let k = scan_ws(v, pos);
        assert(s.take((k - pos) as int) =~= v@.subrange(pos as int, k as int));
        (Piece::Raw(subseq(v, pos, k), k - pos), k, Code::No)
    }
}

/// Split characters into pieces according to the text formatting rules.
pub fn split_chars(v: &Vec<char>) -> (r: Vec<Piece>)
    ensures
        r@.map_values(|p: Piece| p.spec()) == split_spec(v@, Code::No),
{
    let mut res: Vec<Piece> = Vec::new();
    let mut pos: usize = 0;
    let mut code = Code::No;
    assert(v@.skip(0) =~= v@);
    while pos < v.len()
        invariant
            pos <= v.len(),
            split_spec(v@, Code::No) == res@.map_values(|p: Piece| p.spec()) + split_spec(
                v@.skip(pos as int),
                code,
            ),
        decreases v.len() - pos,
    {
        let ghost s = v@.skip(pos as int);
        let (p, next, c2) = next_piece(v, pos, code);
        proof {
            lemma_step_progress(s, code);
            assert(s.skip((next - pos) as int) =~= v@.skip(next as int));
        }
        let ghost old_res = res@;
        res.push(p);
        proof {
            assert(res@.map_values(|p: Piece| p.spec()) =~= old_res.map_values(|p: Piece| p.spec())
                + seq![step(s, code).0]);
        }
        pos = next;
        code = c2;
    }
    assert(v@.skip(v.len() as int) =~= Seq::<char>::empty());
    assert(split_spec(v@, Code::No) =~= res@.map_values(|p: Piece| p.spec()));
    res
}

/// Split payload into chunks annotated with character width and containing no newlines
/// according to text formatting rules
pub fn split(input: &str) -> (r: Vec<Chunk>)
    ensures
        r@.map_values(|c: Chunk| c.spec()) == split_spec(input@, Code::No),
{
    let v = str_chars(input);
    let pieces = split_chars(&v);
    let mut res: Vec<Chunk> = Vec::new();
    let mut i: usize = 0;
    while i < pieces.len()
        invariant
            i <= pieces@.len(),
            res@.map_values(|c: Chunk| c.spec()) == pieces@.take(i as int).map_values(
                |p: Piece| p.spec(),
            ),
        decreases pieces.len() - i,
    {
        let c = match &pieces[i] {
            Piece::Raw(s, w) => Chunk::Raw(chars_string(s), *w),
            Piece::Paragraph => Chunk::Paragraph,
            Piece::LineBreak => Chunk::LineBreak,
        };
        let ghost old_res = res@;
        res.push(c);
        proof {
            assert(pieces@.take(i + 1) =~= pieces@.take(i as int).push(pieces@[i as int]));
            assert(res@.map_values(|c: Chunk| c.spec()) =~= old_res.map_values(|c: Chunk| c.spec())
                .push(c.spec()));
            assert(pieces@.take(i + 1).map_values(|p: Piece| p.spec()) =~= pieces@.take(
                i as int,
            ).map_values(|p: Piece| p.spec()).push(pieces@[i as int].spec()));
        }
        i = i + 1;
    }
    assert(pieces@.take(pieces@.len() as int) =~= pieces@);
    res
}

} // verus!
