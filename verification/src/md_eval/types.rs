//! Info strings of fenced code blocks: ```` ```rust,id:1,fold:Title ```` marks source code,
//! ```` ```run,id:1 ```` a command line run against the code with that id.

use crate::complete_shell::{debug_escaped, debug_str};
use crate::text::{chars_string, push_chars, push_str_chars, str_chars};
use vstd::prelude::*;

verus! {

/// Rust source of a code block
#[derive(Debug, Clone)]
pub struct Code {
    /// Formatted rust source
    pub text: String,
    pub title: Option<String>,
}

/// A command line to run against code blocks
#[derive(Debug, Clone)]
pub struct Exec {
    pub title: Option<String>,
    pub ids: Vec<usize>,
    pub line: String,
}

/// A parsed code block
pub enum Block {
    Code(Option<usize>, Code),
    Exec(Exec),
    Ignore,
}

/// What the code block after a fence holds
#[derive(Debug, Clone)]
pub enum Upcoming {
    /// Rust code
    Code {
        /// Fold title, if needs folding
        title: Option<String>,
        id: Option<usize>,
    },
    Exec {
        /// Fold title, if needs folding
        title: Option<String>,
        /// all the code blocks testing against
        ids: Vec<usize>,
    },
    /// skip next block without making any changes
    Ignore,
}

impl Default for Upcoming {
    fn default() -> (r: Upcoming)
        ensures
            r is Ignore,
    {
        Upcoming::Ignore
    }
}

/// Info from a fenced code block
#[derive(Debug, Clone, Eq, PartialEq)]
pub enum CodeTok {
    Runner,
    Source,
    Text,
    Id(usize),
    Title(String),
}

/// Mathematical form of a [`CodeTok`]
pub enum SpecTok {
    Runner,
    Source,
    Text,
    Id(usize),
    Title(Seq<char>),
}

impl CodeTok {
    /// The token as a mathematical value.
    pub open spec fn spec(&self) -> SpecTok {
        match self {
            CodeTok::Runner => SpecTok::Runner,
            CodeTok::Source => SpecTok::Source,
            CodeTok::Text => SpecTok::Text,
            CodeTok::Id(i) => SpecTok::Id(*i),
            CodeTok::Title(t) => SpecTok::Title(t@),
        }
    }
}

/// Why an info string was refused
#[derive(Debug, Clone, Eq, PartialEq)]
pub enum FenceError {
    /// A second `rust`, `run` or `text` word
    Repeated,
    /// The first word is neither `rust`, `run` nor `text`
    Unguarded,
    /// A word that means nothing
    Unknown(String),
    /// `id:` followed by something other than a number
    BadId(String),
}

/// Mathematical form of a [`FenceError`]
pub enum SpecFenceError {
    Repeated,
    Unguarded,
    Unknown(Seq<char>),
    BadId(Seq<char>),
}

impl FenceError {
    /// The error as a mathematical value.
    pub open spec fn spec(&self) -> SpecFenceError {
        match self {
            FenceError::Repeated => SpecFenceError::Repeated,
            FenceError::Unguarded => SpecFenceError::Unguarded,
            FenceError::Unknown(s) => SpecFenceError::Unknown(s@),
            FenceError::BadId(s) => SpecFenceError::BadId(s@),
        }
    }

    /// Human readable description
    pub fn message(&self) -> (r: String)
        ensures
            r@ == error_text(self.spec()),
    {
        match self {
            FenceError::Repeated => String::from_str("Code block should have only one ```rust or ```run"),
            FenceError::Unguarded => String::from_str("Code block should be guarded with ```rust or ```run"),
            FenceError::Unknown(i) => {
                let mut v = str_chars("Not sure how to parse ");
                let d = debug_str(i.as_str());
                push_str_chars(&mut v, d.as_str());
                chars_string(&v)
            },
            FenceError::BadId(s) => {
                let digits = strip_plus(s.as_str());
                if s.as_str().is_empty() {
                    String::from_str("cannot parse integer from empty string")
                } else if all_digits_exec(&digits) && digits.len() > 0 {
                    String::from_str("number too large to fit in target type")
                } else {
                    String::from_str("invalid digit found in string")
                }
            },
        }
    }
}

/// Description of an error.
pub open spec fn error_text(e: SpecFenceError) -> Seq<char> {
    match e {
        SpecFenceError::Repeated => "Code block should have only one ```rust or ```run"@,
        SpecFenceError::Unguarded => "Code block should be guarded with ```rust or ```run"@,
        SpecFenceError::Unknown(i) => "Not sure how to parse "@ + debug_escaped(i),
        SpecFenceError::BadId(s) => if s.len() == 0 {
            "cannot parse integer from empty string"@
        } else if unsigned_digits(s).len() > 0 && all_digits(unsigned_digits(s)) {
            "number too large to fit in target type"@
        } else {
            "invalid digit found in string"@
        },
    }
}

/// All characters are ASCII digits.
pub open spec fn all_digits(s: Seq<char>) -> bool {
    forall|i: int| 0 <= i < s.len() ==> '0' <= #[trigger] s[i] <= '9'
}

/// Value of a string of decimal digits.
pub open spec fn digits_value(s: Seq<char>) -> nat
    decreases s.len(),
{
    if s.len() == 0 {
        0
    } else {
        digits_value(s.drop_last()) * 10 + ((s.last() as u32) - ('0' as u32)) as nat
    }
}

/// The digits of an unsigned number: a leading `+` is allowed.
pub open spec fn unsigned_digits(s: Seq<char>) -> Seq<char> {
    if s.len() > 0 && s[0] == '+' {
        s.drop_first()
    } else {
        s
    }
}

/// The `usize` that `str::parse` reads from a string: an optional `+`, then at least one
/// decimal digit, with a value that fits.
pub open spec fn parse_usize(s: Seq<char>) -> Option<usize> {
    let d = unsigned_digits(s);
    if d.len() > 0 && all_digits(d) && digits_value(d) <= usize::MAX {
        Some(digits_value(d) as usize)
    } else {
        None
    }
}

proof fn lemma_digits_value_prefix(s: Seq<char>, k: int)
    requires
        0 <= k <= s.len(),
        all_digits(s),
    ensures
        digits_value(s.take(k)) <= digits_value(s),
    decreases s.len() - k,
{
    if k < s.len() {
        lemma_digits_value_prefix(s, k + 1);
        assert(s.take(k + 1).drop_last() =~= s.take(k));
        assert(s.take(k + 1).last() == s[k]);
    } else {
        assert(s.take(k) =~= s);
    }
}

/// `s` without a leading `+`.
fn strip_plus(s: &str) -> (r: Vec<char>)
    ensures
        r@ == unsigned_digits(s@),
{
    let v = str_chars(s);
    if v.len() > 0 && v[0] == '+' {
        let mut r: Vec<char> = Vec::new();
        let mut i: usize = 1;
        while i < v.len()
            invariant
                1 <= i <= v@.len(),
                r@ == v@.subrange(1, i as int),
            decreases v.len() - i,
        {
            r.push(v[i]);
            i = i + 1;
            assert(r@ =~= v@.subrange(1, i as int));
        }
        assert(v@.drop_first() =~= v@.subrange(1, v@.len() as int));
        r
    } else {
        v
    }
}

/// Checks that all characters are ASCII digits.
fn all_digits_exec(s: &Vec<char>) -> (r: bool)
    ensures
        r == all_digits(s@),
{
    let mut i: usize = 0;
    while i < s.len()
        invariant
            i <= s@.len(),
            forall|j: int| 0 <= j < i ==> '0' <= #[trigger] s@[j] <= '9',
        decreases s.len() - i,
    {
        if !('0' <= s[i] && s[i] <= '9') {
            return false;
        }
        i = i + 1;
    }
    true
}

/// Reads an unsigned number, as `str::parse::<usize>` does.
pub fn parse_usize_exec(s: &str) -> (r: Option<usize>)
    ensures
        r == parse_usize(s@),
{
    let d = strip_plus(s);
    if d.len() == 0 || !all_digits_exec(&d) {
        return None;
    }
    let mut n: usize = 0;
    let mut i: usize = 0;
    while i < d.len()
        invariant
            i <= d@.len(),
            d@ == unsigned_digits(s@),
            d@.len() > 0,
            all_digits(d@),
            n == digits_value(d@.take(i as int)),
        decreases d.len() - i,
    {
        assert(d@.take(i + 1).drop_last() =~= d@.take(i as int));
        assert(d@.take(i + 1).last() == d@[i as int]);
        let digit = (d[i] as u32 - '0' as u32) as usize;
        match n.checked_mul(10) {
            Some(m) => match m.checked_add(digit) {
                Some(v) => {
                    n = v;
                },
                None => {
                    proof {
                        lemma_digits_value_prefix(d@, i + 1);
                    }
                    return None;
                },
            },
            None => {
                proof {
                    lemma_digits_value_prefix(d@, i + 1);
                }
                return None;
            },
        }
        i = i + 1;
    }
    assert(d@.take(d@.len() as int) =~= d@);
    Some(n)
}

/// The meaning of one word of an info string.
pub open spec fn tok_of(w: Seq<char>) -> Result<SpecTok, SpecFenceError> {
    if w == "rust"@ {
        Ok(SpecTok::Source)
    } else if w == "run"@ {
        Ok(SpecTok::Runner)
    } else if w == "text"@ {
        Ok(SpecTok::Text)
    } else if crate::text::starts_with(w, "fold:"@) {
        Ok(SpecTok::Title(w.skip(5)))
    } else if crate::text::starts_with(w, "id:"@) {
        match parse_usize(w.skip(3)) {
            Some(id) => Ok(SpecTok::Id(id)),
            None => Err(SpecFenceError::BadId(w.skip(3))),
        }
    } else {
        Err(SpecFenceError::Unknown(w))
    }
}

/// The pieces of `s` between commas, as `str::split(',')` gives them.
pub open spec fn split_commas(s: Seq<char>) -> Seq<Seq<char>>
    decreases s.len(),
{
    if s.len() == 0 {
        seq![Seq::empty()]
    } else {
        let rest = split_commas(s.drop_last());
        if s.last() == ',' {
            rest.push(Seq::empty())
        } else {
            rest.update(rest.len() - 1, rest.last().push(s.last()))
        }
    }
}

proof fn lemma_split_commas_nonempty(s: Seq<char>)
    ensures
        split_commas(s).len() > 0,
    decreases s.len(),
{
    if s.len() > 0 {
        lemma_split_commas_nonempty(s.drop_last());
    }
}

/// The words in order, or the error of the first word that fails.
pub open spec fn toks_of(words: Seq<Seq<char>>) -> Result<Seq<SpecTok>, SpecFenceError>
    decreases words.len(),
{
    if words.len() == 0 {
        Ok(Seq::empty())
    } else {
        match toks_of(words.drop_last()) {
            Err(e) => Err(e),
            Ok(ts) => match tok_of(words.last()) {
                Ok(t) => Ok(ts.push(t)),
                Err(e) => Err(e),
            },
        }
    }
}

/// What an info string says: nothing when empty, else the meaning of each word.
pub open spec fn fence_toks(fence: Seq<char>) -> Result<Seq<SpecTok>, SpecFenceError> {
    if fence.len() == 0 {
        Ok(Seq::empty())
    } else {
        toks_of(split_commas(fence))
    }
}

/// Result of [`CodeTok::from_fence`] as a mathematical value.
pub open spec fn toks_result(r: Result<Vec<CodeTok>, FenceError>) -> Result<Seq<SpecTok>, SpecFenceError> {
    match r {
        Ok(v) => Ok(v@.map_values(|t: CodeTok| t.spec())),
        Err(e) => Err(e.spec()),
    }
}

/// Once a word fails, so do all the longer lists of words.
proof fn lemma_toks_of_err(words: Seq<Seq<char>>, k: int)
    requires
        0 < k <= words.len(),
        toks_of(words.take(k)) is Err,
    ensures
        toks_of(words) == toks_of(words.take(k)),
    decreases words.len() - k,
{
    if k < words.len() {
        assert(words.take(k + 1).drop_last() =~= words.take(k));
        lemma_toks_of_err(words, k + 1);
    } else {
        assert(words.take(k) =~= words);
    }
}

/// Splits characters at commas.
fn split_commas_exec(s: &Vec<char>) -> (r: Vec<Vec<char>>)
    ensures
        r@.map_values(|w: Vec<char>| w@) == split_commas(s@),
{
    let mut r: Vec<Vec<char>> = Vec::new();
    r.push(Vec::new());
    let mut i: usize = 0;
    assert(s@.take(0) =~= Seq::<char>::empty());
    assert(r@.map_values(|w: Vec<char>| w@) =~= split_commas(s@.take(0)));
    while i < s.len()
        invariant
            i <= s@.len(),
            r@.len() > 0,
            r@.map_values(|w: Vec<char>| w@) == split_commas(s@.take(i as int)),
        decreases s.len() - i,
    {
        let ghost before = r@.map_values(|w: Vec<char>| w@);
        assert(s@.take(i + 1).drop_last() =~= s@.take(i as int));
        assert(s@.take(i + 1).last() == s@[i as int]);
        let c = s[i];
        if c == ',' {
            r.push(Vec::new());
            assert(r@.map_values(|w: Vec<char>| w@) =~= before.push(Seq::empty()));
        } else {
            let n = r.len();
            let mut last = r.pop().unwrap();
            let ghost prev = last@;
            last.push(c);
            r.push(last);
            assert(r@.map_values(|w: Vec<char>| w@) =~= before.update(n - 1, prev.push(c)));
        }
        i = i + 1;
    }
    assert(s@.take(s@.len() as int) =~= s@);
    r
}

impl CodeTok {
    /// The meaning of one word of an info string
    fn from_str(i: &Vec<char>) -> (r: Result<CodeTok, FenceError>)
        ensures
            match r {
                Ok(t) => tok_of(i@) == Ok::<SpecTok, SpecFenceError>(t.spec()),
                Err(e) => tok_of(i@) == Err::<SpecTok, SpecFenceError>(e.spec()),
            },
    {
        proof {
            reveal_strlit("rust");
            reveal_strlit("run");
            reveal_strlit("text");
            reveal_strlit("fold:");
            reveal_strlit("id:");
        }
        if crate::text::chars_eq(i, &str_chars("rust")) {
            Ok(CodeTok::Source)
        } else if crate::text::chars_eq(i, &str_chars("run")) {
            Ok(CodeTok::Runner)
        } else if crate::text::chars_eq(i, &str_chars("text")) {
            Ok(CodeTok::Text)
        } else if crate::text::chars_at(i, 0, "fold:") {
            let rest = crate::text::chars_skip(i, 5);
            Ok(CodeTok::Title(chars_string(&rest)))
        } else if crate::text::chars_at(i, 0, "id:") {
            let rest = crate::text::chars_skip(i, 3);
            let rest_s = chars_string(&rest);
            match parse_usize_exec(rest_s.as_str()) {
                Some(id) => Ok(CodeTok::Id(id)),
                None => Err(FenceError::BadId(rest_s)),
            }
        } else {
            Err(FenceError::Unknown(chars_string(i)))
        }
    }

    /// Meaning of all the words of an info string
    pub fn from_fence(fence: &str) -> (r: Result<Vec<CodeTok>, FenceError>)
        ensures
            toks_result(r) == fence_toks(fence@),
    {
        let chars = str_chars(fence);
        if chars.len() == 0 {
            let v: Vec<CodeTok> = Vec::new();
            assert(v@.map_values(|t: CodeTok| t.spec()) =~= Seq::<SpecTok>::empty());
            return Ok(v);
        }
        let words = split_commas_exec(&chars);
        let mut res: Vec<CodeTok> = Vec::new();
        let mut i: usize = 0;
        assert(res@.map_values(|t: CodeTok| t.spec()) =~= Seq::<SpecTok>::empty());
        assert(words@.map_values(|w: Vec<char>| w@).take(0) =~= Seq::<Seq<char>>::empty());
        while i < words.len()
            invariant
                i <= words@.len(),
                fence@.len() > 0,
                words@.map_values(|w: Vec<char>| w@) == split_commas(fence@),
                toks_of(words@.map_values(|w: Vec<char>| w@).take(i as int)) == Ok::<
                    Seq<SpecTok>,
                    SpecFenceError,
                >(res@.map_values(|t: CodeTok| t.spec())),
            decreases words.len() - i,
        {
            let ghost ws = words@.map_values(|w: Vec<char>| w@);
            assert(ws.take(i + 1).drop_last() =~= ws.take(i as int));
            assert(ws.take(i + 1).last() == words@[i as int]@);
            let ghost before = res@.map_values(|t: CodeTok| t.spec());
            match CodeTok::from_str(&words[i]) {
                Ok(t) => {
                    res.push(t);
                    assert(res@.map_values(|t: CodeTok| t.spec()) =~= before.push(t.spec()));
                },
                Err(e) => {
                    proof {
                        assert(toks_of(ws.take(i + 1)) == Err::<Seq<SpecTok>, SpecFenceError>(e.spec()));
                        lemma_toks_of_err(ws, i as int + 1);
                        assert(fence_toks(fence@) == toks_of(ws));
                    }
                    return Err(e);
                },
            }
            i = i + 1;
        }
        assert(words@.map_values(|w: Vec<char>| w@).take(i as int) =~= words@.map_values(
            |w: Vec<char>| w@,
        ));
        Ok(res)
    }
}

/// Words after the first are ids and titles only.
pub open spec fn rest_ok(rest: Seq<SpecTok>) -> bool {
    forall|i: int| 0 <= i < rest.len() ==> (#[trigger] rest[i] is Id || rest[i] is Title)
}

/// The ids among the words, in order.
pub open spec fn ids_in(rest: Seq<SpecTok>) -> Seq<usize>
    decreases rest.len(),
{
    if rest.len() == 0 {
        Seq::empty()
    } else {
        let p = ids_in(rest.drop_last());
        match rest.last() {
            SpecTok::Id(i) => p.push(i),
            _ => p,
        }
    }
}

/// The last id among the words.
pub open spec fn last_id(rest: Seq<SpecTok>) -> Option<usize>
    decreases rest.len(),
{
    if rest.len() == 0 {
        None
    } else {
        match rest.last() {
            SpecTok::Id(i) => Some(i),
            _ => last_id(rest.drop_last()),
        }
    }
}

/// The last title among the words.
pub open spec fn last_title(rest: Seq<SpecTok>) -> Option<Seq<char>>
    decreases rest.len(),
{
    if rest.len() == 0 {
        None
    } else {
        match rest.last() {
            SpecTok::Title(t) => Some(t),
            _ => last_title(rest.drop_last()),
        }
    }
}

/// Mathematical form of an optional string.
pub open spec fn opt_str(o: Option<String>) -> Option<Seq<char>> {
    match o {
        Some(s) => Some(s@),
        None => None,
    }
}

/// Mathematical form of an [`Upcoming`]
pub enum SpecUpcoming {
    Code { title: Option<Seq<char>>, id: Option<usize> },
    Exec { title: Option<Seq<char>>, ids: Seq<usize> },
    Ignore,
}

impl Upcoming {
    /// The fence as a mathematical value.
    pub open spec fn spec(&self) -> SpecUpcoming {
        match self {
            Upcoming::Code { title, id } => SpecUpcoming::Code { title: opt_str(*title), id: *id },
            Upcoming::Exec { title, ids } => SpecUpcoming::Exec { title: opt_str(*title), ids: ids@ },
            Upcoming::Ignore => SpecUpcoming::Ignore,
        }
    }
}

/// What a fence announces: words after the first give the title and the ids.
pub open spec fn upcoming_of(toks: Seq<SpecTok>) -> Result<SpecUpcoming, SpecFenceError> {
    if toks.len() == 0 {
        Ok(SpecUpcoming::Ignore)
    } else {
        let rest = toks.drop_first();
        match toks[0] {
            SpecTok::Text => Ok(SpecUpcoming::Ignore),
            SpecTok::Runner => if rest_ok(rest) {
                Ok(SpecUpcoming::Exec { title: last_title(rest), ids: ids_in(rest) })
            } else {
                Err(SpecFenceError::Repeated)
            },
            SpecTok::Source => if rest_ok(rest) {
                Ok(SpecUpcoming::Code { title: last_title(rest), id: last_id(rest) })
            } else {
                Err(SpecFenceError::Repeated)
            },
            _ => Err(SpecFenceError::Unguarded),
        }
    }
}

/// What a fence with info string `fence` announces.
pub open spec fn fence_of(fence: Seq<char>) -> Result<SpecUpcoming, SpecFenceError> {
    match fence_toks(fence) {
        Err(e) => Err(e),
        Ok(toks) => upcoming_of(toks),
    }
}

/// Title, ids and last id of the words after the first, or nothing when one of them is
/// not an id or a title.
fn scan_rest(toks: &Vec<CodeTok>) -> (r: Option<(Option<String>, Vec<usize>, Option<usize>)>)
    requires
        toks@.len() > 0,
    ensures
        ({
            let rest = toks@.map_values(|t: CodeTok| t.spec()).drop_first();
            match r {
                None => !rest_ok(rest),
                Some((title, ids, id)) => {
                    &&& rest_ok(rest)
                    &&& opt_str(title) == last_title(rest)
                    &&& ids@ == ids_in(rest)
                    &&& id == last_id(rest)
                },
            }
        }),
{
    let ghost all = toks@.map_values(|t: CodeTok| t.spec());
    let ghost rest = all.drop_first();
    let mut title: Option<String> = None;
    let mut ids: Vec<usize> = Vec::new();
    let mut id: Option<usize> = None;
    let mut i: usize = 1;
    assert(rest.take(0) =~= Seq::<SpecTok>::empty());
    while i < toks.len()
        invariant
            1 <= i <= toks@.len(),
            all == toks@.map_values(|t: CodeTok| t.spec()),
            rest == all.drop_first(),
            rest_ok(rest.take(i - 1)),
            opt_str(title) == last_title(rest.take(i - 1)),
            ids@ == ids_in(rest.take(i - 1)),
            id == last_id(rest.take(i - 1)),
        decreases toks.len() - i,
    {
        let ghost pre = rest.take(i - 1);
        let ghost now = rest.take(i as int);
        assert(now.drop_last() =~= pre);
        assert(now.last() == toks@[i as int].spec());
        match &toks[i] {
            CodeTok::Runner | CodeTok::Source | CodeTok::Text => {
                assert(!(now[i - 1] is Id || now[i - 1] is Title));
                assert(rest[i - 1] == now[i - 1]);
                return None;
            },
            CodeTok::Id(x) => {
                ids.push(*x);
                id = Some(*x);
            },
            CodeTok::Title(t) => {
                title = Some(t.clone());
            },
        }
        assert forall|j: int| 0 <= j < now.len() implies (#[trigger] now[j] is Id || now[j] is Title) by {
            if j < now.len() - 1 {
                assert(now[j] == pre[j]);
            }
        }
        i = i + 1;
    }
    assert(rest.take(i - 1) =~= rest);
    Some((title, ids, id))
}

impl Upcoming {
    /// What the code block after a fence with info string `fence` holds
    pub fn parse_fence(fence: &str) -> (r: Result<Self, FenceError>)
        ensures
            match r {
                Ok(u) => fence_of(fence@) == Ok::<SpecUpcoming, SpecFenceError>(u.spec()),
                Err(e) => fence_of(fence@) == Err::<SpecUpcoming, SpecFenceError>(e.spec()),
            },
    {
        let toks = match CodeTok::from_fence(fence) {
            Ok(t) => t,
            Err(e) => {
                return Err(e);
            },
        };
        let ghost all = toks@.map_values(|t: CodeTok| t.spec());
        if toks.len() == 0 {
            return Ok(Self::Ignore);
        }
        assert(all[0] == toks@[0].spec());
        match &toks[0] {
            CodeTok::Text => Ok(Self::Ignore),
            CodeTok::Runner => match scan_rest(&toks) {
                Some((title, ids, _)) => Ok(Self::Exec { title, ids }),
                None => Err(FenceError::Repeated),
            },
            CodeTok::Source => match scan_rest(&toks) {
                Some((title, _, id)) => Ok(Self::Code { title, id }),
                None => Err(FenceError::Repeated),
            },
            _ => Err(FenceError::Unguarded),
        }
    }
}

/// The pieces of `s` between newlines.
pub open spec fn split_nl(s: Seq<char>) -> Seq<Seq<char>>
    decreases s.len(),
{
    if s.len() == 0 {
        seq![Seq::empty()]
    } else {
        let rest = split_nl(s.drop_last());
        if s.last() == '\n' {
            rest.push(Seq::empty())
        } else {
            rest.update(rest.len() - 1, rest.last().push(s.last()))
        }
    }
}

/// A line without the carriage return of a `\r\n` ending.
pub open spec fn strip_cr(l: Seq<char>) -> Seq<char> {
    if l.len() > 0 && l.last() == '\r' {
        l.drop_last()
    } else {
        l
    }
}

/// The lines of `s`, as `str::lines` gives them: split at `\n` or `\r\n`, with no empty
/// line after a final line ending.
pub open spec fn lines(s: Seq<char>) -> Seq<Seq<char>> {
    let parts = split_nl(s);
    let ended = parts.drop_last().map_values(|l: Seq<char>| strip_cr(l));
    if parts.last().len() == 0 {
        ended
    } else {
        ended.push(parts.last())
    }
}

/// A source line with the `# ` that hides it from the rendered page removed.
pub open spec fn unhide(l: Seq<char>) -> Seq<char> {
    if crate::text::starts_with(l, "# "@) {
        l.skip(2)
    } else {
        l
    }
}

/// Each line unhidden and followed by a newline.
pub open spec fn unhidden_text(ls: Seq<Seq<char>>) -> Seq<char>
    decreases ls.len(),
{
    if ls.len() == 0 {
        Seq::empty()
    } else {
        unhidden_text(ls.drop_last()) + unhide(ls.last()) + "\n"@
    }
}

/// Mathematical form of a [`Block`]
pub enum SpecBlock {
    Code(Option<usize>, Seq<char>, Option<Seq<char>>),
    Exec(Option<Seq<char>>, Seq<usize>, Seq<char>),
    Ignore,
}

impl Block {
    /// The block as a mathematical value.
    pub open spec fn spec(&self) -> SpecBlock {
        match self {
            Block::Code(id, code) => SpecBlock::Code(*id, code.text@, opt_str(code.title)),
            Block::Exec(exec) => SpecBlock::Exec(opt_str(exec.title), exec.ids@, exec.line@),
            Block::Ignore => SpecBlock::Ignore,
        }
    }
}

/// The code block with info string `info` and contents `literal`: runs keep their command
/// line without the final newline, sources have their hidden lines shown.
pub open spec fn block_of(info: Seq<char>, literal: Seq<char>) -> Result<SpecBlock, SpecFenceError> {
    match fence_of(info) {
        Err(e) => Err(e),
        Ok(SpecUpcoming::Ignore) => Ok(SpecBlock::Ignore),
        Ok(SpecUpcoming::Exec { title, ids }) => Ok(SpecBlock::Exec(title, ids, literal.drop_last())),
        Ok(SpecUpcoming::Code { title, id }) => Ok(SpecBlock::Code(id, unhidden_text(lines(literal)), title)),
    }
}

/// The block is a command line to run.
pub open spec fn is_run(info: Seq<char>) -> bool {
    fence_of(info) matches Ok(SpecUpcoming::Exec { .. })
}

/// Splits characters at newlines.
fn split_nl_exec(s: &Vec<char>) -> (r: Vec<Vec<char>>)
    ensures
        r@.map_values(|w: Vec<char>| w@) == split_nl(s@),
{
    let mut r: Vec<Vec<char>> = Vec::new();
    r.push(Vec::new());
    let mut i: usize = 0;
    assert(s@.take(0) =~= Seq::<char>::empty());
    assert(r@.map_values(|w: Vec<char>| w@) =~= split_nl(s@.take(0)));
    while i < s.len()
        invariant
            i <= s@.len(),
            r@.len() > 0,
            r@.map_values(|w: Vec<char>| w@) == split_nl(s@.take(i as int)),
        decreases s.len() - i,
    {
        let ghost before = r@.map_values(|w: Vec<char>| w@);
        assert(s@.take(i + 1).drop_last() =~= s@.take(i as int));
        assert(s@.take(i + 1).last() == s@[i as int]);
        let c = s[i];
        if c == '\n' {
            r.push(Vec::new());
            assert(r@.map_values(|w: Vec<char>| w@) =~= before.push(Seq::empty()));
        } else {
            let n = r.len();
            let mut last = r.pop().unwrap();
            let ghost prev = last@;
            last.push(c);
            r.push(last);
            assert(r@.map_values(|w: Vec<char>| w@) =~= before.update(n - 1, prev.push(c)));
        }
        i = i + 1;
    }
    assert(s@.take(s@.len() as int) =~= s@);
    r
}

proof fn lemma_split_nl_nonempty(s: Seq<char>)
    ensures
        split_nl(s).len() > 0,
    decreases s.len(),
{
    if s.len() > 0 {
        lemma_split_nl_nonempty(s.drop_last());
    }
}

/// The lines of a text, as `str::lines` gives them
pub fn lines_exec(s: &str) -> (r: Vec<Vec<char>>)
    ensures
        r@.map_values(|w: Vec<char>| w@) == lines(s@),
{
    let chars = str_chars(s);
    let parts = split_nl_exec(&chars);
    let ghost ps = parts@.map_values(|w: Vec<char>| w@);
    proof {
        lemma_split_nl_nonempty(s@);
    }
    let n = parts.len();
    let last_empty = parts[n - 1].len() == 0;
    let count = if last_empty { n - 1 } else { n };
    let ghost ls = lines(s@);
    assert(ls.len() == count);
    let mut out: Vec<Vec<char>> = Vec::new();
    let mut i: usize = 0;
    while i < count
        invariant
            i <= count <= n,
            n == parts@.len(),
            ps == parts@.map_values(|w: Vec<char>| w@),
            ls == lines(s@),
            ps == split_nl(s@),
            count == ls.len(),
            n > 0,
            last_empty == (ps.last().len() == 0),
            count == (if last_empty { n - 1 } else { n as int }),
            out@.map_values(|w: Vec<char>| w@) == ls.take(i as int),
        decreases count - i,
    {
        let mut line = parts[i].clone();
        assert(line@ =~= ps[i as int]);
        if i + 1 < n && line.len() > 0 && line[line.len() - 1] == '\r' {
            line.pop();
        }
        assert(line@ =~= ls[i as int]);
        let ghost before = out@.map_values(|w: Vec<char>| w@);
        out.push(line);
        assert(out@.map_values(|w: Vec<char>| w@) =~= before.push(ls[i as int]));
        assert(ls.take(i + 1) =~= ls.take(i as int).push(ls[i as int]));
        i = i + 1;
    }
    assert(ls.take(count as int) =~= ls);
    out
}

/// The lines of a text, hidden lines shown, each followed by a newline.
fn source_text(literal: &str) -> (r: String)
    ensures
        r@ == unhidden_text(lines(literal@)),
{
    let chars = str_chars(literal);
    let parts = split_nl_exec(&chars);
    let ghost ps = parts@.map_values(|w: Vec<char>| w@);
    proof {
        lemma_split_nl_nonempty(literal@);
    }
    let n = parts.len();
    let last_empty = parts[n - 1].len() == 0;
    let count = if last_empty { n - 1 } else { n };
    let ghost ls = lines(literal@);
    assert(ls.len() == count);
    let mut out: Vec<char> = Vec::new();
    let mut i: usize = 0;
    assert(ls.take(0) =~= Seq::<Seq<char>>::empty());
    while i < count
        invariant
            i <= count <= n,
            n == parts@.len(),
            ps == parts@.map_values(|w: Vec<char>| w@),
            ls == lines(literal@),
            ps == split_nl(literal@),
            count == ls.len(),
            n > 0,
            last_empty == (ps.last().len() == 0),
            count == (if last_empty { n - 1 } else { n as int }),
            out@ == unhidden_text(ls.take(i as int)),
        decreases count - i,
    {
        let mut line = parts[i].clone();
        assert(line@ =~= ps[i as int]);
        if i + 1 < n && line.len() > 0 && line[line.len() - 1] == '\r' {
            line.pop();
        }
        assert(line@ =~= ls[i as int]);
        proof {
            reveal_strlit("# ");
        }
        let hidden = crate::text::chars_at(&line, 0, "# ");
        let shown = if hidden {
            crate::text::chars_skip(&line, 2)
        } else {
            line
        };
        assert(shown@ == unhide(ls[i as int]));
        push_chars(&mut out, &shown);
        out.push('\n');
        assert(ls.take(i + 1).drop_last() =~= ls.take(i as int));
        assert(out@ =~= unhidden_text(ls.take(i as int)) + unhide(ls[i as int]) + "\n"@) by {
            reveal_strlit("\n");
        }
        i = i + 1;
    }
    assert(ls.take(count as int) =~= ls);
    chars_string(&out)
}

/// Error of a block, with the line the block starts at
#[derive(Debug, Clone, Eq, PartialEq)]
pub struct BlockError {
    pub line: usize,
    pub error: FenceError,
}

impl Block {
    /// The code block with info string `info` and contents `literal`
    pub fn parse_inner(info: &str, literal: &str) -> (r: Result<Self, FenceError>)
        requires
            is_run(info@) ==> literal@.len() > 0 && literal@.last() == '\n',
        ensures
            match r {
                Ok(b) => block_of(info@, literal@) == Ok::<SpecBlock, SpecFenceError>(b.spec()),
                Err(e) => block_of(info@, literal@) == Err::<SpecBlock, SpecFenceError>(e.spec()),
            },
    {
        match Upcoming::parse_fence(info) {
            Err(e) => Err(e),
            Ok(Upcoming::Ignore) => Ok(Self::Ignore),
            Ok(Upcoming::Exec { title, ids }) => {
                let mut chars = str_chars(literal);
                chars.pop();
                let line = chars_string(&chars);
                Ok(Self::Exec(Exec { title, ids, line }))
            },
            Ok(Upcoming::Code { title, id }) => {
                let text = source_text(literal);
                Ok(Self::Code(id, Code { title, text }))
            },
        }
    }

    /// The code block starting at line `line` with info string `info` and contents `literal`;
    /// errors carry the line
    pub fn parse(line: usize, info: &str, literal: &str) -> (r: Result<Self, BlockError>)
        requires
            is_run(info@) ==> literal@.len() > 0 && literal@.last() == '\n',
        ensures
            match r {
                Ok(b) => block_of(info@, literal@) == Ok::<SpecBlock, SpecFenceError>(b.spec()),
                Err(e) => e.line == line && block_of(info@, literal@) == Err::<SpecBlock, SpecFenceError>(
                    e.error.spec(),
                ),
            },
    {
        match Self::parse_inner(info, literal) {
            Ok(b) => Ok(b),
            Err(error) => Err(BlockError { line, error }),
        }
    }
}

} // verus!
