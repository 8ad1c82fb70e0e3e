//! Shell snippets in markdown files: a ```` ```console ```` block holds a prompt such as
//! `bash$ app --he<TAB>` and the output expected from it. Snippets are parsed from the file,
//! checked against what the shell shows, and written back when they changed.

pub mod config;
pub mod env;

use crate::console::{is_whitespace, trim_end};
use crate::text::{chars_string, lossy_utf8, occurs_at, push_chars, push_str_chars, str_chars, utf8_lossy};
use config::Shell;
use crate::args::strings_view;
use std::collections::BTreeSet;
use std::path::PathBuf;
use vstd::prelude::*;

verus! {

/// A markdown file to check, with the indices of the snippets to check, all when absent
#[derive(Debug, Clone)]
pub struct FileOp {
    pub file: PathBuf,
    pub indices: Option<Vec<usize>>,
}

/// Operation to perform
#[derive(Debug, Clone, Copy)]
pub enum Op {
    /// Success `timeout` after the last update as long as output matches expectations
    ///
    /// This check might catch some unexpected output that takes some time to show up
    Timeout {
        /// Timeout in ms
        timeout: std::time::Duration,
    },
}

/// Where a snippet stands
#[derive(Debug, Clone)]
pub enum Stage {
    Pending,
    Matches,
    Mismatch { actual: String },
}

/// A prompt and the output expected from it
#[derive(Debug, Clone)]
pub struct Snippet {
    /// Shell to use in this snippet
    pub shell: Shell,
    /// What user typed
    ///
    /// Prompts with `<TAB>` present are completion tests, without it are output tests
    pub prompt: String,
    /// Expected to output
    pub expected: String,
    pub stage: Stage,
    /// Last paragraph of the preceding text block is a comment
    pub comment: Option<String>,
}

/// Text without its leading whitespace.
pub open spec fn trim_start(s: Seq<char>) -> Seq<char>
    decreases s.len(),
{
    if s.len() > 0 && is_whitespace(s[0]) {
        trim_start(s.drop_first())
    } else {
        s
    }
}

/// Number of leading whitespace characters.
pub open spec fn leading_ws(s: Seq<char>) -> nat
    decreases s.len(),
{
    if s.len() > 0 && is_whitespace(s[0]) {
        1 + leading_ws(s.drop_first())
    } else {
        0
    }
}

/// Number of leading characters that are not whitespace.
pub open spec fn leading_word(s: Seq<char>) -> nat
    decreases s.len(),
{
    if s.len() > 0 && !is_whitespace(s[0]) {
        1 + leading_word(s.drop_first())
    } else {
        0
    }
}

/// First word of a text: what `split_whitespace().next()` gives, or the whole text when it
/// has no word.
pub open spec fn first_word(s: Seq<char>) -> Seq<char> {
    let t = trim_start(s);
    if t.len() == 0 {
        s
    } else {
        t.take(leading_word(t) as int)
    }
}

/// `pat` occurs somewhere in `s`.
pub open spec fn contains(s: Seq<char>, pat: Seq<char>) -> bool {
    exists|i: int| #[trigger] occurs_at(s, i, pat)
}

proof fn lemma_trim_start_skip(s: Seq<char>)
    ensures
        leading_ws(s) <= s.len(),
        trim_start(s) == s.skip(leading_ws(s) as int),
    decreases s.len(),
{
    if s.len() > 0 && is_whitespace(s[0]) {
        lemma_trim_start_skip(s.drop_first());
        assert(s.drop_first().skip(leading_ws(s.drop_first()) as int) =~= s.skip(leading_ws(s) as int));
    } else {
        assert(s.skip(0) =~= s);
    }
}

proof fn lemma_leading_ws_at(s: Seq<char>, k: int)
    requires
        0 <= k <= s.len(),
        forall|j: int| 0 <= j < k ==> is_whitespace(#[trigger] s[j]),
        k == s.len() || !is_whitespace(s[k]),
    ensures
        leading_ws(s) == k,
    decreases k,
{
    if k > 0 {
        assert forall|j: int| 0 <= j < k - 1 implies is_whitespace(#[trigger] s.drop_first()[j]) by {
            assert(s.drop_first()[j] == s[j + 1]);
        }
        lemma_leading_ws_at(s.drop_first(), k - 1);
    }
}

proof fn lemma_leading_word_at(s: Seq<char>, k: int)
    requires
        0 <= k <= s.len(),
        forall|j: int| 0 <= j < k ==> !is_whitespace(#[trigger] s[j]),
        k == s.len() || is_whitespace(s[k]),
    ensures
        leading_word(s) == k,
    decreases k,
{
    if k > 0 {
        assert forall|j: int| 0 <= j < k - 1 implies !is_whitespace(#[trigger] s.drop_first()[j]) by {
            assert(s.drop_first()[j] == s[j + 1]);
        }
        lemma_leading_word_at(s.drop_first(), k - 1);
    }
}

/// Position of the first character that is not whitespace, from `from` on.
fn skip_ws(s: &Vec<char>, from: usize) -> (k: usize)
    requires
        from <= s@.len(),
        forall|j: int| 0 <= j < from ==> is_whitespace(#[trigger] s@[j]),
    ensures
        from <= k <= s@.len(),
        k == leading_ws(s@),
{
    let mut k = from;
    while k < s.len() && crate::console::is_whitespace_exec(s[k])
        invariant
            from <= k <= s@.len(),
            forall|j: int| 0 <= j < k ==> is_whitespace(#[trigger] s@[j]),
        decreases s.len() - k,
    {
        k = k + 1;
    }
    proof {
        lemma_leading_ws_at(s@, k as int);
    }
    k
}

/// Text without its leading whitespace
pub fn trim_start_exec(s: &Vec<char>) -> (r: Vec<char>)
    ensures
        r@ == trim_start(s@),
{
    let k = skip_ws(s, 0);
    proof {
        lemma_trim_start_skip(s@);
    }
    crate::text::chars_skip(s, k)
}

/// Checks whether `pat` occurs in `s`.
pub fn contains_exec(s: &Vec<char>, pat: &str) -> (r: bool)
    ensures
        r == contains(s@, pat@),
{
    let n = s.len();
    let mut i: usize = 0;
    loop
        invariant
            i <= n,
            n == s@.len(),
            forall|j: int| 0 <= j < i ==> !#[trigger] occurs_at(s@, j, pat@),
        decreases n - i,
    {
        if crate::text::chars_at(s, i, pat) {
            return true;
        }
        if i == n {
            assert forall|j: int| !#[trigger] occurs_at(s@, j, pat@) by {
                if j > n {
                    assert(!(j + pat@.len() <= s@.len()));
                }
            }
            return false;
        }
        i = i + 1;
    }
}

impl Snippet {
    /// A bash snippet with no prompt, no output and no comment, not checked yet
    pub fn new() -> (r: Self)
        ensures
            r.shell == Shell::Bash,
            r.prompt@ == Seq::<char>::empty(),
            r.expected@ == Seq::<char>::empty(),
            r.stage is Pending,
            r.comment is None,
    {
        Self {
            shell: Shell::Bash,
            prompt: String::new(),
            expected: String::new(),
            stage: Stage::Pending,
            comment: None,
        }
    }

    /// Get the executable name from the command line
    ///
    /// Executables with spaces, quoted, escaped or anything similar are not real
    pub fn bin(&self) -> (r: String)
        ensures
            r@ == first_word(self.prompt@),
    {
        let p = str_chars(self.prompt.as_str());
        let start = skip_ws(&p, 0);
        proof {
            lemma_trim_start_skip(p@);
        }
        if start == p.len() {
            assert(trim_start(p@).len() == 0);
            return self.prompt.clone();
        }
        let mut end = start;
        while end < p.len() && !crate::console::is_whitespace_exec(p[end])
            invariant
                start <= end <= p@.len(),
                forall|j: int| start <= j < end ==> !is_whitespace(#[trigger] p@[j]),
            decreases p.len() - end,
        {
            end = end + 1;
        }
        let ghost t = trim_start(p@);
        assert(t =~= p@.skip(start as int));
        proof {
            assert forall|j: int| 0 <= j < end - start implies !is_whitespace(#[trigger] t[j]) by {
                assert(t[j] == p@[start + j]);
            }
            if end < p.len() {
                assert(t[end - start] == p@[end as int]);
            }
            lemma_leading_word_at(t, end - start);
        }
        let mut w: Vec<char> = Vec::new();
        crate::text::push_range(&mut w, &p, start, end);
        assert(w@ =~= t.take(leading_word(t) as int));
        chars_string(&w)
    }

    /// Get the shell for this snippet.
    pub fn shell(&self) -> (r: Shell)
        ensures
            r == self.shell,
    {
        self.shell
    }

    /// The output differs from what is expected
    pub fn is_mismatch(&self) -> (r: bool)
        ensures
            r == self.stage is Mismatch,
    {
        matches!(self.stage, Stage::Mismatch { .. })
    }

    /// What user typed
    pub fn prompt(&self) -> (r: &str)
        ensures
            r@ == self.prompt@,
    {
        self.prompt.as_str()
    }

    /// The prompt runs a command rather than asking for completions
    pub fn is_execution(&self) -> (r: bool)
        ensures
            r == !contains(self.prompt@, "<TAB>"@),
    {
        !contains_exec(&str_chars(self.prompt.as_str()), "<TAB>")
    }

    /// The output the shell gave when it differs from the expected one, the expected one
    /// otherwise
    pub fn output(&self) -> (r: &str)
        ensures
            r@ == (match self.stage {
                Stage::Mismatch { actual } => actual@,
                _ => self.expected@,
            }),
    {
        if let Stage::Mismatch { actual } = &self.stage {
            actual.as_str()
        } else {
            self.expected.as_str()
        }
    }
}

/// A character that ends the shell name of a prompt.
pub open spec fn is_prompt_char(c: char) -> bool {
    c == '$' || c == '>' || c == '%'
}

/// Position of the first prompt character, the length of the line when there is none.
pub open spec fn prompt_pos(s: Seq<char>) -> nat
    decreases s.len(),
{
    if s.len() == 0 {
        0
    } else if is_prompt_char(s[0]) {
        0
    } else {
        1 + prompt_pos(s.drop_first())
    }
}

/// Why a prompt line was refused
#[derive(Debug, Clone, PartialEq, Eq)]
pub enum ShellError {
    /// The line has no `$`, `>` or `%`
    NoPrompt(String),
    /// The shell is not bash, fish or zsh
    Unsupported,
}

/// The shell a name stands for.
pub open spec fn shell_named(name: Seq<char>) -> Option<Shell> {
    if name == "bash"@ {
        Some(Shell::Bash)
    } else if name == "fish"@ {
        Some(Shell::Fish)
    } else if name == "zsh"@ {
        Some(Shell::Zsh)
    } else {
        None
    }
}

/// What a prompt line such as `bash$ app --help` says: the shell, and what follows the
/// prompt character without leading whitespace.
pub open spec fn prompt_of(line: Seq<char>) -> Result<(Shell, Seq<char>), Option<Seq<char>>> {
    let k = prompt_pos(line) as int;
    if k >= line.len() {
        Err(Some(line))
    } else {
        match shell_named(line.take(k)) {
            Some(sh) => Ok((sh, trim_start(line.skip(k + 1)))),
            None => Err(None),
        }
    }
}

proof fn lemma_prompt_pos_at(s: Seq<char>, k: int)
    requires
        0 <= k <= s.len(),
        forall|j: int| 0 <= j < k ==> !is_prompt_char(#[trigger] s[j]),
        k == s.len() || is_prompt_char(s[k]),
    ensures
        prompt_pos(s) == k,
    decreases k,
{
    if k > 0 {
        assert forall|j: int| 0 <= j < k - 1 implies !is_prompt_char(#[trigger] s.drop_first()[j]) by {
            assert(s.drop_first()[j] == s[j + 1]);
        }
        lemma_prompt_pos_at(s.drop_first(), k - 1);
    }
}

impl Shell {
    /// Splits a prompt line into the shell and the command typed after the prompt
    pub fn parse(line: &str) -> (r: Result<(Shell, String), ShellError>)
        ensures
            match r {
                Ok((sh, rest)) => prompt_of(line@) == Ok::<(Shell, Seq<char>), Option<Seq<char>>>(
                    (sh, rest@),
                ),
                Err(ShellError::NoPrompt(l)) => prompt_of(line@) == Err::<
                    (Shell, Seq<char>),
                    Option<Seq<char>>,
                >(Some(l@)),
                Err(ShellError::Unsupported) => prompt_of(line@) == Err::<
                    (Shell, Seq<char>),
                    Option<Seq<char>>,
                >(None),
            },
    {
        let chars = str_chars(line);
        let mut k: usize = 0;
        while k < chars.len() && !(chars[k] == '$' || chars[k] == '>' || chars[k] == '%')
            invariant
                k <= chars@.len(),
                forall|j: int| 0 <= j < k ==> !is_prompt_char(#[trigger] chars@[j]),
            decreases chars.len() - k,
        {
            k = k + 1;
        }
        proof {
            lemma_prompt_pos_at(chars@, k as int);
        }
        if k == chars.len() {
            return Err(ShellError::NoPrompt(line.to_owned()));
        }
        let mut name: Vec<char> = Vec::new();
        crate::text::push_range(&mut name, &chars, 0, k);
        assert(name@ =~= chars@.take(k as int));
        proof {
            reveal_strlit("bash");
            reveal_strlit("fish");
            reveal_strlit("zsh");
        }
        let shell = if crate::text::chars_eq(&name, &str_chars("bash")) {
            Shell::Bash
        } else if crate::text::chars_eq(&name, &str_chars("fish")) {
            Shell::Fish
        } else if crate::text::chars_eq(&name, &str_chars("zsh")) {
            Shell::Zsh
        } else {
            return Err(ShellError::Unsupported);
        };
        let rest = crate::text::chars_skip(&chars, k + 1);
        let trimmed = trim_start_exec(&rest);
        Ok((shell, chars_string(&trimmed)))
    }

    /// What the shell shows as its prompt
    pub fn started(self) -> (r: &'static str)
        ensures
            r@ == (match self {
                Shell::Bash => "bash$ "@,
                Shell::Zsh => "zsh% "@,
                Shell::Fish => "fish> "@,
            }),
    {
        match self {
            Shell::Bash => "bash$ ",
            Shell::Zsh => "zsh% ",
            Shell::Fish => "fish> ",
        }
    }

    /// Completion protocol revision bpaf uses for the shell
    pub fn complete_rev(self) -> (r: usize)
        ensures
            r == (match self {
                Shell::Bash => 10usize,
                Shell::Zsh => 7usize,
                Shell::Fish => 9usize,
            }),
    {
        match self {
            Shell::Bash => 10,
            Shell::Zsh => 7,
            Shell::Fish => 9,
        }
    }

    /// How prompts of the shell are written in a snippet
    pub fn display(self) -> (r: &'static str)
        ensures
            r@ == shell_mark(self),
    {
        match self {
            Shell::Bash => "bash$",
            Shell::Zsh => "zsh%",
            Shell::Fish => "fish>",
        }
    }
}

/// How prompts of a shell are written in a snippet.
pub open spec fn shell_mark(sh: Shell) -> Seq<char> {
    match sh {
        Shell::Bash => "bash$"@,
        Shell::Zsh => "zsh%"@,
        Shell::Fish => "fish>"@,
    }
}

/// A prompt line written for a shell reads back as that shell, followed by what was
/// written after the prompt without its leading whitespace.
pub proof fn law_prompt_roundtrip(sh: Shell, rest: Seq<char>)
    ensures
        prompt_of(shell_mark(sh) + rest) == Ok::<(Shell, Seq<char>), Option<Seq<char>>>(
            (sh, trim_start(rest)),
        ),
{
    reveal_strlit("bash$");
    reveal_strlit("zsh%");
    reveal_strlit("fish>");
    reveal_strlit("bash");
    reveal_strlit("zsh");
    reveal_strlit("fish");
    let mark = shell_mark(sh);
    let line = mark + rest;
    let k = mark.len() - 1;
    assert forall|j: int| 0 <= j < k implies !is_prompt_char(#[trigger] line[j]) by {
        assert(line[j] == mark[j]);
    }
    assert(line[k] == mark[k]);
    lemma_prompt_pos_at(line, k);
    assert(line.take(k) =~= mark.take(k));
    assert(line.skip(k + 1) =~= rest);
    match sh {
        Shell::Bash => assert(mark.take(k) =~= "bash"@),
        Shell::Zsh => {
            assert(mark.take(k) =~= "zsh"@);
            assert("zsh"@ != "bash"@);
        },
        Shell::Fish => {
            assert(mark.take(k) =~= "fish"@);
            assert("fish"@[0] != "bash"@[0]);
        },
    }
}

/// A piece of a markdown file: plain text, or a console snippet
#[derive(Debug, Clone)]
pub enum Chunk {
    Text(String),
    Chunk(Snippet),
}

impl Default for Chunk {
    fn default() -> (r: Chunk)
        ensures
            r matches Chunk::Text(t) && t@ == Seq::<char>::empty(),
    {
        Self::Text(String::new())
    }
}

/// Mathematical form of a [`Stage`]
pub enum SpecStage {
    Pending,
    Matches,
    Mismatch(Seq<char>),
}

/// Mathematical form of a [`Snippet`]
pub struct SpecSnippet {
    pub shell: Shell,
    pub prompt: Seq<char>,
    pub expected: Seq<char>,
    pub stage: SpecStage,
    pub comment: Option<Seq<char>>,
}

/// Mathematical form of a [`Chunk`]
pub enum SpecChunk {
    Text(Seq<char>),
    Snip(SpecSnippet),
}

impl Stage {
    /// The stage as a mathematical value.
    pub open spec fn spec(&self) -> SpecStage {
        match self {
            Stage::Pending => SpecStage::Pending,
            Stage::Matches => SpecStage::Matches,
            Stage::Mismatch { actual } => SpecStage::Mismatch(actual@),
        }
    }
}

impl Snippet {
    /// The snippet as a mathematical value.
    pub open spec fn spec(&self) -> SpecSnippet {
        SpecSnippet {
            shell: self.shell,
            prompt: self.prompt@,
            expected: self.expected@,
            stage: self.stage.spec(),
            comment: crate::md_eval::types::opt_str(self.comment),
        }
    }
}

impl Chunk {
    /// The chunk as a mathematical value.
    pub open spec fn spec(&self) -> SpecChunk {
        match self {
            Chunk::Text(t) => SpecChunk::Text(t@),
            Chunk::Chunk(s) => SpecChunk::Snip(s.spec()),
        }
    }

    /// The snippet this chunk holds, if it is one
    pub fn as_snippet(&self) -> (r: Option<&Snippet>)
        ensures
            match self {
                Chunk::Text(_) => r is None,
                Chunk::Chunk(s) => r == Some(s),
            },
    {
        match self {
            Chunk::Text(_) => None,
            Chunk::Chunk(snippet) => Some(snippet),
        }
    }
}

/// Chunks as mathematical values.
pub open spec fn chunks_spec(v: Seq<Chunk>) -> Seq<SpecChunk> {
    v.map_values(|c: Chunk| c.spec())
}

/// What is expected of a snippet in the file
#[derive(Clone, Copy, PartialEq, Eq, Structural)]
pub enum SnipStage {
    /// Got the console fence, expecting the prompt
    Shell,
    /// Got the prompt, what follows next is the expected output, if present
    Expected,
}

/// Why a markdown file could not be read
#[derive(Debug, Clone, PartialEq, Eq)]
pub enum MdError {
    /// A console fence was closed right away on the given line (counted from 0)
    MissingShell(usize),
    /// A prompt line is not understood
    Prompt(ShellError),
}

/// Mathematical form of an [`MdError`]
pub enum SpecMdError {
    MissingShell(nat),
    NoPrompt(Seq<char>),
    Unsupported,
}

impl MdError {
    /// The error as a mathematical value.
    pub open spec fn spec(&self) -> SpecMdError {
        match self {
            MdError::MissingShell(ix) => SpecMdError::MissingShell(*ix as nat),
            MdError::Prompt(ShellError::NoPrompt(l)) => SpecMdError::NoPrompt(l@),
            MdError::Prompt(ShellError::Unsupported) => SpecMdError::Unsupported,
        }
    }
}

/// Reading state: the chunks so far, the chunk being read, what comes next in a snippet.
pub struct MdParse {
    pub chunks: Seq<SpecChunk>,
    pub cur: SpecChunk,
    pub stage: SnipStage,
}

/// A snippet just opened by a console fence.
pub open spec fn fresh_snippet() -> SpecSnippet {
    SpecSnippet {
        shell: Shell::Bash,
        prompt: Seq::empty(),
        expected: Seq::empty(),
        stage: SpecStage::Pending,
        comment: None,
    }
}

/// Reading line number `ix` of a markdown file.
pub open spec fn md_line(st: MdParse, line: Seq<char>, ix: nat) -> Result<MdParse, SpecMdError> {
    match st.cur {
        SpecChunk::Text(t) => if line == "```console"@ {
            Ok(MdParse { chunks: st.chunks.push(st.cur), cur: SpecChunk::Snip(fresh_snippet()), stage: SnipStage::Shell })
        } else {
            Ok(MdParse { cur: SpecChunk::Text(t + line + "\n"@), ..st })
        },
        SpecChunk::Snip(sn) => match st.stage {
            SnipStage::Shell => if line == "```"@ {
                Err(SpecMdError::MissingShell(ix))
            } else {
                match prompt_of(line) {
                    Ok((sh, pr)) => Ok(MdParse {
                        cur: SpecChunk::Snip(SpecSnippet { shell: sh, prompt: pr, ..sn }),
                        stage: SnipStage::Expected,
                        ..st
                    }),
                    Err(Some(l)) => Err(SpecMdError::NoPrompt(l)),
                    Err(None) => Err(SpecMdError::Unsupported),
                }
            },
            SnipStage::Expected => if line == "```"@ {
                Ok(MdParse {
                    chunks: st.chunks.push(SpecChunk::Snip(SpecSnippet { expected: trim_end(sn.expected), ..sn })),
                    cur: SpecChunk::Text(Seq::empty()),
                    ..st
                })
            } else {
                Ok(MdParse { cur: SpecChunk::Snip(SpecSnippet { expected: sn.expected + line + "\n"@, ..sn }), ..st })
            },
        },
    }
}

/// Reading lines `i..` of a markdown file.
pub open spec fn md_fold(lines: Seq<Seq<char>>, i: nat, st: MdParse) -> Result<MdParse, SpecMdError>
    decreases lines.len() - i,
{
    if i >= lines.len() {
        Ok(st)
    } else {
        match md_line(st, lines[i as int], i) {
            Err(e) => Err(e),
            Ok(next) => md_fold(lines, i + 1, next),
        }
    }
}

/// The chunks of a markdown file: text before each console snippet, then the snippet; text
/// after the last snippet is not kept, a snippet left open at the end is.
pub open spec fn md_chunks(payload: Seq<char>) -> Result<Seq<SpecChunk>, SpecMdError> {
    let init = MdParse { chunks: Seq::empty(), cur: SpecChunk::Text(Seq::empty()), stage: SnipStage::Shell };
    match md_fold(crate::md_eval::types::lines(payload), 0, init) {
        Err(e) => Err(e),
        Ok(st) => Ok(if st.cur is Snip {
            st.chunks.push(st.cur)
        } else {
            st.chunks
        }),
    }
}

/// A markdown file with console snippets
#[derive(Debug)]
pub struct Md {
    pub path: PathBuf,
    pub chunks: Vec<Chunk>,
    pub active: Option<BTreeSet<usize>>,
}

/// Exec reading state
struct MdReader {
    chunks: Vec<Chunk>,
    in_snip: bool,
    text: Vec<char>,
    shell: Shell,
    prompt: String,
    expected: Vec<char>,
    stage: SnipStage,
}

impl MdReader {
    closed spec fn view(&self) -> MdParse {
        MdParse {
            chunks: chunks_spec(self.chunks@),
            cur: if self.in_snip {
                SpecChunk::Snip(SpecSnippet { shell: self.shell, prompt: self.prompt@, expected: self.expected@, ..fresh_snippet() })
            } else {
                SpecChunk::Text(self.text@)
            },
            stage: self.stage,
        }
    }

    fn current(&self) -> (c: Chunk)
        ensures
            c.spec() == self.view().cur,
    {
        if self.in_snip {
            Chunk::Chunk(Snippet {
                shell: self.shell,
                prompt: self.prompt.clone(),
                expected: chars_string(&self.expected),
                stage: Stage::Pending,
                comment: None,
            })
        } else {
            Chunk::Text(chars_string(&self.text))
        }
    }

    fn line(&mut self, line: &Vec<char>, ix: usize) -> (r: Result<(), MdError>)
        ensures
            match r {
                Ok(()) => md_line(old(self).view(), line@, ix as nat) == Ok::<MdParse, SpecMdError>(
                    final(self).view(),
                ),
                Err(e) => md_line(old(self).view(), line@, ix as nat) == Err::<MdParse, SpecMdError>(
                    e.spec(),
                ),
            },
    {
        proof {
            reveal_strlit("```console");
            reveal_strlit("```");
            reveal_strlit("\n");
        }
        let ghost before = self.view();
        if !self.in_snip {
            if crate::text::chars_eq(line, &str_chars("```console")) {
                let c = self.current();
                self.chunks.push(c);
                assert(chunks_spec(self.chunks@) =~= before.chunks.push(before.cur));
                self.in_snip = true;
                self.shell = Shell::Bash;
                self.prompt = String::new();
                self.expected = Vec::new();
                self.stage = SnipStage::Shell;
            } else {
                push_chars(&mut self.text, line);
                self.text.push('\n');
                assert(self.text@ =~= before.cur->Text_0 + line@ + "\n"@);
            }
            return Ok(());
        }
        match self.stage {
            SnipStage::Shell => {
                if crate::text::chars_eq(line, &str_chars("```")) {
                    return Err(MdError::MissingShell(ix));
                }
                let l = chars_string(line);
                match Shell::parse(l.as_str()) {
                    Ok((sh, pr)) => {
                        self.shell = sh;
                        self.prompt = pr;
                        self.stage = SnipStage::Expected;
                        Ok(())
                    },
                    Err(e) => Err(MdError::Prompt(e)),
                }
            },
            SnipStage::Expected => {
                if crate::text::chars_eq(line, &str_chars("```")) {
                    crate::console::trim_end_exec(&mut self.expected);
                    let c = self.current();
                    self.chunks.push(c);
                    assert(chunks_spec(self.chunks@) =~= before.chunks.push(c.spec()));
                    self.in_snip = false;
                    self.text = Vec::new();
                } else {
                    push_chars(&mut self.expected, line);
                    self.expected.push('\n');
                    assert(self.expected@ =~= before.cur->Snip_0.expected + line@ + "\n"@);
                }
                Ok(())
            },
        }
    }
}

/// Set of the given numbers.
fn index_set(xs: &Vec<usize>) -> (r: BTreeSet<usize>)
    ensures
        r@ == xs@.to_set(),
{
    let mut r: BTreeSet<usize> = BTreeSet::new();
    let mut i: usize = 0;
    while i < xs.len()
        invariant
            i <= xs@.len(),
            r@ == xs@.take(i as int).to_set(),
        decreases xs.len() - i,
    {
        r.insert(xs[i]);
        assert(xs@.take(i + 1) =~= xs@.take(i as int).push(xs@[i as int]));
        proof {
            xs@.take(i as int).lemma_push_to_set_commute(xs@[i as int]);
        }
        i = i + 1;
    }
    assert(xs@.take(xs@.len() as int) =~= xs@);
    r
}

impl Md {
    /// Reads the snippets of a markdown file with the given contents; only the snippets at
    /// `indices` are active, all when absent
    pub fn parse(path: PathBuf, payload: &str, indices: Option<Vec<usize>>) -> (r: Result<Md, MdError>)
        ensures
            match r {
                Ok(md) => {
                    &&& md.path == path
                    &&& md_chunks(payload@) == Ok::<Seq<SpecChunk>, SpecMdError>(chunks_spec(md.chunks@))
                    &&& match indices {
                        Some(xs) => md.active matches Some(a) && a@ == xs@.to_set(),
                        None => md.active is None,
                    }
                },
                Err(e) => md_chunks(payload@) == Err::<Seq<SpecChunk>, SpecMdError>(e.spec()),
            },
    {
        let ls = crate::md_eval::types::lines_exec(payload);
        let ghost lv = ls@.map_values(|w: Vec<char>| w@);
        let mut rd = MdReader {
            chunks: Vec::new(),
            in_snip: false,
            text: Vec::new(),
            shell: Shell::Bash,
            prompt: String::new(),
            expected: Vec::new(),
            stage: SnipStage::Shell,
        };
        assert(chunks_spec(rd.chunks@) =~= Seq::<SpecChunk>::empty());
        assert(rd.text@ =~= Seq::<char>::empty());
        let ghost init = rd.view();
        assert(init == MdParse {
            chunks: Seq::empty(),
            cur: SpecChunk::Text(Seq::empty()),
            stage: SnipStage::Shell,
        });
        let mut i: usize = 0;
        while i < ls.len()
            invariant
                i <= ls@.len(),
                lv == ls@.map_values(|w: Vec<char>| w@),
                lv == crate::md_eval::types::lines(payload@),
                md_fold(lv, 0, init) == md_fold(lv, i as nat, rd.view()),
                init == (MdParse {
                    chunks: Seq::empty(),
                    cur: SpecChunk::Text(Seq::empty()),
                    stage: SnipStage::Shell,
                }),
            decreases ls.len() - i,
        {
            assert(lv[i as int] == ls@[i as int]@);
            let ghost pre = rd.view();
            match rd.line(&ls[i], i) {
                Ok(()) => {},
                Err(e) => {
                    assert(md_fold(lv, i as nat, pre) == Err::<MdParse, SpecMdError>(e.spec()));
                    return Err(e);
                },
            }
            i = i + 1;
        }
        if rd.in_snip {
            let ghost before = rd.view();
            let c = rd.current();
            rd.chunks.push(c);
            assert(chunks_spec(rd.chunks@) =~= before.chunks.push(before.cur));
        }
        let active = match indices {
            Some(xs) => Some(index_set(&xs)),
            None => None,
        };
        Ok(Md { path, chunks: rd.chunks, active })
    }
}

/// A blank line, two newlines, starts at `i`.
pub open spec fn blank_at(s: Seq<char>, i: int) -> bool {
    0 <= i && i + 1 < s.len() && s[i] == '\n' && s[i + 1] == '\n'
}

/// Position of the last blank line of `s` starting before `end`, if any.
pub open spec fn last_blank(s: Seq<char>, end: nat) -> Option<nat>
    decreases end,
{
    if end == 0 {
        None
    } else if blank_at(s, end - 1) {
        Some((end - 1) as nat)
    } else {
        last_blank(s, (end - 1) as nat)
    }
}

/// The last paragraph of a text block: what follows its last blank line, after trimming.
pub open spec fn last_paragraph(t: Seq<char>) -> Seq<char> {
    let trimmed = trim_start(trim_end(t));
    match last_blank(trimmed, trimmed.len() + 1) {
        Some(i) => trimmed.skip(i as int + 2),
        None => trimmed,
    }
}

/// Chunks with each snippet given the last paragraph of the text right before it as its
/// comment; `comment` is the pending one.
pub open spec fn with_comments(chunks: Seq<SpecChunk>, comment: Option<Seq<char>>) -> Seq<SpecChunk>
    decreases chunks.len(),
{
    if chunks.len() == 0 {
        Seq::empty()
    } else {
        match chunks[0] {
            SpecChunk::Text(t) => {
                let p = last_paragraph(t);
                seq![chunks[0]] + with_comments(
                    chunks.drop_first(),
                    if p.len() == 0 { None } else { Some(p) },
                )
            },
            SpecChunk::Snip(sn) => seq![SpecChunk::Snip(SpecSnippet { comment, ..sn })] + with_comments(
                chunks.drop_first(),
                None,
            ),
        }
    }
}

/// A snippet whose output differs from the expected one.
pub open spec fn mismatched(c: SpecChunk) -> bool {
    c matches SpecChunk::Snip(sn) && sn.stage is Mismatch
}

/// The last paragraph of a text block
fn last_paragraph_exec(t: &Vec<char>) -> (r: Vec<char>)
    ensures
        r@ == last_paragraph(t@),
{
    let mut e = t.clone();
    assert(e@ =~= t@);
    crate::console::trim_end_exec(&mut e);
    let trimmed = trim_start_exec(&e);
    let ghost tv = trimmed@;
    let mut k: usize = trimmed.len();
    loop
        invariant
            k <= tv.len(),
            tv == trimmed@,
            tv == trim_start(trim_end(t@)),
            last_blank(tv, (tv.len() + 1) as nat) == last_blank(tv, (k + 1) as nat),
        decreases k,
    {
        if trimmed.len() >= 2 && k <= trimmed.len() - 2 && trimmed[k] == '\n' && trimmed[k + 1] == '\n' {
            assert(blank_at(tv, k as int));
            return crate::text::chars_skip(&trimmed, k + 2);
        }
        assert(!blank_at(tv, k as int));
        if k == 0 {
            assert(last_blank(tv, 0) is None);
            return trimmed;
        }
        k = k - 1;
    }
}

impl Md {
    /// Some snippet's output differs from what the file expects
    pub fn changed(&self) -> (r: bool)
        ensures
            r == exists|i: int| 0 <= i < self.chunks@.len() && mismatched(#[trigger] self.chunks@[i].spec()),
    {
        let mut i: usize = 0;
        while i < self.chunks.len()
            invariant
                i <= self.chunks@.len(),
                forall|j: int| 0 <= j < i ==> !mismatched(#[trigger] self.chunks@[j].spec()),
            decreases self.chunks.len() - i,
        {
            match &self.chunks[i] {
                Chunk::Text(_) => {},
                Chunk::Chunk(snippet) => {
                    if snippet.is_mismatch() {
                        assert(mismatched(self.chunks@[i as int].spec()));
                        return true;
                    }
                },
            }
            i = i + 1;
        }
        false
    }

    /// Last separate paragraph from the preceding text block becomes the comment of a
    /// snippet
    ///
    /// Useful for debugging with -v
    pub fn populate_comments(&mut self)
        ensures
            chunks_spec(final(self).chunks@) == with_comments(chunks_spec(old(self).chunks@), None),
            final(self).path == old(self).path,
            final(self).active == old(self).active,
    {
        let ghost orig = chunks_spec(self.chunks@);
        let mut comment: Option<String> = None;
        let mut out: Vec<Chunk> = Vec::new();
        let mut i: usize = 0;
        assert(orig.skip(0) =~= orig);
        assert(chunks_spec(out@) =~= Seq::<SpecChunk>::empty());
        while i < self.chunks.len()
            invariant
                i <= self.chunks@.len(),
                orig == chunks_spec(self.chunks@),
                with_comments(orig, None) == chunks_spec(out@) + with_comments(
                    orig.skip(i as int),
                    crate::md_eval::types::opt_str(comment),
                ),
            decreases self.chunks.len() - i,
        {
            let ghost rest = orig.skip(i as int);
            assert(rest.drop_first() =~= orig.skip(i + 1));
            assert(rest[0] == self.chunks@[i as int].spec());
            let ghost before = chunks_spec(out@);
            let ghost c0 = crate::md_eval::types::opt_str(comment);
            match &self.chunks[i] {
                Chunk::Text(t) => {
                    let p = last_paragraph_exec(&str_chars(t.as_str()));
                    comment = if p.len() == 0 {
                        None
                    } else {
                        Some(chars_string(&p))
                    };
                    out.push(Chunk::Text(t.clone()));
                    assert(chunks_spec(out@) =~= before + seq![rest[0]]);
                    assert(with_comments(rest, c0) == seq![rest[0]] + with_comments(
                        orig.skip(i + 1),
                        crate::md_eval::types::opt_str(comment),
                    ));
                },
                Chunk::Chunk(snippet) => {
                    let sn = Snippet {
                        shell: snippet.shell,
                        prompt: snippet.prompt.clone(),
                        expected: snippet.expected.clone(),
                        stage: match &snippet.stage {
                            Stage::Pending => Stage::Pending,
                            Stage::Matches => Stage::Matches,
                            Stage::Mismatch { actual } => Stage::Mismatch { actual: actual.clone() },
                        },
                        comment,
                    };
                    comment = None;
                    out.push(Chunk::Chunk(sn));
                    let ghost x = SpecChunk::Snip(SpecSnippet { comment: c0, ..snippet.spec() });
                    assert(chunks_spec(out@) =~= before + seq![x]);
                    assert(with_comments(rest, c0) == seq![x] + with_comments(
                        orig.skip(i + 1),
                        crate::md_eval::types::opt_str(comment),
                    ));
                },
            }
            proof {
                assert(chunks_spec(out@) + with_comments(orig.skip(i + 1), crate::md_eval::types::opt_str(comment))
                    =~= before + with_comments(rest, c0));
            }
            i = i + 1;
        }
        assert(orig.skip(i as int) =~= Seq::<SpecChunk>::empty());
        assert(chunks_spec(out@) + Seq::<SpecChunk>::empty() =~= chunks_spec(out@));
        self.chunks = out;
    }
}

/// All the snippets among the chunks, in order.
pub open spec fn all_snippets(chunks: Seq<SpecChunk>) -> Seq<SpecSnippet>
    decreases chunks.len(),
{
    if chunks.len() == 0 {
        Seq::empty()
    } else {
        let p = all_snippets(chunks.drop_last());
        match chunks.last() {
            SpecChunk::Snip(sn) => p.push(sn),
            _ => p,
        }
    }
}

/// The snippets whose index is active, all of them when no set is given.
pub open spec fn active_snippets(snips: Seq<SpecSnippet>, active: Option<Set<usize>>) -> Seq<SpecSnippet>
    decreases snips.len(),
{
    if snips.len() == 0 {
        Seq::empty()
    } else {
        let p = active_snippets(snips.drop_last(), active);
        let ix = (snips.len() - 1) as usize;
        if active matches Some(a) && !a.contains(ix) {
            p
        } else {
            p.push(snips.last())
        }
    }
}

/// Active set of snippet indices.
pub open spec fn active_set(active: Option<BTreeSet<usize>>) -> Option<Set<usize>> {
    match active {
        Some(a) => Some(a@),
        None => None,
    }
}

/// What the file holds for a snippet: the console fence, the prompt, the output (the one
/// the shell gave when it differs from the expected one) and the closing fence.
pub open spec fn snippet_file_text(sn: SpecSnippet) -> Seq<char> {
    "```console\n"@ + shell_mark(sn.shell) + " "@ + sn.prompt + "\n"@ + match sn.stage {
        SpecStage::Mismatch(a) => a,
        _ => sn.expected,
    } + "\n```\n"@
}

/// The contents of a markdown file with its chunks.
pub open spec fn file_text(chunks: Seq<SpecChunk>) -> Seq<char>
    decreases chunks.len(),
{
    if chunks.len() == 0 {
        Seq::empty()
    } else {
        file_text(chunks.drop_last()) + match chunks.last() {
            SpecChunk::Text(t) => t,
            SpecChunk::Snip(sn) => snippet_file_text(sn),
        }
    }
}

impl Md {
    /// The snippets to check: the ones whose index is active
    pub fn snippets(&self) -> (r: Vec<&Snippet>)
        ensures
            r@.map_values(|s: &Snippet| s.spec()) == active_snippets(
                all_snippets(chunks_spec(self.chunks@)),
                active_set(self.active),
            ),
    {
        let ghost cs = chunks_spec(self.chunks@);
        let mut r: Vec<&Snippet> = Vec::new();
        let mut ix: usize = 0;
        let mut i: usize = 0;
        assert(cs.take(0) =~= Seq::<SpecChunk>::empty());
        assert(r@.map_values(|s: &Snippet| s.spec()) =~= Seq::<SpecSnippet>::empty());
        while i < self.chunks.len()
            invariant
                i <= self.chunks@.len(),
                cs == chunks_spec(self.chunks@),
                ix == all_snippets(cs.take(i as int)).len(),
                ix <= i,
                r@.map_values(|s: &Snippet| s.spec()) == active_snippets(
                    all_snippets(cs.take(i as int)),
                    active_set(self.active),
                ),
            decreases self.chunks.len() - i,
        {
            assert(cs.take(i + 1).drop_last() =~= cs.take(i as int));
            assert(cs.take(i + 1).last() == self.chunks@[i as int].spec());
            let ghost before = r@.map_values(|s: &Snippet| s.spec());
            match &self.chunks[i] {
                Chunk::Text(_) => {},
                Chunk::Chunk(snippet) => {
                    let ghost snips = all_snippets(cs.take(i + 1));
                    assert(snips.drop_last() =~= all_snippets(cs.take(i as int)));
                    let keep = match &self.active {
                        None => true,
                        Some(a) => a.contains(&ix),
                    };
                    if keep {
                        r.push(snippet);
                        assert(r@.map_values(|s: &Snippet| s.spec()) =~= before.push(snippet.spec()));
                    }
                    ix = ix + 1;
                },
            }
            i = i + 1;
        }
        assert(cs.take(i as int) =~= cs);
        r
    }

    /// Positions among the chunks of the snippets to check, in order
    pub fn snippet_positions(&self) -> (r: Vec<usize>)
        ensures
            forall|k: int| 0 <= k < r@.len() ==> r@[k] < self.chunks@.len() && self.chunks@[r@[k] as int] is Chunk,
            r@.map_values(|p: usize| self.chunks@[p as int].spec()) == active_snippets(
                all_snippets(chunks_spec(self.chunks@)),
                active_set(self.active),
            ).map_values(|sn: SpecSnippet| SpecChunk::Snip(sn)),
    {
        let ghost cs = chunks_spec(self.chunks@);
        let ghost f = |sn: SpecSnippet| SpecChunk::Snip(sn);
        let ghost g = |p: usize| self.chunks@[p as int].spec();
        let mut r: Vec<usize> = Vec::new();
        let mut ix: usize = 0;
        let mut i: usize = 0;
        assert(cs.take(0) =~= Seq::<SpecChunk>::empty());
        assert(r@.map_values(g) =~= active_snippets(all_snippets(cs.take(0)), active_set(self.active)).map_values(f));
        while i < self.chunks.len()
            invariant
                i <= self.chunks@.len(),
                cs == chunks_spec(self.chunks@),
                g == (|p: usize| self.chunks@[p as int].spec()),
                f == (|sn: SpecSnippet| SpecChunk::Snip(sn)),
                ix == all_snippets(cs.take(i as int)).len(),
                ix <= i,
                forall|k: int| 0 <= k < r@.len() ==> r@[k] < i && self.chunks@[r@[k] as int] is Chunk,
                r@.map_values(g) == active_snippets(all_snippets(cs.take(i as int)), active_set(self.active)).map_values(f),
            decreases self.chunks.len() - i,
        {
            assert(cs.take(i + 1).drop_last() =~= cs.take(i as int));
            assert(cs.take(i + 1).last() == self.chunks@[i as int].spec());
            let ghost before = r@;
            match &self.chunks[i] {
                Chunk::Text(_) => {},
                Chunk::Chunk(snippet) => {
                    let ghost snips = all_snippets(cs.take(i + 1));
                    assert(snips.drop_last() =~= all_snippets(cs.take(i as int)));
                    let keep = match &self.active {
                        None => true,
                        Some(a) => a.contains(&ix),
                    };
                    if keep {
                        r.push(i);
                        assert(r@.map_values(g) =~= before.map_values(g).push(SpecChunk::Snip(snippet.spec())));
                        assert(active_snippets(snips, active_set(self.active)).map_values(f) =~= active_snippets(
                            snips.drop_last(),
                            active_set(self.active),
                        ).map_values(f).push(f(snippet.spec())));
                    }
                    ix = ix + 1;
                },
            }
            i = i + 1;
        }
        assert(cs.take(i as int) =~= cs);
        r
    }

    /// What the markdown file holds once the outputs the shell gave are written in
    pub fn save_text(&self) -> (r: String)
        ensures
            r@ == file_text(chunks_spec(self.chunks@)),
    {
        let ghost cs = chunks_spec(self.chunks@);
        let mut out: Vec<char> = Vec::new();
        let mut i: usize = 0;
        assert(cs.take(0) =~= Seq::<SpecChunk>::empty());
        while i < self.chunks.len()
            invariant
                i <= self.chunks@.len(),
                cs == chunks_spec(self.chunks@),
                out@ == file_text(cs.take(i as int)),
            decreases self.chunks.len() - i,
        {
            assert(cs.take(i + 1).drop_last() =~= cs.take(i as int));
            assert(cs.take(i + 1).last() == self.chunks@[i as int].spec());
            let ghost before = out@;
            match &self.chunks[i] {
                Chunk::Text(t) => push_str_chars(&mut out, t.as_str()),
                Chunk::Chunk(snippet) => {
                    push_str_chars(&mut out, "```console\n");
                    push_str_chars(&mut out, snippet.shell.display());
                    push_str_chars(&mut out, " ");
                    push_str_chars(&mut out, snippet.prompt.as_str());
                    push_str_chars(&mut out, "\n");
                    push_str_chars(&mut out, snippet.output());
                    push_str_chars(&mut out, "\n```\n");
                    assert(out@ =~= before + snippet_file_text(snippet.spec()));
                },
            }
            i = i + 1;
        }
        assert(cs.take(i as int) =~= cs);
        chars_string(&out)
    }
}

/// A line of a diff between two texts
pub enum DiffLine {
    /// Only in the expected text
    Left(String),
    /// In both
    Both(String),
    /// Only in the actual text
    Right(String),
}

/// Mathematical form of a [`DiffLine`]
pub enum SpecDiffLine {
    Left(Seq<char>),
    Both(Seq<char>),
    Right(Seq<char>),
}

impl DiffLine {
    /// The line as a mathematical value.
    pub open spec fn spec(&self) -> SpecDiffLine {
        match self {
            DiffLine::Left(s) => SpecDiffLine::Left(s@),
            DiffLine::Both(s) => SpecDiffLine::Both(s@),
            DiffLine::Right(s) => SpecDiffLine::Right(s@),
        }
    }
}

/// The line diff `diff::lines` computes between two texts.
pub uninterp spec fn line_diff(left: Seq<char>, right: Seq<char>) -> Seq<SpecDiffLine>;

/// Line by line differences between two texts.
///
/// Trusted: calls `diff::lines`; its result is named, not described: it is determined by the
/// two texts. Of a line both texts have, the left one is kept.
#[verifier::external_body]
fn diff_lines(left: &str, right: &str) -> (r: Vec<DiffLine>)
    ensures
        r@.map_values(|d: DiffLine| d.spec()) == line_diff(left@, right@),
{
    diff::lines(left, right).into_iter().map(|d| match d {
        diff::Result::Left(s) => DiffLine::Left(s.to_string()),
        diff::Result::Both(s, _) => DiffLine::Both(s.to_string()),
        diff::Result::Right(s) => DiffLine::Right(s.to_string()),
    }).collect()
}

/// Terminal color codes used to show differences
pub const RED: &'static str = "\x1b[0;31m";
pub const GREEN: &'static str = "\x1b[0;32m";
pub const RESET: &'static str = "\x1b[0;0m";

/// How a line of a diff is shown: removed lines in red with a `-`, added lines in green
/// with a `+`, common lines with a space.
pub open spec fn diff_line_text(d: SpecDiffLine) -> Seq<char> {
    match d {
        SpecDiffLine::Left(s) => RED@ + "-"@ + s + RESET@ + "\n"@,
        SpecDiffLine::Both(s) => " "@ + s + "\n"@,
        SpecDiffLine::Right(s) => GREEN@ + "+"@ + s + RESET@ + "\n"@,
    }
}

/// How a diff is shown.
pub open spec fn diff_text(ds: Seq<SpecDiffLine>) -> Seq<char>
    decreases ds.len(),
{
    if ds.len() == 0 {
        Seq::empty()
    } else {
        diff_text(ds.drop_last()) + diff_line_text(ds.last())
    }
}

/// How a snippet is reported: its prompt, then whether the check is pending, the expected
/// output in green when it matched, or the differences from what the shell gave.
pub open spec fn snippet_report(sn: SpecSnippet) -> Seq<char> {
    "```console\n"@ + shell_mark(sn.shell) + " "@ + sn.prompt + "\n"@ + match sn.stage {
        SpecStage::Pending => "... check pending\n"@,
        SpecStage::Matches => GREEN@ + sn.expected + RESET@ + "\n"@,
        SpecStage::Mismatch(a) => diff_text(line_diff(sn.expected, a)),
    } + "```\n"@
}

impl Snippet {
    /// The snippet as it is reported
    pub fn render(&self) -> (r: String)
        ensures
            r@ == snippet_report(self.spec()),
    {
        let mut out = str_chars("```console\n");
        push_str_chars(&mut out, self.shell.display());
        push_str_chars(&mut out, " ");
        push_str_chars(&mut out, self.prompt.as_str());
        push_str_chars(&mut out, "\n");
        let ghost head = out@;
        match &self.stage {
            Stage::Pending => push_str_chars(&mut out, "... check pending\n"),
            Stage::Matches => {
                push_str_chars(&mut out, GREEN);
                push_str_chars(&mut out, self.expected.as_str());
                push_str_chars(&mut out, RESET);
                push_str_chars(&mut out, "\n");
                assert(out@ =~= head + (GREEN@ + self.expected@ + RESET@ + "\n"@));
            },
            Stage::Mismatch { actual } => {
                let ds = diff_lines(self.expected.as_str(), actual.as_str());
                let ghost dv = ds@.map_values(|d: DiffLine| d.spec());
                let mut i: usize = 0;
                assert(dv.take(0) =~= Seq::<SpecDiffLine>::empty());
                while i < ds.len()
                    invariant
                        i <= ds@.len(),
                        dv == ds@.map_values(|d: DiffLine| d.spec()),
                        out@ == head + diff_text(dv.take(i as int)),
                    decreases ds.len() - i,
                {
                    assert(dv.take(i + 1).drop_last() =~= dv.take(i as int));
                    assert(dv.take(i + 1).last() == ds@[i as int].spec());
                    let ghost before = out@;
                    match &ds[i] {
                        DiffLine::Left(s) => {
                            push_str_chars(&mut out, RED);
                            push_str_chars(&mut out, "-");
                            push_str_chars(&mut out, s.as_str());
                            push_str_chars(&mut out, RESET);
                            push_str_chars(&mut out, "\n");
                        },
                        DiffLine::Both(s) => {
                            push_str_chars(&mut out, " ");
                            push_str_chars(&mut out, s.as_str());
                            push_str_chars(&mut out, "\n");
                        },
                        DiffLine::Right(s) => {
                            push_str_chars(&mut out, GREEN);
                            push_str_chars(&mut out, "+");
                            push_str_chars(&mut out, s.as_str());
                            push_str_chars(&mut out, RESET);
                            push_str_chars(&mut out, "\n");
                        },
                    }
                    assert(out@ =~= before + diff_line_text(ds@[i as int].spec()));
                    i = i + 1;
                }
                assert(dv.take(i as int) =~= dv);
            },
        }
        let ghost mid = out@;
        push_str_chars(&mut out, "```\n");
        assert(out@ =~= snippet_report(self.spec()));
        chars_string(&out)
    }
}

/// The words of a text, as `split_whitespace` gives them.
pub open spec fn words(s: Seq<char>) -> Seq<Seq<char>>
    decreases s.len(),
{
    if s.len() == 0 {
        Seq::empty()
    } else {
        let p = words(s.drop_last());
        let c = s.last();
        if is_whitespace(c) {
            p
        } else if s.len() > 1 && !is_whitespace(s[s.len() - 2]) {
            p.update(p.len() - 1, p.last().push(c))
        } else {
            p.push(seq![c])
        }
    }
}

/// The words of a text
pub fn words_exec(s: &Vec<char>) -> (r: Vec<String>)
    ensures
        r@.map_values(|w: String| w@) == words(s@),
{
    let mut out: Vec<Vec<char>> = Vec::new();
    let mut i: usize = 0;
    assert(s@.take(0) =~= Seq::<char>::empty());
    while i < s.len()
        invariant
            i <= s@.len(),
            out@.map_values(|w: Vec<char>| w@) == words(s@.take(i as int)),
            i > 0 && !is_whitespace(s@[i - 1]) ==> out@.len() > 0,
        decreases s.len() - i,
    {
        let ghost t = s@.take(i + 1);
        assert(t.drop_last() =~= s@.take(i as int));
        assert(t.last() == s@[i as int]);
        let c = s[i];
        let ghost before = out@.map_values(|w: Vec<char>| w@);
        if crate::console::is_whitespace_exec(c) {
        } else if i > 0 && !crate::console::is_whitespace_exec(s[i - 1]) {
            assert(t[t.len() - 2] == s@[i - 1]);
            let n = out.len();
            let mut last = out.pop().unwrap();
            let ghost prev = last@;
            last.push(c);
            out.push(last);
            assert(out@.map_values(|w: Vec<char>| w@) =~= before.update(n - 1, prev.push(c)));
        } else {
            let mut w: Vec<char> = Vec::new();
            w.push(c);
            out.push(w);
            assert(out@.map_values(|w: Vec<char>| w@) =~= before.push(seq![c]));
        }
        i = i + 1;
    }
    assert(s@.take(s@.len() as int) =~= s@);
    let mut r: Vec<String> = Vec::new();
    let mut j: usize = 0;
    while j < out.len()
        invariant
            j <= out@.len(),
            r@.map_values(|w: String| w@) == out@.map_values(|w: Vec<char>| w@).take(j as int),
        decreases out.len() - j,
    {
        let ghost before = r@.map_values(|w: String| w@);
        let ghost om = out@.map_values(|w: Vec<char>| w@);
        let w = chars_string(&out[j]);
        assert(w@ == om[j as int]);
        r.push(w);
        assert(r@.map_values(|w: String| w@) =~= before.push(om[j as int]));
        assert(om.take(j + 1) =~= om.take(j as int).push(om[j as int]));
        j = j + 1;
    }
    assert(out@.map_values(|w: Vec<char>| w@).take(j as int) =~= out@.map_values(|w: Vec<char>| w@));
    r
}

/// The text ends with `<TAB>`.
pub open spec fn ends_with_tab(s: Seq<char>) -> bool {
    s.len() >= 5 && s[s.len() - 5] == '<' && s[s.len() - 4] == 'T' && s[s.len() - 3] == 'A'
        && s[s.len() - 2] == 'B' && s[s.len() - 1] == '>'
}

/// The text without the `<TAB>` markers at its end.
pub open spec fn strip_tabs(s: Seq<char>) -> Seq<char>
    decreases s.len(),
{
    if ends_with_tab(s) {
        strip_tabs(s.take(s.len() - 5))
    } else {
        s
    }
}

/// How a completion prompt is run without a shell
pub struct RawRun {
    /// Arguments after the binary name
    pub args: Vec<String>,
    /// Value for `BPAF_COMPLETE_REV`, when the prompt asks for completions
    pub complete_rev: Option<usize>,
}

/// The text of a command's output as it is compared: each line without trailing
/// whitespace and followed by a newline, then the whole without trailing whitespace.
pub open spec fn normalized_output(text: Seq<char>) -> Seq<char> {
    trim_end(normalized_lines(crate::md_eval::types::lines(text)))
}

/// Lines without trailing whitespace, each followed by a newline.
pub open spec fn normalized_lines(ls: Seq<Seq<char>>) -> Seq<char>
    decreases ls.len(),
{
    if ls.len() == 0 {
        Seq::empty()
    } else {
        normalized_lines(ls.drop_last()) + trim_end(ls.last()) + "\n"@
    }
}


/// All the words but the first.
fn after_first(ws: &Vec<String>) -> (r: Vec<String>)
    requires
        ws@.len() > 0,
    ensures
        r@.map_values(|w: String| w@) == ws@.map_values(|w: String| w@).drop_first(),
{
    let ghost wm = ws@.map_values(|w: String| w@);
    let mut r: Vec<String> = Vec::new();
    let mut j: usize = 1;
    assert(wm.subrange(1, 1) =~= Seq::<Seq<char>>::empty());
    assert(r@.map_values(|w: String| w@) =~= Seq::<Seq<char>>::empty());
    while j < ws.len()
        invariant
            1 <= j <= ws@.len(),
            wm == ws@.map_values(|w: String| w@),
            r@.map_values(|w: String| w@) == wm.subrange(1, j as int),
        decreases ws.len() - j,
    {
        let ghost before = r@.map_values(|w: String| w@);
        let w = ws[j].clone();
        assert(w@ == wm[j as int]);
        r.push(w);
        assert(r@.map_values(|w: String| w@) =~= before.push(wm[j as int]));
        assert(wm.subrange(1, j + 1) =~= wm.subrange(1, j as int).push(wm[j as int]));
        j = j + 1;
    }
    assert(wm.subrange(1, j as int) =~= wm.drop_first());
    r
}

/// The text without the `<TAB>` markers at its end
#[verifier::spinoff_prover]
fn strip_tabs_exec(p: &Vec<char>) -> (r: Vec<char>)
    ensures
        r@ == strip_tabs(p@),
{
    let mut n = p.len();
    assert(p@.take(n as int) =~= p@);
    while n >= 5 && p[n - 5] == '<' && p[n - 4] == 'T' && p[n - 3] == 'A' && p[n - 2] == 'B' && p[n - 1] == '>'
        invariant
            n <= p@.len(),
            strip_tabs(p@) == strip_tabs(p@.take(n as int)),
        decreases n,
    {
        let ghost s = p@.take(n as int);
        assert(s[n - 5] == p@[n - 5] && s[n - 4] == p@[n - 4] && s[n - 3] == p@[n - 3]);
        assert(s[n - 2] == p@[n - 2] && s[n - 1] == p@[n - 1]);
        assert(ends_with_tab(s));
        assert(s.take(n - 5) =~= p@.take(n - 5));
        n = n - 5;
    }
    assert(!ends_with_tab(p@.take(n as int))) by {
        let s = p@.take(n as int);
        if n >= 5 {
            assert(s[n - 5] == p@[n - 5] && s[n - 4] == p@[n - 4] && s[n - 3] == p@[n - 3]);
            assert(s[n - 2] == p@[n - 2] && s[n - 1] == p@[n - 1]);
        }
    }
    let mut line: Vec<char> = Vec::new();
    crate::text::push_range(&mut line, p, 0, n);
    assert(line@ =~= p@.take(n as int));
    line
}

impl Snippet {
    /// Arguments that run the prompt as a command: the words after the binary name
    pub fn exec_args(&self) -> (r: Vec<String>)
        requires
            words(self.prompt@).len() > 0,
        ensures
            r@.map_values(|w: String| w@) == words(self.prompt@).drop_first(),
    {
        let ws = words_exec(&str_chars(self.prompt.as_str()));
        after_first(&ws)
    }

    /// How the prompt runs without a shell: `<TAB>` markers at its end are dropped, the
    /// words after the binary name are the arguments, an empty argument is added when the
    /// prompt ends with a space, and completion is asked for when the prompt has `<TAB>`
    pub fn raw_run(&self) -> (r: RawRun)
        requires
            words(strip_tabs(self.prompt@)).len() > 0,
        ensures
            ({
                let line = strip_tabs(self.prompt@);
                let base = words(line).drop_first();
                &&& r.args@.map_values(|w: String| w@) == if line.last() == ' ' {
                    base.push(Seq::empty())
                } else {
                    base
                }
                &&& r.complete_rev == if contains(self.prompt@, "<TAB>"@) {
                    Some(
                        match self.shell {
                            Shell::Bash => 10usize,
                            Shell::Zsh => 7usize,
                            Shell::Fish => 9usize,
                        },
                    )
                } else {
                    None::<usize>
                }
            }),
    {
        let p = str_chars(self.prompt.as_str());
        let line = strip_tabs_exec(&p);
        let ws = words_exec(&line);
        let mut args = after_first(&ws);
        if line.len() > 0 && line[line.len() - 1] == ' ' {
            let ghost before = args@.map_values(|w: String| w@);
            args.push(String::new());
            assert(args@.map_values(|w: String| w@) =~= before.push(Seq::empty()));
        }
        let complete_rev = if !self.is_execution() {
            Some(self.shell.complete_rev())
        } else {
            None
        };
        RawRun { args, complete_rev }
    }

    /// Records what running the prompt printed (output and errors, as bytes) and whether it
    /// is what the snippet expects
    pub fn record_output(&mut self, raw: &[u8]) -> (r: bool)
        ensures
            ({
                let actual = normalized_output(lossy_utf8(raw@));
                &&& r == (old(self).expected@ == actual)
                &&& final(self).shell == old(self).shell
                &&& final(self).prompt == old(self).prompt
                &&& final(self).expected == old(self).expected
                &&& final(self).comment == old(self).comment
                &&& if r {
                    final(self).stage is Matches
                } else {
                    final(self).stage matches Stage::Mismatch { actual: a } && a@ == actual
                }
            }),
    {
        let text = utf8_lossy(raw);
        let ls = crate::md_eval::types::lines_exec(text.as_str());
        let ghost lv = ls@.map_values(|w: Vec<char>| w@);
        let mut actual: Vec<char> = Vec::new();
        let mut i: usize = 0;
        assert(lv.take(0) =~= Seq::<Seq<char>>::empty());
        while i < ls.len()
            invariant
                i <= ls@.len(),
                lv == ls@.map_values(|w: Vec<char>| w@),
                actual@ == normalized_lines(lv.take(i as int)),
            decreases ls.len() - i,
        {
            assert(lv.take(i + 1).drop_last() =~= lv.take(i as int));
            assert(lv.take(i + 1).last() == ls@[i as int]@);
            let mut line = ls[i].clone();
            assert(line@ =~= ls@[i as int]@);
            crate::console::trim_end_exec(&mut line);
            push_chars(&mut actual, &line);
            actual.push('\n');
            assert(actual@ =~= normalized_lines(lv.take(i as int)) + trim_end(lv[i as int]) + "\n"@) by {
                reveal_strlit("\n");
            }
            i = i + 1;
        }
        assert(lv.take(i as int) =~= lv);
        crate::console::trim_end_exec(&mut actual);
        let actual_s = chars_string(&actual);
        let matches = crate::text::chars_eq(&str_chars(self.expected.as_str()), &actual);
        self.stage = if matches {
            Stage::Matches
        } else {
            Stage::Mismatch { actual: actual_s }
        };
        matches
    }
}

/// Snippets of one file that run the same binary in the same shell
pub struct Group {
    pub file_ix: usize,
    pub bin_name: String,
    pub shell: Shell,
    /// Positions of the snippets in the list that was grouped
    pub snippets: Vec<usize>,
}

/// Mathematical form of a [`Group`]
pub struct SpecGroup {
    pub file_ix: usize,
    pub bin: Seq<char>,
    pub shell: Shell,
    pub members: Seq<usize>,
}

impl Group {
    /// The group as a mathematical value.
    pub open spec fn spec(&self) -> SpecGroup {
        SpecGroup { file_ix: self.file_ix, bin: self.bin_name@, shell: self.shell, members: self.snippets@ }
    }
}

/// Groups as mathematical values.
pub open spec fn groups_spec(v: Seq<Group>) -> Seq<SpecGroup> {
    v.map_values(|g: Group| g.spec())
}

/// Position of the group with the given binary and shell among the first `n` groups.
pub open spec fn find_group(run: Seq<SpecGroup>, bin: Seq<char>, shell: Shell, n: nat) -> Option<nat>
    decreases n,
{
    if n == 0 {
        None
    } else {
        match find_group(run, bin, shell, (n - 1) as nat) {
            Some(p) => Some(p),
            None => if run[n - 1].bin == bin && run[n - 1].shell == shell {
                Some((n - 1) as nat)
            } else {
                None
            },
        }
    }
}

/// Groups of the current file with snippet `i` added to the group of its binary and shell,
/// a new group at the end when there is none yet.
pub open spec fn add_member(run: Seq<SpecGroup>, file: usize, bin: Seq<char>, shell: Shell, i: usize) -> Seq<SpecGroup> {
    match find_group(run, bin, shell, run.len()) {
        Some(p) => run.update(p as int, SpecGroup { members: run[p as int].members.push(i), ..run[p as int] }),
        None => run.push(SpecGroup { file_ix: file, bin, shell, members: seq![i] }),
    }
}

/// Grouping state: the groups of files left behind, the current file, its groups.
pub struct GroupState {
    pub done: Seq<SpecGroup>,
    pub cur: Option<usize>,
    pub run: Seq<SpecGroup>,
}

/// Groups of the first `n` snippets, each given by its file, binary and shell.
pub open spec fn group_fold(items: Seq<(usize, Seq<char>, Shell)>, n: nat) -> GroupState
    decreases n,
{
    if n == 0 {
        GroupState { done: Seq::empty(), cur: None, run: Seq::empty() }
    } else {
        let st = group_fold(items, (n - 1) as nat);
        let (f, bin, sh) = items[n - 1];
        let switch = st.cur matches Some(c) && c != f;
        let done = if switch { st.done + st.run } else { st.done };
        let run = if switch { Seq::empty() } else { st.run };
        GroupState { done, cur: Some(f), run: add_member(run, f, bin, sh, (n - 1) as usize) }
    }
}

/// Snippets grouped by file, then by binary and shell: files in the order they come, groups
/// of a file in the order of their first snippet, snippets of a group in order.
pub open spec fn groups_of(items: Seq<(usize, Seq<char>, Shell)>) -> Seq<SpecGroup> {
    let st = group_fold(items, items.len());
    st.done + st.run
}

/// Items as mathematical values.
pub open spec fn items_spec(v: Seq<(usize, String, Shell)>) -> Seq<(usize, Seq<char>, Shell)> {
    v.map_values(|x: (usize, String, Shell)| (x.0, x.1@, x.2))
}

proof fn lemma_find_group_stable(run: Seq<SpecGroup>, bin: Seq<char>, shell: Shell, k: nat, m: nat)
    requires
        k <= m,
        find_group(run, bin, shell, k) is Some,
    ensures
        find_group(run, bin, shell, m) == find_group(run, bin, shell, k),
    decreases m - k,
{
    if k < m {
        lemma_find_group_stable(run, bin, shell, k, (m - 1) as nat);
    }
}

proof fn lemma_find_group_bound(run: Seq<SpecGroup>, bin: Seq<char>, shell: Shell, n: nat)
    ensures
        find_group(run, bin, shell, n) matches Some(p) ==> p < n,
    decreases n,
{
    if n > 0 {
        lemma_find_group_bound(run, bin, shell, (n - 1) as nat);
    }
}

/// Position of the group with the given binary and shell.
fn find_group_exec(run: &Vec<Group>, bin: &Vec<char>, shell: Shell) -> (r: Option<usize>)
    ensures
        match find_group(groups_spec(run@), bin@, shell, run@.len()) {
            Some(p) => r == Some(p as usize),
            None => r is None,
        },
        r matches Some(p) ==> p < run@.len(),
{
    let ghost rs = groups_spec(run@);
    let mut k: usize = 0;
    while k < run.len()
        invariant
            k <= run@.len(),
            rs == groups_spec(run@),
            find_group(rs, bin@, shell, k as nat) is None,
        decreases run.len() - k,
    {
        assert(rs[k as int] == run@[k as int].spec());
        if run[k].shell == shell && crate::text::chars_eq(&str_chars(run[k].bin_name.as_str()), bin) {
            proof {
                assert(find_group(rs, bin@, shell, (k + 1) as nat) == Some(k as nat));
                lemma_find_group_stable(rs, bin@, shell, (k + 1) as nat, run@.len() as nat);
            }
            return Some(k);
        }
        k = k + 1;
    }
    None
}

/// Groups snippets, each given by its file, binary and shell, for running snippets of a
/// group in one shell session: file order is preserved, and within a file snippets are
/// grouped by binary and shell
pub fn build_groups(items: &Vec<(usize, String, Shell)>) -> (r: Vec<Group>)
    ensures
        groups_spec(r@) == groups_of(items_spec(items@)),
{
    let ghost is = items_spec(items@);
    let mut done: Vec<Group> = Vec::new();
    let mut run: Vec<Group> = Vec::new();
    let mut cur: Option<usize> = None;
    let mut i: usize = 0;
    assert(groups_spec(done@) =~= Seq::<SpecGroup>::empty());
    assert(groups_spec(run@) =~= Seq::<SpecGroup>::empty());
    while i < items.len()
        invariant
            i <= items@.len(),
            is == items_spec(items@),
            group_fold(is, i as nat) == (GroupState { done: groups_spec(done@), cur, run: groups_spec(run@) }),
        decreases items.len() - i,
    {
        let f = items[i].0;
        let sh = items[i].2;
        let bin = str_chars(items[i].1.as_str());
        assert(is[i as int] == (f, bin@, sh));
        let switch = match cur {
            Some(c) => c != f,
            None => false,
        };
        if switch {
            let ghost before = groups_spec(done@);
            let ghost rs = groups_spec(run@);
            done.append(&mut run);
            assert(groups_spec(done@) =~= before + rs);
            assert(groups_spec(run@) =~= Seq::<SpecGroup>::empty());
        }
        cur = Some(f);
        let ghost rs = groups_spec(run@);
        match find_group_exec(&run, &bin, sh) {
            Some(p) => {
                proof {
                    lemma_find_group_bound(rs, bin@, sh, rs.len());
                }
                assert(rs.len() == run@.len());
                let run_len = run.len();
                let ghost q = find_group(rs, bin@, sh, rs.len())->0;
                assert(q < run_len);
                assert(find_group(rs, bin@, sh, rs.len()) == Some(p as nat));
                let ghost old_run = run@;
                let mut g = run.remove(p);
                assert(g == old_run[p as int]);
                g.snippets.push(i);
                let ghost ng = g;
                run.insert(p, g);
                assert(run@ =~= old_run.update(p as int, ng));
                assert(rs[p as int] == old_run[p as int].spec());
                assert(ng.spec() == SpecGroup { members: rs[p as int].members.push(i), ..rs[p as int] });
                assert(groups_spec(run@) =~= rs.update(p as int, ng.spec()));
                assert(groups_spec(run@) =~= add_member(rs, f, bin@, sh, i));
            },
            None => {
                let mut members: Vec<usize> = Vec::new();
                members.push(i);
                run.push(Group { file_ix: f, bin_name: chars_string(&bin), shell: sh, snippets: members });
                assert(groups_spec(run@) =~= add_member(rs, f, bin@, sh, i));
            },
        }
        i = i + 1;
    }
    let ghost ds = groups_spec(done@);
    let ghost rs = groups_spec(run@);
    done.append(&mut run);
    assert(groups_spec(done@) =~= ds + rs);
    done
}

} // verus!

verus! {

/// The extension of a path, as `Path::extension` finds it.
pub uninterp spec fn extension_of(p: Seq<char>) -> Option<Seq<char>>;

/// The `Debug` form of a path.
pub uninterp spec fn path_debug_text(p: Seq<char>) -> Seq<char>;

/// The extension of a path.
///
/// Trusted: calls `Path::extension` on the path of the text; the extension, the part of the
/// file name after its last dot, is named, not described: it is determined by the text.
#[verifier::external_body]
fn path_extension(p: &str) -> (r: Option<String>)
    ensures
        crate::complete_gen::opt_view(r) == extension_of(p@),
{
    std::path::Path::new(p).extension().map(|e| e.to_string_lossy().into_owned())
}

/// The `Debug` form of a path.
///
/// Trusted: formats `PathBuf` of the text with `Debug`; the text is named: it is determined
/// by the path.
#[verifier::external_body]
pub(crate) fn path_debug_of(p: &str) -> (r: String)
    ensures
        r@ == path_debug_text(p@),
{
    format!("{:?}", std::path::PathBuf::from(p))
}

/// Number of numbers in a row from position `i` on.
pub open spec fn index_run(xs: Seq<Seq<char>>, i: int) -> nat
    decreases xs.len() - i,
{
    if 0 <= i < xs.len() && crate::md_eval::types::parse_usize(xs[i]) is Some {
        1 + index_run(xs, i + 1)
    } else {
        0
    }
}

/// Files and their indices from position `i` on: each `.md` file is followed by zero or
/// more numbers, the indices of its snippets to check.
pub open spec fn file_ops_from(xs: Seq<Seq<char>>, i: int) -> Result<Seq<(nat, Seq<usize>)>, Seq<char>>
    decreases xs.len() - i,
{
    if i < 0 || i >= xs.len() {
        Ok(Seq::empty())
    } else if extension_of(xs[i]) != Some("md"@) {
        Err("Expected an .md file, got "@ + path_debug_text(xs[i]))
    } else {
        let k = index_run(xs, i + 1);
        let idx = Seq::new(k, |j: int| crate::md_eval::types::parse_usize(xs[i + 1 + j])->0);
        if i + 1 + k <= xs.len() {
            match file_ops_from(xs, i + 1 + k) {
                Ok(rest) => Ok(seq![(i as nat, idx)] + rest),
                Err(e) => Err(e),
            }
        } else {
            Ok(seq![(i as nat, idx)])
        }
    }
}

/// Files to check and the indices of their snippets, by position among the arguments; at
/// least one file is needed.
pub open spec fn file_set_spec(xs: Seq<Seq<char>>) -> Result<Seq<(nat, Seq<usize>)>, Seq<char>> {
    match file_ops_from(xs, 0) {
        Ok(r) => if r.len() == 0 {
            Err("You need to specify at least one file"@)
        } else {
            Ok(r)
        },
        Err(e) => Err(e),
    }
}

/// The view of what file selection gives.
pub open spec fn file_set_view(r: Result<Vec<(usize, Vec<usize>)>, String>) -> Result<Seq<(nat, Seq<usize>)>, Seq<char>> {
    match r {
        Ok(v) => Ok(v@.map_values(|x: (usize, Vec<usize>)| (x.0 as nat, x.1@))),
        Err(e) => Err(e@),
    }
}

/// A run of numbers ends within the arguments.
proof fn lemma_index_run(xs: Seq<Seq<char>>, i: int)
    requires
        0 <= i,
    ensures
        i + index_run(xs, i) <= if i <= xs.len() {
            xs.len() as int
        } else {
            i
        },
    decreases xs.len() - i,
{
    if 0 <= i < xs.len() && crate::md_eval::types::parse_usize(xs[i]) is Some {
        lemma_index_run(xs, i + 1);
    }
}

/// Reads a list of files, each file followed by zero or more indices: the position of each
/// file among the arguments, with its indices
pub fn file_set(xs: &Vec<String>) -> (r: Result<Vec<(usize, Vec<usize>)>, String>)
    ensures
        file_set_view(r) == file_set_spec(xs@.map_values(|s: String| s@)),
{
    let ghost v = xs@.map_values(|s: String| s@);
    let ghost g = |x: (usize, Vec<usize>)| (x.0 as nat, x.1@);
    let mut res: Vec<(usize, Vec<usize>)> = Vec::new();
    let mut ix: usize = 0;
    while ix < xs.len()
        invariant
            ix <= xs@.len(),
            v == xs@.map_values(|s: String| s@),
            g == (|x: (usize, Vec<usize>)| (x.0 as nat, x.1@)),
            file_ops_from(v, 0) == match file_ops_from(v, ix as int) {
                Ok(rest) => Ok(res@.map_values(g) + rest),
                Err(e) => Err::<Seq<(nat, Seq<usize>)>, Seq<char>>(e),
            },
        decreases xs.len() - ix,
    {
        let file = &xs[ix];
        assert(v[ix as int] == file@);
        let ext = path_extension(file.as_str());
        let is_md = match &ext {
            Some(e) => crate::text::chars_eq(&str_chars(e.as_str()), &str_chars("md")),
            None => false,
        };
        proof {
            reveal_strlit("md");
            if is_md {
                assert(extension_of(v[ix as int]) == Some("md"@));
            } else {
                assert(extension_of(v[ix as int]) != Some("md"@));
            }
        }
        match is_md {
            true => {},
            false => {
                let mut msg = str_chars("Expected an .md file, got ");
                push_str_chars(&mut msg, path_debug_of(file.as_str()).as_str());
                return Err(chars_string(&msg));
            },
        }
        let mut indices: Vec<usize> = Vec::new();
        let mut j: usize = ix + 1;
        let mut done = false;
        proof {
            lemma_index_run(v, ix + 1);
        }
        while j < xs.len() && !done
            invariant
                ix < j <= xs@.len(),
                v == xs@.map_values(|s: String| s@),
                j - (ix + 1) + index_run(v, j as int) == index_run(v, ix + 1),
                done ==> index_run(v, j as int) == 0,
                indices@ == Seq::new((j - (ix + 1)) as nat, |t: int| crate::md_eval::types::parse_usize(v[ix + 1 + t])->0),
            decreases xs.len() - j, if done { 0int } else { 1int },
        {
            assert(v[j as int] == xs@[j as int]@);
            match crate::md_eval::types::parse_usize_exec(xs[j].as_str()) {
                Some(value) => {
                    indices.push(value);
                    j = j + 1;
                    assert(indices@ =~= Seq::new((j - (ix + 1)) as nat, |t: int| crate::md_eval::types::parse_usize(v[ix + 1 + t])->0));
                },
                None => {
                    done = true;
                },
            }
        }
        let ghost k = index_run(v, ix + 1);
        assert(j == ix + 1 + k);
        let ghost before = res@.map_values(g);
        let ghost x = (ix as nat, Seq::new(k, |t: int| crate::md_eval::types::parse_usize(v[ix + 1 + t])->0));
        let ghost i0 = ix as int;
        res.push((ix, indices));
        assert(res@.map_values(g) =~= before.push(x));
        proof {
            assert(file_ops_from(v, i0) == match file_ops_from(v, j as int) {
                Ok(rest) => Ok(seq![x] + rest),
                Err(e) => Err::<Seq<(nat, Seq<usize>)>, Seq<char>>(e),
            });
            match file_ops_from(v, j as int) {
                Ok(rest) => {
                    assert(before + (seq![x] + rest) =~= before.push(x) + rest);
                },
                Err(_) => {},
            }
        }
        ix = j;
    }
    if res.len() == 0 {
        return Err(chars_string(&str_chars("You need to specify at least one file")));
    }
    Ok(res)
}

/// The snippets a file asks to check.
pub open spec fn checked_snippets(md: Md) -> Seq<SpecSnippet> {
    active_snippets(all_snippets(chunks_spec(md.chunks@)), active_set(md.active))
}

/// The snippets of all files, file after file.
pub open spec fn all_checked(mds: Seq<Md>) -> Seq<SpecSnippet>
    decreases mds.len(),
{
    if mds.len() == 0 {
        Seq::empty()
    } else {
        all_checked(mds.drop_last()) + checked_snippets(mds.last())
    }
}

/// The binary each snippet runs, in order.
pub open spec fn snippet_bins(snips: Seq<SpecSnippet>) -> Seq<Seq<char>> {
    snips.map_values(|s: SpecSnippet| first_word(s.prompt))
}

/// `k` is the first position whose binary is not among `known`.
pub open spec fn first_unknown_at(bins: Seq<Seq<char>>, known: Seq<Seq<char>>, k: int) -> bool {
    &&& 0 <= k < bins.len()
    &&& !known.contains(bins[k])
    &&& forall|j: int| 0 <= j < k ==> known.contains(#[trigger] bins[j])
}

proof fn lemma_all_checked_prefix(mds: Seq<Md>, i: int)
    requires
        0 <= i <= mds.len(),
    ensures
        all_checked(mds.take(i)).len() <= all_checked(mds).len(),
        all_checked(mds.take(i)) == all_checked(mds).take(all_checked(mds.take(i)).len() as int),
    decreases mds.len(),
{
    if i == mds.len() {
        assert(mds.take(i) =~= mds);
    } else {
        lemma_all_checked_prefix(mds.drop_last(), i);
        assert(mds.drop_last().take(i) =~= mds.take(i));
        let a = all_checked(mds.drop_last());
        let p = all_checked(mds.take(i));
        assert(all_checked(mds) == a + checked_snippets(mds.last()));
        assert((a + checked_snippets(mds.last())).take(p.len() as int) =~= a.take(p.len() as int));
    }
}

fn is_known(b: &String, known: &Vec<String>) -> (r: bool)
    ensures
        r == strings_view(known@).contains(b@),
{
    let mut k: usize = 0;
    while k < known.len()
        invariant
            k <= known@.len(),
            forall|j: int| 0 <= j < k ==> known@[j]@ != b@,
        decreases known.len() - k,
    {
        if known[k] == *b {
            assert(strings_view(known@)[k as int] == b@);
            return true;
        }
        k = k + 1;
    }
    assert forall|j: int| 0 <= j < strings_view(known@).len() implies strings_view(known@)[j] != b@ by {
        assert(known@[j]@ != b@);
    }
    false
}

/// The binaries the snippets of `mds` run, in order, failing on the first one that is not
/// among `known`
pub fn required_binaries(mds: &Vec<Md>, known: &Vec<String>) -> (r: Result<Vec<String>, String>)
    ensures
        match r {
            Ok(v) => strings_view(v@) == snippet_bins(all_checked(mds@)) && forall|k: int|
                0 <= k < snippet_bins(all_checked(mds@)).len() ==> strings_view(known@).contains(
                    #[trigger] snippet_bins(all_checked(mds@))[k],
                ),
            Err(b) => exists|k: int|
                first_unknown_at(snippet_bins(all_checked(mds@)), strings_view(known@), k)
                    && snippet_bins(all_checked(mds@))[k] == b@,
        },
{
    let ghost kv = strings_view(known@);
    let mut out: Vec<String> = Vec::new();
    let mut i: usize = 0;
    assert(mds@.take(0) =~= Seq::<Md>::empty());
    assert(strings_view(out@) =~= snippet_bins(all_checked(mds@.take(0))));
    while i < mds.len()
        invariant
            i <= mds@.len(),
            kv == strings_view(known@),
            strings_view(out@) == snippet_bins(all_checked(mds@.take(i as int))),
            forall|k: int| 0 <= k < out@.len() ==> kv.contains(#[trigger] strings_view(out@)[k]),
        decreases mds.len() - i,
    {
        let snips = mds[i].snippets();
        let ghost sv = snips@.map_values(|s: &Snippet| s.spec());
        let ghost base = strings_view(out@);
        assert(sv == checked_snippets(mds@[i as int]));
        let mut j: usize = 0;
        assert(strings_view(out@) =~= base + snippet_bins(sv.take(0)));
        while j < snips.len()
            invariant
                i < mds@.len(),
                j <= snips@.len(),
                kv == strings_view(known@),
                sv == snips@.map_values(|s: &Snippet| s.spec()),
                sv == checked_snippets(mds@[i as int]),
                base == snippet_bins(all_checked(mds@.take(i as int))),
                strings_view(out@) == base + snippet_bins(sv.take(j as int)),
                forall|k: int| 0 <= k < out@.len() ==> kv.contains(#[trigger] strings_view(out@)[k]),
            decreases snips.len() - j,
        {
            let b = snips[j].bin();
            assert(b@ == first_word(sv[j as int].prompt));
            if !is_known(&b, known) {
                proof {
                    let all = all_checked(mds@);
                    let bins = snippet_bins(all);
                    let k = out@.len() as int;
                    assert(mds@.take(i + 1).drop_last() =~= mds@.take(i as int));
                    assert(all_checked(mds@.take(i + 1)) == all_checked(mds@.take(i as int)) + sv);
                    lemma_all_checked_prefix(mds@, i + 1);
                    let pre = all_checked(mds@.take(i + 1));
                    let pre0 = all_checked(mds@.take(i as int));
                    assert(strings_view(out@).len() == out@.len());
                    assert(snippet_bins(pre0).len() == pre0.len());
                    assert(snippet_bins(sv.take(j as int)).len() == j);
                    assert(k == pre0.len() + j);
                    assert(pre[k] == sv[j as int]);
                    assert(all[k] == pre[k]);
                    assert(bins[k] == b@);
                    assert forall|jj: int| 0 <= jj < k implies kv.contains(#[trigger] bins[jj]) by {
                        assert(all[jj] == pre[jj]);
                        if jj < pre0.len() {
                            assert(pre[jj] == pre0[jj]);
                            assert(strings_view(out@)[jj] == snippet_bins(pre0)[jj]);
                        } else {
                            assert(pre[jj] == sv[jj - pre0.len()]);
                            assert(strings_view(out@)[jj] == snippet_bins(sv.take(j as int))[jj - pre0.len()]);
                        }
                        assert(bins[jj] == strings_view(out@)[jj]);
                    }
                    assert(first_unknown_at(bins, kv, k));
                }
                return Err(b);
            }
            let ghost before = strings_view(out@);
            out.push(b);
            assert(strings_view(out@) =~= before.push(b@));
            assert(sv.take(j + 1) =~= sv.take(j as int).push(sv[j as int]));
            assert(snippet_bins(sv.take(j + 1)) =~= snippet_bins(sv.take(j as int)).push(b@));
            assert(strings_view(out@) =~= base + snippet_bins(sv.take(j + 1)));
            j = j + 1;
        }
        assert(sv.take(j as int) =~= sv);
        assert(mds@.take(i + 1).drop_last() =~= mds@.take(i as int));
        assert(snippet_bins(all_checked(mds@.take(i + 1))) =~= base + snippet_bins(sv));
        i = i + 1;
    }
    assert(mds@.take(i as int) =~= mds@);
    Ok(out)
}

} // verus!
