//! The environment a shell runs in for a test: the files written into its temporary home,
//! the search path and the environment variables of the shell process.

use crate::satis::config::Shell;
use crate::text::{chars_string, push_str_chars, str_bytes, str_chars, utf8_encode};
use vstd::prelude::*;

verus! {

/// Bash completion support, sourced by the bash configuration
pub const BASH_COMP: &'static str = "/usr/share/bash-completion/bash_completion";

/// Name of the shell's executable
pub open spec fn exe_text(shell: Shell) -> Seq<char> {
    match shell {
        Shell::Bash => "bash"@,
        Shell::Zsh => "zsh"@,
        Shell::Fish => "fish"@,
    }
}

impl Shell {
    /// Name of the shell's executable
    pub fn exe(self) -> (r: &'static str)
        ensures
            r@ == exe_text(self),
    {
        match self {
            Shell::Bash => "bash",
            Shell::Zsh => "zsh",
            Shell::Fish => "fish",
        }
    }

    /// Prefix of the temporary home directory of the shell
    pub fn tempdir_prefix(self) -> (r: String)
        ensures
            r@ == "shell-tester-"@ + exe_text(self),
    {
        let mut v: Vec<char> = Vec::new();
        push_str_chars(&mut v, "shell-tester-");
        push_str_chars(&mut v, self.exe());
        chars_string(&v)
    }
}

/// Search path of the shell: the directory with the binary first, then the current search
/// path, if there is one.
pub open spec fn search_path_bytes(binary_dir: Seq<u8>, current: Option<Seq<u8>>) -> Seq<u8> {
    match current {
        Some(cur) => binary_dir + seq![58u8] + cur,
        None => binary_dir,
    }
}

/// Search path of the shell, as the bytes of an OS string
pub fn search_path(binary_dir: &[u8], current: Option<&[u8]>) -> (r: Vec<u8>)
    ensures
        r@ == search_path_bytes(binary_dir@, match current {
            Some(c) => Some(c@),
            None => None,
        }),
{
    let mut r = crate::text::copy_bytes(binary_dir, 0, binary_dir.len());
    assert(binary_dir@.subrange(0, binary_dir@.len() as int) =~= binary_dir@);
    if let Some(cur) = current {
        let ghost r0 = r@;
        r.push(58u8);
        let mut i: usize = 0;
        while i < cur.len()
            invariant
                i <= cur@.len(),
                r@ == r0 + seq![58u8] + cur@.take(i as int),
            decreases cur.len() - i,
        {
            r.push(cur[i]);
            i = i + 1;
            assert(r@ =~= r0 + seq![58u8] + cur@.take(i as int));
        }
        assert(cur@.take(cur@.len() as int) =~= cur@);
    }
    r
}

/// Something to create in the temporary home: a directory, with its parents, or a file
/// with its contents; paths are given by their components, relative to the home
#[derive(Debug, Clone)]
pub enum EnvEntry {
    Dir(Vec<String>),
    File(Vec<String>, Vec<u8>),
}

/// Mathematical form of an [`EnvEntry`]
pub enum EntryView {
    Dir(Seq<Seq<char>>),
    File(Seq<Seq<char>>, Seq<u8>),
}

impl View for EnvEntry {
    type V = EntryView;

    open spec fn view(&self) -> EntryView {
        match self {
            EnvEntry::Dir(p) => EntryView::Dir(p@.map_values(|s: String| s@)),
            EnvEntry::File(p, c) => EntryView::File(p@.map_values(|s: String| s@), c@),
        }
    }
}

/// Bash configuration before the completion script
pub open spec fn bashrc_head() -> Seq<char> {
    ". "@ + BASH_COMP@ + "\n"@
}

/// Zsh configuration
pub const ZSHRC: &'static str = "fpath=($fpath $HOME/.zsh)\nautoload -U +X compinit && compinit -i\nbindkey '^I' expand-or-complete-prefix\n";

/// Fish configuration
pub const FISH_CONFIG: &'static str = "fish_config theme choose None\nset -U fish_greeting \"\"\nfunction fish_title\nend\nfunction fish_prompt\n    printf 'fish> '\nend\n";

/// What is created in the temporary home, in order: the configuration of the shell, which
/// loads the completion script `script` of the binary `app`; for bash the script goes into
/// the configuration, followed by `to_config`.
pub open spec fn env_entries(shell: Shell, app: Seq<char>, script: Seq<u8>, to_config: Seq<char>) -> Seq<EntryView> {
    match shell {
        Shell::Bash => seq![
            EntryView::File(seq![".bashrc"@], utf8_encode(bashrc_head()) + script + utf8_encode(to_config + "\n"@)),
            EntryView::File(seq![".inputrc"@], Seq::empty()),
        ],
        Shell::Zsh => seq![
            EntryView::File(seq![".zshrc"@], utf8_encode(ZSHRC@)),
            EntryView::Dir(seq![".zsh"@]),
            EntryView::File(seq![".zsh"@, "_"@ + app], script),
        ],
        Shell::Fish => seq![
            EntryView::Dir(seq!["fish"@, "completions"@]),
            EntryView::File(seq!["fish"@, "config.fish"@], utf8_encode(FISH_CONFIG@)),
            EntryView::File(seq!["fish"@, "completions"@, app + ".fish"@], script),
        ],
    }
}

/// The views of the entries.
pub open spec fn entries_view(v: Seq<EnvEntry>) -> Seq<EntryView> {
    v.map_values(|e: EnvEntry| e@)
}

fn text(s: &str) -> (r: String)
    ensures
        r@ == s@,
{
    let v = str_chars(s);
    chars_string(&v)
}

fn joined(a: &str, b: &str) -> (r: String)
    ensures
        r@ == a@ + b@,
{
    let mut v: Vec<char> = Vec::new();
    push_str_chars(&mut v, a);
    push_str_chars(&mut v, b);
    chars_string(&v)
}

fn path1(a: &str) -> (r: Vec<String>)
    ensures
        r@.map_values(|s: String| s@) == seq![a@],
{
    let mut r: Vec<String> = Vec::new();
    r.push(text(a));
    assert(r@.map_values(|s: String| s@) =~= seq![a@]);
    r
}

fn path2(a: &str, b: String) -> (r: Vec<String>)
    ensures
        r@.map_values(|s: String| s@) == seq![a@, b@],
{
    let mut r: Vec<String> = Vec::new();
    r.push(text(a));
    r.push(b);
    assert(r@.map_values(|s: String| s@) =~= seq![a@, b@]);
    r
}

fn path3(a: &str, b: &str, c: String) -> (r: Vec<String>)
    ensures
        r@.map_values(|s: String| s@) == seq![a@, b@, c@],
{
    let mut r: Vec<String> = Vec::new();
    r.push(text(a));
    r.push(text(b));
    r.push(c);
    assert(r@.map_values(|s: String| s@) =~= seq![a@, b@, c@]);
    r
}

fn append(out: &mut Vec<u8>, b: &[u8])
    ensures
        final(out)@ == old(out)@ + b@,
{
    let mut i: usize = 0;
    while i < b.len()
        invariant
            i <= b@.len(),
            out@ == old(out)@ + b@.take(i as int),
        decreases b.len() - i,
    {
        out.push(b[i]);
        i = i + 1;
        assert(out@ =~= old(out)@ + b@.take(i as int));
    }
    assert(b@.take(b@.len() as int) =~= b@);
}

impl Shell {
    /// What to create in the temporary home of the shell so that it loads the completion
    /// script `script` of the binary `app`
    pub fn env_files(self, app: &str, script: &[u8], to_config: &str) -> (r: Vec<EnvEntry>)
        ensures
            entries_view(r@) == env_entries(self, app@, script@, to_config@),
    {
        let mut r: Vec<EnvEntry> = Vec::new();
        let s = crate::text::copy_bytes(script, 0, script.len());
        assert(script@.subrange(0, script@.len() as int) =~= script@);
        match self {
            Shell::Bash => {
                let mut head: Vec<char> = Vec::new();
                push_str_chars(&mut head, ". ");
                push_str_chars(&mut head, BASH_COMP);
                push_str_chars(&mut head, "\n");
                let head_s = chars_string(&head);
                let mut rc = str_bytes(head_s.as_str());
                append(&mut rc, s.as_slice());
                let tail = joined(to_config, "\n");
                let tail_b = str_bytes(tail.as_str());
                append(&mut rc, tail_b.as_slice());
                r.push(EnvEntry::File(path1(".bashrc"), rc));
                r.push(EnvEntry::File(path1(".inputrc"), Vec::new()));
            },
            Shell::Zsh => {
                r.push(EnvEntry::File(path1(".zshrc"), str_bytes(ZSHRC)));
                r.push(EnvEntry::Dir(path1(".zsh")));
                r.push(EnvEntry::File(path2(".zsh", joined("_", app)), s));
            },
            Shell::Fish => {
                r.push(EnvEntry::Dir(path2("fish", text("completions"))));
                r.push(EnvEntry::File(path2("fish", text("config.fish")), str_bytes(FISH_CONFIG)));
                r.push(EnvEntry::File(path3("fish", "completions", joined(app, ".fish")), s));
            },
        }
        assert(entries_view(r@) =~= env_entries(self, app@, script@, to_config@));
        r
    }
}

/// Value of an environment variable of the shell process
#[derive(Debug, Clone)]
pub enum EnvValue {
    /// Given text
    Text(String),
    /// The search path of the shell
    SearchPath,
    /// The temporary home
    Home,
}

/// Mathematical form of an [`EnvValue`]
pub enum EnvValueView {
    Text(Seq<char>),
    SearchPath,
    Home,
}

/// The view of a variable and its value.
pub open spec fn var_view(v: (String, EnvValue)) -> (Seq<char>, EnvValueView) {
    (
        v.0@,
        match v.1 {
            EnvValue::Text(t) => EnvValueView::Text(t@),
            EnvValue::SearchPath => EnvValueView::SearchPath,
            EnvValue::Home => EnvValueView::Home,
        },
    )
}

/// Environment of the shell process, which starts from nothing: terminal, locale, search
/// path, home, and the prompt or the configuration directory of the shell.
pub open spec fn shell_env_spec(shell: Shell) -> Seq<(Seq<char>, EnvValueView)> {
    seq![
        ("TERM"@, EnvValueView::Text("xterm"@)),
        ("LC_ALL"@, EnvValueView::Text("en_US.UTF-8"@)),
        ("PATH"@, EnvValueView::SearchPath),
        ("HOME"@, EnvValueView::Home),
        match shell {
            Shell::Bash => ("PS1"@, EnvValueView::Text("bash$ "@)),
            Shell::Zsh => ("PS1"@, EnvValueView::Text("zsh%% "@)),
            Shell::Fish => ("XDG_CONFIG_HOME"@, EnvValueView::Home),
        },
    ]
}

impl Shell {
    /// Environment variables of the shell process, in the order they are set
    pub fn shell_env(self) -> (r: Vec<(String, EnvValue)>)
        ensures
            r@.map_values(|x: (String, EnvValue)| var_view(x)) == shell_env_spec(self),
    {
        let mut r: Vec<(String, EnvValue)> = Vec::new();
        r.push((text("TERM"), EnvValue::Text(text("xterm"))));
        r.push((text("LC_ALL"), EnvValue::Text(text("en_US.UTF-8"))));
        r.push((text("PATH"), EnvValue::SearchPath));
        r.push((text("HOME"), EnvValue::Home));
        match self {
            Shell::Bash => r.push((text("PS1"), EnvValue::Text(text("bash$ ")))),
            Shell::Zsh => r.push((text("PS1"), EnvValue::Text(text("zsh%% ")))),
            Shell::Fish => r.push((text("XDG_CONFIG_HOME"), EnvValue::Home)),
        }
        assert(r@.map_values(|x: (String, EnvValue)| var_view(x)) =~= shell_env_spec(self));
        r
    }
}

} // verus!
