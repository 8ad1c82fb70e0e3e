//! Rendering of completion suggestions for each supported shell.

use crate::complete_gen::{opt_view, ShellComp, ShowComp, ShowView};
use crate::text::{chars_string, pad_to, push_chars, push_padded, push_str_chars, starts_with, str_chars};
use vstd::prelude::*;

verus! {

/// How `format!("{:?}", s)` writes a string slice: quoted, with special characters
/// escaped.
pub uninterp spec fn debug_escaped(s: Seq<char>) -> Seq<char>;

/// The `Debug` form of a string slice.
///
/// Trusted: calls `<str as Debug>::fmt` through `format!`; nothing is claimed of the result
/// beyond it being determined by the characters of `s`.
#[verifier::external_body]
pub(crate) fn debug_str(s: &str) -> (r: String)
    ensures
        r@ == debug_escaped(s@),
{
    format!("{:?}", s)
}

/// Characters of `s` with every `'` written as `'\''`.
pub open spec fn quote_body(s: Seq<char>) -> Seq<char>
    decreases s.len(),
{
    if s.len() == 0 {
        Seq::empty()
    } else {
        quote_body(s.drop_last()) + if s.last() == '\'' {
            "'\\''"@
        } else {
            seq![s.last()]
        }
    }
}

/// `s` as a single-quoted shell word.
pub open spec fn shell_quote(s: Seq<char>) -> Seq<char> {
    seq!['\''] + quote_body(s) + seq!['\'']
}

/// Appends `s` as a single-quoted shell word.
pub fn push_quoted(out: &mut Vec<char>, s: &str)
    ensures
        final(out)@ == old(out)@ + shell_quote(s@),
{
    let v = str_chars(s);
    out.push('\'');
    let ghost base = out@;
    let mut i: usize = 0;
    while i < v.len()
        invariant
            i <= v@.len(),
            v@ == s@,
            base == old(out)@ + seq!['\''],
            out@ == base + quote_body(v@.take(i as int)),
        decreases v.len() - i,
    {
        let c = v[i];
        proof {
            assert(v@.take(i + 1).drop_last() =~= v@.take(i as int));
        }
        if c == '\'' {
            push_str_chars(out, "'\\''");
        } else {
            out.push(c);
        }
        i = i + 1;
        assert(out@ =~= base + quote_body(v@.take(i as int)));
    }
    out.push('\'');
    assert(v@.take(v@.len() as int) =~= v@);
    assert(out@ =~= old(out)@ + shell_quote(s@));
}

/// How a suggestion is shown next to its help.
pub open spec fn show_text(item: ShowView) -> Seq<char> {
    match item.extra.help {
        Some(h) => if item.subst.len() == 0 {
            item.pretty + ": "@ + h
        } else {
            pad_to(item.pretty, 24) + " -- "@ + h
        },
        None => item.pretty,
    }
}

/// Appends how `item` is shown.
pub fn push_show(out: &mut Vec<char>, item: &ShowComp)
    ensures
        final(out)@ == old(out)@ + show_text(item@),
{
    match &item.extra.help {
        Some(h) => {
            if item.subst.as_str().is_empty() {
                push_str_chars(out, item.pretty.as_str());
                push_str_chars(out, ": ");
                push_str_chars(out, h.as_str());
            } else {
                let p = str_chars(item.pretty.as_str());
                push_padded(out, &p, 24);
                push_str_chars(out, " -- ");
                push_str_chars(out, h.as_str());
            }
        },
        None => {
            push_str_chars(out, item.pretty.as_str());
        },
    }
    assert(out@ =~= old(out)@ + show_text(item@));
}

/// The views of a list of suggestions.
pub open spec fn views(items: Seq<ShowComp>) -> Seq<ShowView> {
    items.map_values(|s: ShowComp| s@)
}

/// Zsh commands for the shell completions.
pub open spec fn zsh_ops(ops: Seq<ShellComp>) -> Seq<char>
    decreases ops.len(),
{
    if ops.len() == 0 {
        Seq::empty()
    } else {
        zsh_ops(ops.drop_last()) + match ops.last() {
            ShellComp::File { mask: None } => "_files\n"@,
            ShellComp::File { mask: Some(m) } => "_files -g "@ + shell_quote(m@) + "\n"@,
            ShellComp::Dir { mask: None } => "_files -/\n"@,
            ShellComp::Dir { mask: Some(m) } => "_files -/ -g "@ + shell_quote(m@) + "\n"@,
            ShellComp::Raw { zsh, .. } => zsh@ + "\n"@,
            ShellComp::Nothing => Seq::empty(),
        }
    }
}

/// Zsh commands adding each suggestion.
pub open spec fn zsh_items(items: Seq<ShowView>) -> Seq<char>
    decreases items.len(),
{
    if items.len() == 0 {
        Seq::empty()
    } else {
        let item = items.last();
        zsh_items(items.drop_last()) + "descr=("@ + shell_quote(show_text(item)) + ")\n"@ + match item.extra.group {
            Some(g) => "compadd -l -d descr -V "@ + shell_quote(g) + " -X "@ + shell_quote(g)
                + " -- "@ + shell_quote(item.subst) + "\n"@,
            None => "compadd -l -V nosort -d descr -- "@ + shell_quote(item.subst) + "\n"@,
        }
    }
}

/// Zsh completion script output.
pub open spec fn zsh_output(items: Seq<ShowView>, ops: Seq<ShellComp>, full_lit: Seq<char>) -> Seq<
    char,
> {
    if items.len() == 0 && ops.len() == 0 {
        "compadd -- "@ + full_lit + "\n"@
    } else if items.len() == 1 {
        if items[0].subst.len() == 0 {
            zsh_ops(ops) + "compadd -- "@ + shell_quote(items[0].pretty) + "\n"@ + "compadd ''\n"@
        } else {
            "compadd -- "@ + shell_quote(items[0].subst) + "\n"@
        }
    } else {
        zsh_ops(ops) + "local -a descr\n"@ + zsh_items(items)
    }
}

/// The commands of the first `m` completions come first in those of all of them.
proof fn lemma_zsh_ops_prefix(ops: Seq<ShellComp>, m: int)
    requires
        0 <= m <= ops.len(),
    ensures
        zsh_ops(ops.take(m)).len() <= zsh_ops(ops).len(),
        zsh_ops(ops).take(zsh_ops(ops.take(m)).len() as int) == zsh_ops(ops.take(m)),
    decreases ops.len() - m,
{
    if m == ops.len() {
        assert(ops.take(m) =~= ops);
    } else {
        lemma_zsh_ops_prefix(ops.drop_last(), m);
        assert(ops.drop_last().take(m) =~= ops.take(m));
        let a = zsh_ops(ops.drop_last());
        let n = zsh_ops(ops.take(m)).len() as int;
        assert(zsh_ops(ops).take(n) =~= a.take(n));
    }
}

/// Zsh commands for one shell completion.
spec fn zsh_op(op: ShellComp) -> Seq<char> {
    match op {
        ShellComp::File { mask: None } => "_files\n"@,
        ShellComp::File { mask: Some(m) } => "_files -g "@ + shell_quote(m@) + "\n"@,
        ShellComp::Dir { mask: None } => "_files -/\n"@,
        ShellComp::Dir { mask: Some(m) } => "_files -/ -g "@ + shell_quote(m@) + "\n"@,
        ShellComp::Raw { zsh, .. } => zsh@ + "\n"@,
        ShellComp::Nothing => Seq::empty(),
    }
}

/// The commands of the `k`th completion stand in the zsh script where those of the
/// earlier ones end.
#[verifier::spinoff_prover]
proof fn lemma_zsh_op_at(items: Seq<ShowView>, ops: Seq<ShellComp>, full_lit: Seq<char>, k: int)
    requires
        0 <= k < ops.len(),
        items.len() != 1 || items[0].subst.len() == 0,
    ensures
        ({
            let out = zsh_output(items, ops, full_lit);
            let p = zsh_ops(ops.take(k)).len() as int;
            &&& zsh_ops(ops.take(k + 1)) == zsh_ops(ops.take(k)) + zsh_op(ops[k])
            &&& p + zsh_op(ops[k]).len() <= out.len()
            &&& out.subrange(p, p + zsh_op(ops[k]).len()) == zsh_op(ops[k])
        }),
{
    let out = zsh_output(items, ops, full_lit);
    let all = zsh_ops(ops);
    let p = zsh_ops(ops.take(k)).len() as int;
    lemma_zsh_ops_prefix(ops, k + 1);
    let t1 = ops.take(k + 1);
    assert(t1.drop_last() =~= ops.take(k));
    assert(t1.last() == ops[k]);
    let q = zsh_ops(t1);
    assert(q == zsh_ops(ops.take(k)) + zsh_op(ops[k]));
    assert(all.take(q.len() as int) == q);
    assert(out.take(all.len() as int) =~= all) by {
        if items.len() == 1 {
            assert(out == all + "compadd -- "@ + shell_quote(items[0].pretty) + "\n"@ + "compadd ''\n"@);
        } else {
            assert(out == all + "local -a descr\n"@ + zsh_items(items));
        }
    }
    let piece = zsh_op(ops[k]);
    assert(out.subrange(p, q.len() as int) =~= piece) by {
        assert forall|j: int| 0 <= j < piece.len() implies out.subrange(p, q.len() as int)[j] == #[trigger] piece[j] by {
            assert(out[p + j] == out.take(all.len() as int)[p + j]);
            assert(all[p + j] == all.take(q.len() as int)[p + j]);
            assert(q[p + j] == piece[j]);
        }
    }
}

/// The zsh script runs the commands of the completions in order, the `k`th starting where
/// those of the earlier ones end: a directory completion calls `_files -/`, directories
/// only; a file completion calls `_files` without `-/`; a mask follows `-g`, quoted; a raw
/// completion gives its zsh text on a line of its own; an empty one gives nothing.
#[verifier::spinoff_prover]
pub proof fn law_zsh_completion_commands(items: Seq<ShowView>, ops: Seq<ShellComp>, full_lit: Seq<char>, k: int)
    requires
        0 <= k < ops.len(),
        items.len() != 1 || items[0].subst.len() == 0,
    ensures
        ({
            let out = zsh_output(items, ops, full_lit);
            let p = zsh_ops(ops.take(k)).len() as int;
            &&& ops[k] is Dir ==> out.subrange(p, p + 9) == "_files -/"@
            &&& ops[k] is File ==> out.subrange(p, p + 6) == "_files"@ && (out[p + 6] == '\n'
                || out.subrange(p + 6, p + 10) == " -g "@)
            &&& ops[k] == (ShellComp::File { mask: None }) ==> out.subrange(p, p + 7) == "_files\n"@
            &&& ops[k] == (ShellComp::Dir { mask: None }) ==> out.subrange(p, p + 10) == "_files -/\n"@
            &&& ops[k] matches ShellComp::File { mask: Some(m) } ==> out.subrange(p, p + 10) == "_files -g "@
                && out.subrange(p + 10, p + 11 + shell_quote(m@).len()) == shell_quote(m@).push('\n')
            &&& ops[k] matches ShellComp::Dir { mask: Some(m) } ==> out.subrange(p, p + 13) == "_files -/ -g "@
                && out.subrange(p + 13, p + 14 + shell_quote(m@).len()) == shell_quote(m@).push('\n')
            &&& ops[k] matches ShellComp::Raw { zsh, .. } ==> out.subrange(p, p + zsh@.len() + 1) == zsh@.push('\n')
            &&& ops[k] is Nothing ==> zsh_ops(ops.take(k + 1)).len() == p
        }),
{
    lemma_zsh_op_at(items, ops, full_lit, k);
    let out = zsh_output(items, ops, full_lit);
    let p = zsh_ops(ops.take(k)).len() as int;
    let piece = zsh_op(ops[k]);
    let at = out.subrange(p, p + piece.len());
    match ops[k] {
        ShellComp::Dir { mask: None } => {
            reveal_strlit("_files -/\n");
            reveal_strlit("_files -/");
            assert(out.subrange(p, p + 9) =~= at.take(9));
            assert(at.take(9) =~= "_files -/"@);
        },
        ShellComp::Dir { mask: Some(m) } => {
            reveal_strlit("_files -/ -g ");
            reveal_strlit("_files -/");
            reveal_strlit("\n");
            let qm = shell_quote(m@);
            assert(out.subrange(p, p + 9) =~= at.take(9));
            assert(at.take(9) =~= "_files -/"@);
            assert(out.subrange(p, p + 13) =~= at.take(13));
            assert(at.take(13) =~= "_files -/ -g "@);
            assert(out.subrange(p + 13, p + 14 + qm.len()) =~= at.skip(13));
            assert(at.skip(13) =~= qm.push('\n'));
        },
        ShellComp::File { mask: None } => {
            reveal_strlit("_files\n");
            reveal_strlit("_files");
            assert(out.subrange(p, p + 6) =~= at.take(6));
            assert(at.take(6) =~= "_files"@);
            assert(out[p + 6] == at[6]);
        },
        ShellComp::File { mask: Some(m) } => {
            reveal_strlit("_files -g ");
            reveal_strlit("_files");
            reveal_strlit(" -g ");
            reveal_strlit("\n");
            let qm = shell_quote(m@);
            assert(out.subrange(p, p + 6) =~= at.take(6));
            assert(at.take(6) =~= "_files"@);
            assert(out.subrange(p + 6, p + 10) =~= at.subrange(6, 10));
            assert(at.subrange(6, 10) =~= " -g "@);
            assert(out.subrange(p, p + 10) =~= at.take(10));
            assert(at.take(10) =~= "_files -g "@);
            assert(out.subrange(p + 10, p + 11 + qm.len()) =~= at.skip(10));
            assert(at.skip(10) =~= qm.push('\n'));
        },
        ShellComp::Raw { zsh, .. } => {
            reveal_strlit("\n");
            assert(at =~= zsh@.push('\n'));
        },
        ShellComp::Nothing => {},
    }
}

fn push_opt_quoted(out: &mut Vec<char>, s: &str)
    ensures
        final(out)@ == old(out)@ + shell_quote(s@),
{
    push_quoted(out, s);
}

fn zsh_ops_exec(out: &mut Vec<char>, ops: &Vec<ShellComp>)
    ensures
        final(out)@ == old(out)@ + zsh_ops(ops@),
{
    let mut i: usize = 0;
    while i < ops.len()
        invariant
            i <= ops@.len(),
            out@ == old(out)@ + zsh_ops(ops@.take(i as int)),
        decreases ops.len() - i,
    {
        let ghost before = out@;
        proof {
            assert(ops@.take(i + 1).drop_last() =~= ops@.take(i as int));
        }
        match ops[i] {
            ShellComp::File { mask: None } => push_str_chars(out, "_files\n"),
            ShellComp::File { mask: Some(mask) } => {
                push_str_chars(out, "_files -g ");
                push_opt_quoted(out, mask);
                push_str_chars(out, "\n");
            },
            ShellComp::Dir { mask: None } => push_str_chars(out, "_files -/\n"),
            ShellComp::Dir { mask: Some(mask) } => {
                push_str_chars(out, "_files -/ -g ");
                push_opt_quoted(out, mask);
                push_str_chars(out, "\n");
            },
            ShellComp::Raw { zsh, .. } => {
                push_str_chars(out, zsh);
                push_str_chars(out, "\n");
            },
            ShellComp::Nothing => {},
        }
        i = i + 1;
        assert(out@ =~= old(out)@ + zsh_ops(ops@.take(i as int)));
    }
    assert(ops@.take(ops@.len() as int) =~= ops@);
}

/// Completion output for zsh
pub fn render_zsh(items: &Vec<ShowComp>, ops: &Vec<ShellComp>, full_lit: &str) -> (r: String)
    ensures
        r@ == zsh_output(views(items@), ops@, full_lit@),
{
    let mut res: Vec<char> = Vec::new();
    if items.len() == 0 && ops.len() == 0 {
        push_str_chars(&mut res, "compadd -- ");
        push_str_chars(&mut res, full_lit);
        push_str_chars(&mut res, "\n");
        return chars_string(&res);
    }
    if items.len() == 1 {
        if items[0].subst.as_str().is_empty() {
            zsh_ops_exec(&mut res, ops);
            push_str_chars(&mut res, "compadd -- ");
            push_quoted(&mut res, items[0].pretty.as_str());
            push_str_chars(&mut res, "\n");
            push_str_chars(&mut res, "compadd ''\n");
            return chars_string(&res);
        } else {
            push_str_chars(&mut res, "compadd -- ");
            push_quoted(&mut res, items[0].subst.as_str());
            push_str_chars(&mut res, "\n");
            return chars_string(&res);
        }
    }
    zsh_ops_exec(&mut res, ops);
    push_str_chars(&mut res, "local -a descr\n");
    let ghost base = res@;
    let mut i: usize = 0;
    while i < items.len()
        invariant
            i <= items@.len(),
            res@ == base + zsh_items(views(items@.take(i as int))),
        decreases items.len() - i,
    {
        let item = &items[i];
        proof {
            assert(views(items@.take(i + 1)).drop_last() =~= views(items@.take(i as int)));
            assert(views(items@.take(i + 1)).last() == item@);
        }
        let ghost before = res@;
        push_str_chars(&mut res, "descr=(");
        let mut shown: Vec<char> = Vec::new();
        push_show(&mut shown, item);
        let shown_s = chars_string(&shown);
        push_quoted(&mut res, shown_s.as_str());
        push_str_chars(&mut res, ")\n");
        match &item.extra.group {
            Some(group) => {
                push_str_chars(&mut res, "compadd -l -d descr -V ");
                push_quoted(&mut res, group.as_str());
                push_str_chars(&mut res, " -X ");
                push_quoted(&mut res, group.as_str());
                push_str_chars(&mut res, " -- ");
                push_quoted(&mut res, item.subst.as_str());
                push_str_chars(&mut res, "\n");
            },
            None => {
                push_str_chars(&mut res, "compadd -l -V nosort -d descr -- ");
                push_quoted(&mut res, item.subst.as_str());
                push_str_chars(&mut res, "\n");
            },
        }
        i = i + 1;
        assert(res@ =~= base + zsh_items(views(items@.take(i as int))));
    }
    assert(items@.take(items@.len() as int) =~= items@);
    chars_string(&res)
}

/// Bash glob for a file mask: without a leading `*.`, and `@(...)` for alternatives.
pub open spec fn bash_mask(m: Seq<char>) -> Seq<char> {
    let i = if starts_with(m, "*."@) {
        m.skip(2)
    } else {
        m
    };
    if i.len() > 0 && i[0] == '(' {
        seq!['@'] + i
    } else {
        i
    }
}

fn bashmask(m: &str) -> (r: String)
    ensures
        r@ == bash_mask(m@),
{
    let v = str_chars(m);
    proof {
        reveal_strlit("*.");
    }
    let starts = v.len() >= 2 && v[0] == '*' && v[1] == '.';
    assert(starts == starts_with(v@, "*."@)) by {
        if v@.len() >= 2 {
            assert(v@.subrange(0, 2)[0] == v@[0]);
            assert(v@.subrange(0, 2)[1] == v@[1]);
            if v@[0] == '*' && v@[1] == '.' {
                assert(v@.subrange(0, 2) =~= "*."@);
            }
        }
    }
    let i = if starts {
        crate::text::chars_skip(&v, 2)
    } else {
        crate::text::chars_skip(&v, 0)
    };
    assert(v@.skip(0) =~= v@);
    let mut out: Vec<char> = Vec::new();
    if i.len() > 0 && i[0] == '(' {
        out.push('@');
    }
    push_chars(&mut out, &i);
    assert(out@ =~= bash_mask(m@));
    chars_string(&out)
}

/// Bash command preparing file completion.
pub open spec fn bash_init() -> Seq<char> {
    "local cur prev words cword ; _init_completion || return ;"@
}

/// Bash commands for the shell completions.
pub open spec fn bash_ops(ops: Seq<ShellComp>) -> Seq<char>
    decreases ops.len(),
{
    if ops.len() == 0 {
        Seq::empty()
    } else {
        bash_ops(ops.drop_last()) + match ops.last() {
            ShellComp::File { mask: None } => bash_init() + " _filedir"@,
            ShellComp::File { mask: Some(m) } => bash_init() + " _filedir "@ + shell_quote(
                bash_mask(m@),
            ) + "\n"@,
            ShellComp::Dir { mask: None } => bash_init() + " _filedir -d"@,
            ShellComp::Dir { mask: Some(m) } => bash_init() + " _filedir -d "@ + shell_quote(
                bash_mask(m@),
            ) + "\n"@,
            ShellComp::Raw { bash, .. } => bash@ + "\n"@,
            ShellComp::Nothing => Seq::empty(),
        }
    }
}

/// Bash lines for each suggestion; a group name is written once before its first member,
/// `prev` being the last group written.
pub open spec fn bash_items(items: Seq<ShowView>, prev: Seq<char>) -> Seq<char>
    decreases items.len(),
{
    if items.len() == 0 {
        Seq::empty()
    } else {
        let item = items[0];
        let (head, next) = match item.extra.group {
            Some(g) => if prev != g {
                ("COMPREPLY+=("@ + shell_quote(g) + ")\n"@, g)
            } else {
                (Seq::empty(), prev)
            },
            None => (Seq::empty(), prev),
        };
        head + "COMPREPLY+=("@ + shell_quote(show_text(item)) + ")\n"@ + bash_items(
            items.drop_first(),
            next,
        )
    }
}

/// Bash completion script output.
pub open spec fn bash_output(items: Seq<ShowView>, ops: Seq<ShellComp>, full_lit: Seq<char>) -> Seq<
    char,
> {
    if items.len() == 0 && ops.len() == 0 {
        "COMPREPLY+=("@ + shell_quote(full_lit) + ")\n"@
    } else if items.len() == 1 {
        if items[0].subst.len() == 0 {
            bash_ops(ops) + "COMPREPLY+=( "@ + shell_quote(items[0].pretty) + " '')\n"@
        } else {
            bash_ops(ops) + "COMPREPLY+=( "@ + shell_quote(items[0].subst) + " )\n\n"@
        }
    } else {
        bash_ops(ops) + bash_items(items, Seq::empty())
    }
}

/// The commands of the first `m` completions come first in those of all of them.
proof fn lemma_bash_ops_prefix(ops: Seq<ShellComp>, m: int)
    requires
        0 <= m <= ops.len(),
    ensures
        bash_ops(ops.take(m)).len() <= bash_ops(ops).len(),
        bash_ops(ops).take(bash_ops(ops.take(m)).len() as int) == bash_ops(ops.take(m)),
    decreases ops.len() - m,
{
    if m == ops.len() {
        assert(ops.take(m) =~= ops);
    } else {
        lemma_bash_ops_prefix(ops.drop_last(), m);
        assert(ops.drop_last().take(m) =~= ops.take(m));
        let a = bash_ops(ops.drop_last());
        let n = bash_ops(ops.take(m)).len() as int;
        assert(bash_ops(ops).take(n) =~= a.take(n));
    }
}

/// Bash commands for one shell completion.
spec fn bash_op(op: ShellComp) -> Seq<char> {
    match op {
        ShellComp::File { mask: None } => bash_init() + " _filedir"@,
        ShellComp::File { mask: Some(m) } => bash_init() + " _filedir "@ + shell_quote(bash_mask(m@)) + "\n"@,
        ShellComp::Dir { mask: None } => bash_init() + " _filedir -d"@,
        ShellComp::Dir { mask: Some(m) } => bash_init() + " _filedir -d "@ + shell_quote(bash_mask(m@)) + "\n"@,
        ShellComp::Raw { bash, .. } => bash@ + "\n"@,
        ShellComp::Nothing => Seq::empty(),
    }
}

/// The commands of the `k`th completion stand in the bash script where those of the
/// earlier ones end.
#[verifier::spinoff_prover]
proof fn lemma_bash_op_at(items: Seq<ShowView>, ops: Seq<ShellComp>, full_lit: Seq<char>, k: int)
    requires
        0 <= k < ops.len(),
    ensures
        ({
            let out = bash_output(items, ops, full_lit);
            let p = bash_ops(ops.take(k)).len() as int;
            &&& bash_ops(ops.take(k + 1)) == bash_ops(ops.take(k)) + bash_op(ops[k])
            &&& p + bash_op(ops[k]).len() <= out.len()
            &&& out.subrange(p, p + bash_op(ops[k]).len()) == bash_op(ops[k])
        }),
{
    let out = bash_output(items, ops, full_lit);
    let all = bash_ops(ops);
    let p = bash_ops(ops.take(k)).len() as int;
    lemma_bash_ops_prefix(ops, k + 1);
    let t1 = ops.take(k + 1);
    assert(t1.drop_last() =~= ops.take(k));
    assert(t1.last() == ops[k]);
    let q = bash_ops(t1);
    assert(q == bash_ops(ops.take(k)) + bash_op(ops[k]));
    assert(all.take(q.len() as int) == q);
    assert(out.take(all.len() as int) =~= all) by {
        if items.len() == 1 {
            if items[0].subst.len() == 0 {
                assert(out == all + "COMPREPLY+=( "@ + shell_quote(items[0].pretty) + " '')\n"@);
            } else {
                assert(out == all + "COMPREPLY+=( "@ + shell_quote(items[0].subst) + " )\n\n"@);
            }
        } else {
            assert(out == all + bash_items(items, Seq::empty()));
        }
    }
    let piece = bash_op(ops[k]);
    assert(out.subrange(p, q.len() as int) =~= piece) by {
        assert forall|j: int| 0 <= j < piece.len() implies out.subrange(p, q.len() as int)[j] == #[trigger] piece[j] by {
            assert(out[p + j] == out.take(all.len() as int)[p + j]);
            assert(all[p + j] == all.take(q.len() as int)[p + j]);
            assert(q[p + j] == piece[j]);
        }
    }
}

/// The bash script runs the commands of the completions in order, the `k`th starting
/// where those of the earlier ones end: file and directory completions set up completion
/// and call `_filedir`, with `-d` for directories only and never for files, a mask
/// following quoted; a raw completion gives its bash text on a line of its own.
#[verifier::spinoff_prover]
pub proof fn law_bash_completion_commands(items: Seq<ShowView>, ops: Seq<ShellComp>, full_lit: Seq<char>, k: int)
    requires
        0 <= k < ops.len(),
    ensures
        ({
            let out = bash_output(items, ops, full_lit);
            let p = bash_ops(ops.take(k)).len() as int;
            let i = bash_init().len() as int;
            &&& (ops[k] is File || ops[k] is Dir) ==> out.subrange(p, p + i) == bash_init()
            &&& ops[k] == (ShellComp::File { mask: None }) ==> out.subrange(p + i, p + i + 9) == " _filedir"@
                && bash_ops(ops.take(k + 1)).len() == p + i + 9
            &&& ops[k] == (ShellComp::Dir { mask: None }) ==> out.subrange(p + i, p + i + 12) == " _filedir -d"@
                && bash_ops(ops.take(k + 1)).len() == p + i + 12
            &&& ops[k] matches ShellComp::File { mask: Some(m) } ==> out.subrange(p + i, p + i + 10) == " _filedir "@
                && out.subrange(p + i + 10, p + i + 11 + shell_quote(bash_mask(m@)).len()) == shell_quote(
                bash_mask(m@),
            ).push('\n')
            &&& ops[k] matches ShellComp::Dir { mask: Some(m) } ==> out.subrange(p + i, p + i + 13)
                == " _filedir -d "@ && out.subrange(p + i + 13, p + i + 14 + shell_quote(bash_mask(m@)).len())
                == shell_quote(bash_mask(m@)).push('\n')
            &&& ops[k] matches ShellComp::Raw { bash, .. } ==> out.subrange(p, p + bash@.len() + 1) == bash@.push('\n')
            &&& ops[k] is Nothing ==> bash_ops(ops.take(k + 1)).len() == p
        }),
{
    lemma_bash_op_at(items, ops, full_lit, k);
    let out = bash_output(items, ops, full_lit);
    let p = bash_ops(ops.take(k)).len() as int;
    let bi = bash_init();
    let i = bi.len() as int;
    let piece = bash_op(ops[k]);
    let at = out.subrange(p, p + piece.len());
    match ops[k] {
        ShellComp::File { mask: None } => {
            reveal_strlit(" _filedir");
            assert(out.subrange(p, p + i) =~= at.take(i));
            assert(at.take(i) =~= bi);
            assert(out.subrange(p + i, p + i + 9) =~= at.skip(i));
            assert(at.skip(i) =~= " _filedir"@);
        },
        ShellComp::Dir { mask: None } => {
            reveal_strlit(" _filedir -d");
            assert(out.subrange(p, p + i) =~= at.take(i));
            assert(at.take(i) =~= bi);
            assert(out.subrange(p + i, p + i + 12) =~= at.skip(i));
            assert(at.skip(i) =~= " _filedir -d"@);
        },
        ShellComp::File { mask: Some(m) } => {
            reveal_strlit(" _filedir ");
            reveal_strlit("\n");
            let qm = shell_quote(bash_mask(m@));
            assert(out.subrange(p, p + i) =~= at.take(i));
            assert(at.take(i) =~= bi);
            assert(out.subrange(p + i, p + i + 10) =~= at.subrange(i, i + 10));
            assert(at.subrange(i, i + 10) =~= " _filedir "@);
            assert(out.subrange(p + i + 10, p + i + 11 + qm.len()) =~= at.skip(i + 10));
            assert(at.skip(i + 10) =~= qm.push('\n'));
        },
        ShellComp::Dir { mask: Some(m) } => {
            reveal_strlit(" _filedir -d ");
            reveal_strlit("\n");
            let qm = shell_quote(bash_mask(m@));
            assert(out.subrange(p, p + i) =~= at.take(i));
            assert(at.take(i) =~= bi);
            assert(out.subrange(p + i, p + i + 13) =~= at.subrange(i, i + 13));
            assert(at.subrange(i, i + 13) =~= " _filedir -d "@);
            assert(out.subrange(p + i + 13, p + i + 14 + qm.len()) =~= at.skip(i + 13));
            assert(at.skip(i + 13) =~= qm.push('\n'));
        },
        ShellComp::Raw { bash, .. } => {
            reveal_strlit("\n");
            assert(at =~= bash@.push('\n'));
        },
        ShellComp::Nothing => {},
    }
}

fn bash_ops_exec(out: &mut Vec<char>, ops: &Vec<ShellComp>)
    ensures
        final(out)@ == old(out)@ + bash_ops(ops@),
{
    let init = "local cur prev words cword ; _init_completion || return ;";
    let mut i: usize = 0;
    while i < ops.len()
        invariant
            i <= ops@.len(),
            init@ == bash_init(),
            out@ == old(out)@ + bash_ops(ops@.take(i as int)),
        decreases ops.len() - i,
    {
        proof {
            assert(ops@.take(i + 1).drop_last() =~= ops@.take(i as int));
        }
        match ops[i] {
            ShellComp::File { mask: None } => {
                push_str_chars(out, init);
                push_str_chars(out, " _filedir");
            },
            ShellComp::File { mask: Some(mask) } => {
                push_str_chars(out, init);
                push_str_chars(out, " _filedir ");
                let m = bashmask(mask);
                push_quoted(out, m.as_str());
                push_str_chars(out, "\n");
            },
            ShellComp::Dir { mask: None } => {
                push_str_chars(out, init);
                push_str_chars(out, " _filedir -d");
            },
            ShellComp::Dir { mask: Some(mask) } => {
                push_str_chars(out, init);
                push_str_chars(out, " _filedir -d ");
                let m = bashmask(mask);
                push_quoted(out, m.as_str());
                push_str_chars(out, "\n");
            },
            ShellComp::Raw { bash, .. } => {
                push_str_chars(out, bash);
                push_str_chars(out, "\n");
            },
            ShellComp::Nothing => {},
        }
        i = i + 1;
        assert(out@ =~= old(out)@ + bash_ops(ops@.take(i as int)));
    }
    assert(ops@.take(ops@.len() as int) =~= ops@);
}

/// Completion output for bash
pub fn render_bash(items: &Vec<ShowComp>, ops: &Vec<ShellComp>, full_lit: &str) -> (r: String)
    ensures
        r@ == bash_output(views(items@), ops@, full_lit@),
{
    let mut res: Vec<char> = Vec::new();
    if items.len() == 0 && ops.len() == 0 {
        push_str_chars(&mut res, "COMPREPLY+=(");
        push_quoted(&mut res, full_lit);
        push_str_chars(&mut res, ")\n");
        return chars_string(&res);
    }
    bash_ops_exec(&mut res, ops);
    if items.len() == 1 {
        if items[0].subst.as_str().is_empty() {
            push_str_chars(&mut res, "COMPREPLY+=( ");
            push_quoted(&mut res, items[0].pretty.as_str());
            push_str_chars(&mut res, " '')\n");
        } else {
            push_str_chars(&mut res, "COMPREPLY+=( ");
            push_quoted(&mut res, items[0].subst.as_str());
            push_str_chars(&mut res, " )\n\n");
        }
        return chars_string(&res);
    }
    let ghost base = res@;
    let ghost all = views(items@);
    let mut prev: Vec<char> = Vec::new();
    let mut i: usize = 0;
    assert(all.skip(0) =~= all);
    while i < items.len()
        invariant
            i <= items@.len(),
            all == views(items@),
            base + bash_items(all, Seq::empty()) == res@ + bash_items(all.skip(i as int), prev@),
        decreases items.len() - i,
    {
        let item = &items[i];
        proof {
            assert(all.skip(i as int).drop_first() =~= all.skip(i + 1));
            assert(all.skip(i as int)[0] == item@);
        }
        let ghost before = res@;
        let ghost prev0 = prev@;
        match &item.extra.group {
            Some(group) => {
                let g = str_chars(group.as_str());
                if !crate::text::chars_eq(&prev, &g) {
                    prev = g;
                    push_str_chars(&mut res, "COMPREPLY+=(");
                    push_quoted(&mut res, group.as_str());
                    push_str_chars(&mut res, ")\n");
                }
            },
            None => {},
        }
        push_str_chars(&mut res, "COMPREPLY+=(");
        let mut shown: Vec<char> = Vec::new();
        push_show(&mut shown, item);
        let shown_s = chars_string(&shown);
        push_quoted(&mut res, shown_s.as_str());
        push_str_chars(&mut res, ")\n");
        i = i + 1;
        assert(before + bash_items(all.skip(i - 1), prev0) =~= res@ + bash_items(
            all.skip(i as int),
            prev@,
        ));
    }
    assert(all.skip(i as int) =~= Seq::<ShowView>::empty());
    chars_string(&res)
}

/// The text of an optional string, empty when absent.
pub open spec fn or_empty(o: Option<Seq<char>>) -> Seq<char> {
    match o {
        Some(s) => s,
        None => Seq::empty(),
    }
}

/// Debug form of a shell completion.
pub open spec fn shell_comp_debug(op: ShellComp) -> Seq<char> {
    match op {
        ShellComp::File { mask: None } => "File { mask: None }"@,
        ShellComp::File { mask: Some(m) } => "File { mask: Some("@ + debug_escaped(m@) + ") }"@,
        ShellComp::Dir { mask: None } => "Dir { mask: None }"@,
        ShellComp::Dir { mask: Some(m) } => "Dir { mask: Some("@ + debug_escaped(m@) + ") }"@,
        ShellComp::Raw { bash, zsh, fish, elvish } => "Raw { bash: "@ + debug_escaped(bash@)
            + ", zsh: "@ + debug_escaped(zsh@) + ", fish: "@ + debug_escaped(fish@) + ", elvish: "@
            + debug_escaped(elvish@) + " }"@,
        ShellComp::Nothing => "Nothing"@,
    }
}

/// Test format lines for each suggestion.
pub open spec fn test_items(items: Seq<ShowView>) -> Seq<char>
    decreases items.len(),
{
    if items.len() == 0 {
        Seq::empty()
    } else {
        let op = items.last();
        test_items(items.drop_last()) + op.subst + "\t"@ + op.pretty + "\t"@ + or_empty(
            op.extra.group,
        ) + "\t"@ + or_empty(op.extra.help) + "\n"@
    }
}

/// Test format lines for each shell completion.
pub open spec fn test_ops(ops: Seq<ShellComp>) -> Seq<char>
    decreases ops.len(),
{
    if ops.len() == 0 {
        Seq::empty()
    } else {
        test_ops(ops.drop_last()) + shell_comp_debug(ops.last()) + "\n"@
    }
}

/// Completion output used in tests.
pub open spec fn test_output(items: Seq<ShowView>, ops: Seq<ShellComp>, lit: Seq<char>) -> Seq<char> {
    if items.len() == 0 && ops.len() == 0 {
        lit + "\n"@
    } else if items.len() == 1 && ops.len() == 0 && items[0].subst.len() != 0 {
        items[0].subst
    } else {
        test_items(items) + "\n"@ + test_ops(ops)
    }
}

fn push_debug(out: &mut Vec<char>, s: &str)
    ensures
        final(out)@ == old(out)@ + debug_escaped(s@),
{
    let d = debug_str(s);
    push_str_chars(out, d.as_str());
}

fn push_opt(out: &mut Vec<char>, o: &Option<String>)
    ensures
        final(out)@ == old(out)@ + or_empty(opt_view(*o)),
{
    match o {
        Some(s) => push_str_chars(out, s.as_str()),
        None => {
            assert(out@ =~= old(out)@ + or_empty(opt_view(*o)));
        },
    }
}

/// Completion output in a format convenient for tests
pub fn render_test(items: &Vec<ShowComp>, ops: &Vec<ShellComp>, lit: &str) -> (r: String)
    ensures
        r@ == test_output(views(items@), ops@, lit@),
{
    let mut res: Vec<char> = Vec::new();
    if items.len() == 0 && ops.len() == 0 {
        push_str_chars(&mut res, lit);
        push_str_chars(&mut res, "\n");
        return chars_string(&res);
    }
    if items.len() == 1 && ops.len() == 0 && !items[0].subst.as_str().is_empty() {
        return items[0].subst.clone();
    }
    let mut i: usize = 0;
    while i < items.len()
        invariant
            i <= items@.len(),
            res@ == test_items(views(items@.take(i as int))),
        decreases items.len() - i,
    {
        let op = &items[i];
        proof {
            assert(views(items@.take(i + 1)).drop_last() =~= views(items@.take(i as int)));
            assert(views(items@.take(i + 1)).last() == op@);
        }
        push_str_chars(&mut res, op.subst.as_str());
        push_str_chars(&mut res, "\t");
        push_str_chars(&mut res, op.pretty.as_str());
        push_str_chars(&mut res, "\t");
        push_opt(&mut res, &op.extra.group);
        push_str_chars(&mut res, "\t");
        push_opt(&mut res, &op.extra.help);
        push_str_chars(&mut res, "\n");
        i = i + 1;
        assert(res@ =~= test_items(views(items@.take(i as int))));
    }
    assert(items@.take(items@.len() as int) =~= items@);
    push_str_chars(&mut res, "\n");
    let ghost base = res@;
    let mut j: usize = 0;
    while j < ops.len()
        invariant
            j <= ops@.len(),
            res@ == base + test_ops(ops@.take(j as int)),
        decreases ops.len() - j,
    {
        proof {
            assert(ops@.take(j + 1).drop_last() =~= ops@.take(j as int));
        }
        match ops[j] {
            ShellComp::File { mask: None } => push_str_chars(&mut res, "File { mask: None }"),
            ShellComp::File { mask: Some(m) } => {
                push_str_chars(&mut res, "File { mask: Some(");
                push_debug(&mut res, m);
                push_str_chars(&mut res, ") }");
            },
            ShellComp::Dir { mask: None } => push_str_chars(&mut res, "Dir { mask: None }"),
            ShellComp::Dir { mask: Some(m) } => {
                push_str_chars(&mut res, "Dir { mask: Some(");
                push_debug(&mut res, m);
                push_str_chars(&mut res, ") }");
            },
            ShellComp::Raw { bash, zsh, fish, elvish } => {
                push_str_chars(&mut res, "Raw { bash: ");
                push_debug(&mut res, bash);
                push_str_chars(&mut res, ", zsh: ");
                push_debug(&mut res, zsh);
                push_str_chars(&mut res, ", fish: ");
                push_debug(&mut res, fish);
                push_str_chars(&mut res, ", elvish: ");
                push_debug(&mut res, elvish);
                push_str_chars(&mut res, " }");
            },
            ShellComp::Nothing => push_str_chars(&mut res, "Nothing"),
        }
        push_str_chars(&mut res, "\n");
        j = j + 1;
        assert(res@ =~= base + test_ops(ops@.take(j as int)));
    }
    assert(ops@.take(ops@.len() as int) =~= ops@);
    chars_string(&res)
}

/// Fish lines for the suggestions that substitute something, last suggestion first.
pub open spec fn fish_items(items: Seq<ShowView>) -> Seq<char>
    decreases items.len(),
{
    if items.len() == 0 {
        Seq::empty()
    } else {
        let item = items.last();
        (if item.subst.len() == 0 {
            Seq::empty()
        } else {
            match item.extra.help {
                Some(h) => item.subst + "\t"@ + h + "\n"@,
                None => item.subst + "\n"@,
            }
        }) + fish_items(items.drop_last())
    }
}

/// Fish completion output.
pub open spec fn fish_output(items: Seq<ShowView>, ops: Seq<ShellComp>, full_lit: Seq<char>) -> Seq<
    char,
> {
    (if items.len() == 0 && ops.len() == 0 {
        full_lit + "\n"@
    } else {
        Seq::empty()
    }) + fish_items(items)
}

/// Completion output for fish
pub fn render_fish(items: &Vec<ShowComp>, ops: &Vec<ShellComp>, full_lit: &str, _app: &str) -> (r:
    String)
    ensures
        r@ == fish_output(views(items@), ops@, full_lit@),
{
    let mut res: Vec<char> = Vec::new();
    if items.len() == 0 && ops.len() == 0 {
        push_str_chars(&mut res, full_lit);
        push_str_chars(&mut res, "\n");
    }
    let ghost base = res@;
    let mut i: usize = items.len();
    assert(items@.take(items@.len() as int) =~= items@);
    while i > 0
        invariant
            i <= items@.len(),
            base + fish_items(views(items@)) == res@ + fish_items(views(items@.take(i as int))),
        decreases i,
    {
        let item = &items[i - 1];
        proof {
            assert(views(items@.take(i as int)).drop_last() =~= views(items@.take(i - 1)));
            assert(views(items@.take(i as int)).last() == item@);
        }
        let ghost before = res@;
        if !item.subst.as_str().is_empty() {
            push_str_chars(&mut res, item.subst.as_str());
            match &item.extra.help {
                Some(help) => {
                    push_str_chars(&mut res, "\t");
                    push_str_chars(&mut res, help.as_str());
                    push_str_chars(&mut res, "\n");
                },
                None => {
                    push_str_chars(&mut res, "\n");
                },
            }
        }
        i = i - 1;
        assert(before + fish_items(views(items@.take(i + 1))) =~= res@ + fish_items(
            views(items@.take(i as int)),
        ));
    }
    assert(views(items@.take(0)) =~= Seq::<ShowView>::empty());
    chars_string(&res)
}

/// First line of a help message.
pub open spec fn first_line(s: Seq<char>) -> Seq<char> {
    s.take(crate::splitter::find_nl(s) as int)
}

/// Simple completion lines, each with the first line of its help.
pub open spec fn simple_items(items: Seq<ShowView>) -> Seq<char>
    decreases items.len(),
{
    if items.len() == 0 {
        Seq::empty()
    } else {
        let item = items.last();
        simple_items(items.drop_last()) + match item.extra.help {
            Some(d) => item.subst + "\t"@ + first_line(d) + "\n"@,
            None => item.subst + "\n"@,
        }
    }
}

/// Simple completion output.
pub open spec fn simple_output(items: Seq<ShowView>) -> Seq<char> {
    if items.len() == 1 {
        items[0].subst + "\n"@
    } else {
        simple_items(items)
    }
}

/// Completion output with one suggestion per line
pub fn render_simple(items: &Vec<ShowComp>) -> (r: String)
    ensures
        r@ == simple_output(views(items@)),
{
    let mut res: Vec<char> = Vec::new();
    if items.len() == 1 {
        push_str_chars(&mut res, items[0].subst.as_str());
        push_str_chars(&mut res, "\n");
        return chars_string(&res);
    }
    let mut i: usize = 0;
    while i < items.len()
        invariant
            i <= items@.len(),
            res@ == simple_items(views(items@.take(i as int))),
        decreases items.len() - i,
    {
        let item = &items[i];
        proof {
            assert(views(items@.take(i + 1)).drop_last() =~= views(items@.take(i as int)));
            assert(views(items@.take(i + 1)).last() == item@);
        }
        push_str_chars(&mut res, item.subst.as_str());
        match &item.extra.help {
            Some(descr) => {
                push_str_chars(&mut res, "\t");
                let d = str_chars(descr.as_str());
                let k = crate::splitter::scan_nl_pub(&d, 0);
                assert(d@.skip(0) =~= d@);
                crate::text::push_range(&mut res, &d, 0, k);
                assert(d@.subrange(0, k as int) =~= first_line(descr@));
                push_str_chars(&mut res, "\n");
            },
            None => {
                push_str_chars(&mut res, "\n");
            },
        }
        i = i + 1;
        assert(res@ =~= simple_items(views(items@.take(i as int))));
    }
    assert(items@.take(items@.len() as int) =~= items@);
    chars_string(&res)
}

} // verus!
