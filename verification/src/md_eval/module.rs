//! Rust modules generated from markdown documents.

use crate::complete_shell::{debug_escaped, debug_str};
use crate::md_eval::md::Mod as PageMod;
use crate::text::{chars_string, push_str_chars};
use vstd::prelude::*;

verus! {

/// Generated rust module: its name and its code
#[derive(Debug, Clone)]
pub struct Mod {
    pub name: String,
    pub code: String,
}

/// Text of a list of lines, each with its line break.
pub open spec fn run_lines(names: Seq<Seq<char>>) -> Seq<char>
    decreases names.len(),
{
    if names.len() == 0 {
        Seq::empty()
    } else {
        run_lines(names.drop_last()) + "  "@ + names.last() + "::run(&opts.out_dir);\n"@
    }
}

/// Names of the modules.
pub open spec fn mod_names(modules: Seq<PageMod>) -> Seq<Seq<char>> {
    modules.map_values(|m: PageMod| m.name@)
}

/// Start of the function that runs all generated modules
pub const RUNNER_HEAD: &'static str = "pub fn run_md_eval() {\n  let opts = md_eval::options().run();\n  std::fs::create_dir_all(&opts.out_dir).expect(\"Couldn't create the output dir\");\n";

/// End of the function that runs all generated modules
pub const RUNNER_TAIL: &'static str = "let mod_file = opts.out_dir.join(\"mod.rs\");\nstd::fs::write(mod_file, DOCS_RS).unwrap()\n}\n";

/// The function that runs every generated module into the output directory and writes the
/// module list there.
pub open spec fn runner_spec(modules: Seq<PageMod>) -> Seq<char> {
    RUNNER_HEAD@ + run_lines(mod_names(modules)) + RUNNER_TAIL@
}

/// The function that runs all generated modules
pub fn runner_text(modules: &Vec<PageMod>) -> (r: String)
    ensures
        r@ == runner_spec(modules@),
{
    let mut v: Vec<char> = Vec::new();
    push_str_chars(&mut v, RUNNER_HEAD);
    let ghost head = v@;
    let mut i: usize = 0;
    while i < modules.len()
        invariant
            i <= modules@.len(),
            head == RUNNER_HEAD@,
            v@ == head + run_lines(mod_names(modules@.take(i as int))),
        decreases modules.len() - i,
    {
        let m = &modules[i];
        push_str_chars(&mut v, "  ");
        push_str_chars(&mut v, m.name.as_str());
        push_str_chars(&mut v, "::run(&opts.out_dir);\n");
        proof {
            assert(mod_names(modules@.take(i + 1)).drop_last() =~= mod_names(modules@.take(i as int)));
            assert(mod_names(modules@.take(i + 1)).last() == m.name@);
        }
        i = i + 1;
    }
    assert(modules@.take(modules@.len() as int) =~= modules@);
    push_str_chars(&mut v, RUNNER_TAIL);
    chars_string(&v)
}

/// Code of all modules, each followed by a line break.
pub open spec fn codes(modules: Seq<PageMod>) -> Seq<char>
    decreases modules.len(),
{
    if modules.len() == 0 {
        Seq::empty()
    } else {
        codes(modules.drop_last()) + modules.last().code@ + "\n"@
    }
}

/// Declarations of the modules that render to rust files.
pub open spec fn rs_decls(modules: Seq<PageMod>, rs: Seq<bool>) -> Seq<char>
    decreases modules.len(),
{
    if modules.len() == 0 || rs.len() == 0 {
        Seq::empty()
    } else {
        rs_decls(modules.drop_last(), rs.drop_last()) + if rs.last() {
            "pub mod "@ + modules.last().name@ + ";\n"@
        } else {
            Seq::empty()
        }
    }
}

/// Header of the generated module list
pub const DOCS_HEAD: &'static str = "//! All the custom documentation\n// this file is generated with help of md-eval, changes will be removed\n";

/// The generated library: the code of every module, the runner, and the list of modules
/// that render to rust files, as a string constant.
pub open spec fn generated_spec(modules: Seq<PageMod>, rs: Seq<bool>) -> Seq<char> {
    codes(modules) + runner_spec(modules) + "pub const DOCS_RS: &'static str = "@
        + debug_escaped(DOCS_HEAD@ + rs_decls(modules, rs)) + ";\n"@
}

/// The generated library; `rs` tells for each module whether it renders to a rust file
pub fn generated_lib(modules: &Vec<PageMod>, rs: &Vec<bool>) -> (r: String)
    requires
        rs@.len() == modules@.len(),
    ensures
        r@ == generated_spec(modules@, rs@),
{
    let mut v: Vec<char> = Vec::new();
    let mut docs: Vec<char> = Vec::new();
    push_str_chars(&mut docs, DOCS_HEAD);
    let ghost dh = docs@;
    let mut i: usize = 0;
    while i < modules.len()
        invariant
            i <= modules@.len(),
            rs@.len() == modules@.len(),
            dh == DOCS_HEAD@,
            v@ == codes(modules@.take(i as int)),
            docs@ == dh + rs_decls(modules@.take(i as int), rs@.take(i as int)),
        decreases modules.len() - i,
    {
        let m = &modules[i];
        push_str_chars(&mut v, m.code.as_str());
        push_str_chars(&mut v, "\n");
        if rs[i] {
            push_str_chars(&mut docs, "pub mod ");
            push_str_chars(&mut docs, m.name.as_str());
            push_str_chars(&mut docs, ";\n");
        }
        proof {
            assert(modules@.take(i + 1).drop_last() =~= modules@.take(i as int));
            assert(rs@.take(i + 1).drop_last() =~= rs@.take(i as int));
            assert(modules@.take(i + 1).last() == *m);
            assert(rs@.take(i + 1).last() == rs@[i as int]);
        }
        i = i + 1;
    }
    assert(modules@.take(modules@.len() as int) =~= modules@);
    assert(rs@.take(rs@.len() as int) =~= rs@);
    let runner = runner_text(modules);
    push_str_chars(&mut v, runner.as_str());
    push_str_chars(&mut v, "pub const DOCS_RS: &'static str = ");
    let docs_s = chars_string(&docs);
    let quoted = debug_str(docs_s.as_str());
    push_str_chars(&mut v, quoted.as_str());
    push_str_chars(&mut v, ";\n");
    chars_string(&v)
}

} // verus!
