//! Shells that snippets run in, and how a binary produces its completion script for them.

use crate::text::str_chars;
use vstd::prelude::*;

verus! {

/// How a binary is asked for its completion script in a shell
#[derive(Debug, Eq, PartialEq, PartialOrd, Ord)]
pub struct MkComplete {
    /// app gets executed with this extra flag to get the completion test
    pub arg: String,
    /// then this bit gets added to the config (or not, if it's zsh)
    pub to_config: String,
}

/// A supported shell
#[derive(Debug, Clone, Copy, PartialEq, Eq, PartialOrd, Ord, Structural)]
pub enum Shell {
    Bash,
    Zsh,
    Fish,
}

/// Command line parser library a binary uses
#[derive(Debug, Copy, Clone)]
pub enum Cli {
    Bpaf,
}

/// Flag that makes a bpaf application print its completion script for a shell.
pub open spec fn bpaf_complete_flag(shell: Shell) -> Seq<char> {
    match shell {
        Shell::Bash => "--bpaf-complete-style-bash"@,
        Shell::Zsh => "--bpaf-complete-style-zsh"@,
        Shell::Fish => "--bpaf-complete-style-fish"@,
    }
}

impl Cli {
    /// How to get completion scripts, per shell, in the order of the shells
    pub fn populate(self) -> (r: Vec<(Shell, MkComplete)>)
        ensures
            r@.len() == 2,
            r@[0].0 == Shell::Bash,
            r@[0].1.arg@ == bpaf_complete_flag(Shell::Bash),
            r@[0].1.to_config@ == Seq::<char>::empty(),
            r@[1].0 == Shell::Zsh,
            r@[1].1.arg@ == bpaf_complete_flag(Shell::Zsh),
            r@[1].1.to_config@ == Seq::<char>::empty(),
    {
        match self {
            Cli::Bpaf => {
                let mut r = Vec::new();
                r.push(
                    (
                        Shell::Bash,
                        MkComplete {
                            arg: String::from_str("--bpaf-complete-style-bash"),
                            to_config: String::new(),
                        },
                    ),
                );
                r.push(
                    (
                        Shell::Zsh,
                        MkComplete {
                            arg: String::from_str("--bpaf-complete-style-zsh"),
                            to_config: String::new(),
                        },
                    ),
                );
                r
            },
        }
    }
}

} // verus!

verus! {

/// Kind of a cargo target, as far as binaries are concerned
#[derive(Debug, Clone, Copy, PartialEq, Eq, Structural)]
pub enum TargetKind {
    Bin,
    Example,
    Other,
}

/// A target of a package: its name and kinds
#[derive(Debug, Clone)]
pub struct TargetInfo {
    pub name: String,
    pub kind: Vec<TargetKind>,
}

/// A package of the workspace: its name, the names of its dependencies and its targets
#[derive(Debug, Clone)]
pub struct PackageInfo {
    pub name: String,
    pub dependencies: Vec<String>,
    pub targets: Vec<TargetInfo>,
}

/// The characters of each string.
pub open spec fn names_view(v: Seq<String>) -> Seq<Seq<char>> {
    v.map_values(|s: String| s@)
}

/// A package uses bpaf: it is bpaf or depends on it.
pub open spec fn uses_bpaf(p: PackageInfo) -> bool {
    p.name@ == "bpaf"@ || names_view(p.dependencies@).contains("bpaf"@)
}

fn is_bpaf(s: &String) -> (r: bool)
    ensures
        r == (s@ == "bpaf"@),
{
    let v = str_chars(s.as_str());
    let w = str_chars("bpaf");
    crate::text::chars_eq(&v, &w)
}

/// Command line parser the packages use, bpaf if any package uses it
pub fn detect_cli(packages: &Vec<PackageInfo>) -> (r: Option<Cli>)
    ensures
        r is Some <==> exists|i: int| 0 <= i < packages@.len() && uses_bpaf(#[trigger] packages@[i]),
{
    let mut i: usize = 0;
    while i < packages.len()
        invariant
            i <= packages@.len(),
            forall|j: int| 0 <= j < i ==> !uses_bpaf(#[trigger] packages@[j]),
        decreases packages.len() - i,
    {
        let p = &packages[i];
        let mut found = is_bpaf(&p.name);
        let mut k: usize = 0;
        while k < p.dependencies.len() && !found
            invariant
                k <= p.dependencies@.len(),
                found == (p.name@ == "bpaf"@ || exists|j: int| 0 <= j < k && names_view(p.dependencies@)[j] == "bpaf"@),
            decreases p.dependencies.len() - k,
        {
            let d = is_bpaf(&p.dependencies[k]);
            assert(names_view(p.dependencies@)[k as int] == p.dependencies@[k as int]@);
            if d {
                found = true;
            }
            proof {
                if !found {
                    assert forall|j: int| 0 <= j < k + 1 implies names_view(p.dependencies@)[j] != "bpaf"@ by {}
                }
            }
            k = k + 1;
        }
        proof {
            if !found {
                assert forall|j: int| 0 <= j < names_view(p.dependencies@).len() implies names_view(p.dependencies@)[j] != "bpaf"@ by {}
            } else if p.name@ != "bpaf"@ {
                let j = choose|j: int| 0 <= j < k && names_view(p.dependencies@)[j] == "bpaf"@;
                assert(names_view(p.dependencies@)[j] == "bpaf"@);
            }
        }
        if found {
            assert(uses_bpaf(packages@[i as int]));
            return Some(Cli::Bpaf);
        }
        i = i + 1;
    }
    None
}

/// How a binary is built and where it lands: its name, the directory below the workspace
/// and the arguments to `cargo`
pub struct BinaryPlan {
    pub name: String,
    pub dir: &'static str,
    pub build_args: Vec<String>,
}

/// A target with a single kind, a binary or an example, is a binary to test.
pub open spec fn target_plan(pkg: Seq<char>, t: TargetInfo) -> Option<(Seq<char>, Seq<char>, Seq<Seq<char>>)> {
    if t.kind@.len() == 1 && t.kind@[0] == TargetKind::Bin {
        Some((t.name@, "target/release"@, seq!["build"@, "--quiet"@, "--release"@, "-p"@, pkg, "--bin"@, t.name@]))
    } else if t.kind@.len() == 1 && t.kind@[0] == TargetKind::Example {
        Some((t.name@, "target/release/examples"@, seq!["build"@, "--quiet"@, "--release"@, "-p"@, pkg, "--example"@, t.name@]))
    } else {
        None
    }
}

/// Plans of the targets of a package, in order.
pub open spec fn package_plans(pkg: Seq<char>, ts: Seq<TargetInfo>) -> Seq<(Seq<char>, Seq<char>, Seq<Seq<char>>)>
    decreases ts.len(),
{
    if ts.len() == 0 {
        Seq::empty()
    } else {
        package_plans(pkg, ts.drop_last()) + match target_plan(pkg, ts.last()) {
            Some(p) => seq![p],
            None => Seq::empty(),
        }
    }
}

/// Plans of all packages, in order.
pub open spec fn all_plans(ps: Seq<PackageInfo>) -> Seq<(Seq<char>, Seq<char>, Seq<Seq<char>>)>
    decreases ps.len(),
{
    if ps.len() == 0 {
        Seq::empty()
    } else {
        all_plans(ps.drop_last()) + package_plans(ps.last().name@, ps.last().targets@)
    }
}

/// The view of a plan.
pub open spec fn plan_view(p: BinaryPlan) -> (Seq<char>, Seq<char>, Seq<Seq<char>>) {
    (p.name@, p.dir@, names_view(p.build_args@))
}

fn text_of(s: &str) -> (r: String)
    ensures
        r@ == s@,
{
    crate::text::chars_string(&str_chars(s))
}

fn plan_of(pkg: &String, t: &TargetInfo) -> (r: Option<BinaryPlan>)
    ensures
        match r {
            Some(p) => target_plan(pkg@, *t) == Some(plan_view(p)),
            None => target_plan(pkg@, *t) is None,
        },
{
    if t.kind.len() != 1 {
        return None;
    }
    let (dir, flag) = match t.kind[0] {
        TargetKind::Bin => ("target/release", "--bin"),
        TargetKind::Example => ("target/release/examples", "--example"),
        TargetKind::Other => {
            return None;
        },
    };
    let mut args: Vec<String> = Vec::new();
    args.push(text_of("build"));
    args.push(text_of("--quiet"));
    args.push(text_of("--release"));
    args.push(text_of("-p"));
    args.push(pkg.clone());
    args.push(text_of(flag));
    args.push(t.name.clone());
    let p = BinaryPlan { name: t.name.clone(), dir, build_args: args };
    assert(names_view(p.build_args@) =~= (target_plan(pkg@, *t)->0).2);
    Some(p)
}

/// How to build each binary of the packages, in order: targets with a single kind, binary
/// or example
pub fn plan_binaries(packages: &Vec<PackageInfo>) -> (r: Vec<BinaryPlan>)
    ensures
        r@.map_values(|p: BinaryPlan| plan_view(p)) == all_plans(packages@),
{
    let mut r: Vec<BinaryPlan> = Vec::new();
    let mut i: usize = 0;
    while i < packages.len()
        invariant
            i <= packages@.len(),
            r@.map_values(|p: BinaryPlan| plan_view(p)) == all_plans(packages@.take(i as int)),
        decreases packages.len() - i,
    {
        let p = &packages[i];
        let ghost before = r@.map_values(|p: BinaryPlan| plan_view(p));
        let mut k: usize = 0;
        assert(p.targets@.take(0) =~= Seq::<TargetInfo>::empty());
        assert(r@.map_values(|p: BinaryPlan| plan_view(p)) =~= before + package_plans(p.name@, p.targets@.take(0)));
        while k < p.targets.len()
            invariant
                k <= p.targets@.len(),
                r@.map_values(|p: BinaryPlan| plan_view(p)) == before + package_plans(p.name@, p.targets@.take(k as int)),
            decreases p.targets.len() - k,
        {
            let ghost r0 = r@;
            assert(p.targets@.take(k + 1).drop_last() =~= p.targets@.take(k as int));
            if let Some(plan) = plan_of(&p.name, &p.targets[k]) {
                r.push(plan);
                assert(r@.map_values(|p: BinaryPlan| plan_view(p)) =~= r0.map_values(|p: BinaryPlan| plan_view(p)).push(plan_view(plan)));
            }
            k = k + 1;
        }
        assert(p.targets@.take(p.targets@.len() as int) =~= p.targets@);
        assert(packages@.take(i + 1).drop_last() =~= packages@.take(i as int));
        i = i + 1;
    }
    assert(packages@.take(packages@.len() as int) =~= packages@);
    r
}

} // verus!
