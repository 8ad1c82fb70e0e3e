use bpaf::md_eval::md::Mod;
use bpaf::md_eval::module::{generated_lib, runner_text};
use bpaf::satis::config::{detect_cli, plan_binaries, PackageInfo, Shell, TargetInfo, TargetKind};
use bpaf::satis::env::{search_path, EnvEntry, EnvValue, FISH_CONFIG, ZSHRC};

#[test]
fn tempdir_prefixes() {
    assert_eq!(Shell::Bash.tempdir_prefix(), "shell-tester-bash");
    assert_eq!(Shell::Zsh.tempdir_prefix(), "shell-tester-zsh");
    assert_eq!(Shell::Fish.tempdir_prefix(), "shell-tester-fish");
    assert_eq!(Shell::Fish.exe(), "fish");
}

#[test]
fn search_path_puts_binary_first() {
    assert_eq!(search_path(b"/bin/dir", Some(b"/usr/bin")), b"/bin/dir:/usr/bin".to_vec());
    assert_eq!(search_path(b"/bin/dir", None), b"/bin/dir".to_vec());
}

fn file(e: &EnvEntry) -> (Vec<String>, Vec<u8>) {
    match e {
        EnvEntry::File(p, c) => (p.clone(), c.clone()),
        EnvEntry::Dir(p) => panic!("not a file: {:?}", p),
    }
}

fn dir(e: &EnvEntry) -> Vec<String> {
    match e {
        EnvEntry::Dir(p) => p.clone(),
        EnvEntry::File(p, _) => panic!("not a dir: {:?}", p),
    }
}

#[test]
fn bash_environment() {
    let es = Shell::Bash.env_files("app", b"SCRIPT", "extra");
    assert_eq!(es.len(), 2);
    assert_eq!(
        file(&es[0]),
        (
            vec![".bashrc".to_string()],
            b". /usr/share/bash-completion/bash_completion\nSCRIPTextra\n".to_vec()
        )
    );
    assert_eq!(file(&es[1]), (vec![".inputrc".to_string()], vec![]));
}

#[test]
fn zsh_environment() {
    let es = Shell::Zsh.env_files("app", b"SCRIPT", "");
    assert_eq!(es.len(), 3);
    assert_eq!(file(&es[0]), (vec![".zshrc".to_string()], ZSHRC.as_bytes().to_vec()));
    assert_eq!(dir(&es[1]), vec![".zsh".to_string()]);
    assert_eq!(
        file(&es[2]),
        (vec![".zsh".to_string(), "_app".to_string()], b"SCRIPT".to_vec())
    );
}

#[test]
fn fish_environment() {
    let es = Shell::Fish.env_files("app", b"SCRIPT", "");
    assert_eq!(es.len(), 3);
    assert_eq!(dir(&es[0]), vec!["fish".to_string(), "completions".to_string()]);
    assert_eq!(
        file(&es[1]),
        (
            vec!["fish".to_string(), "config.fish".to_string()],
            FISH_CONFIG.as_bytes().to_vec()
        )
    );
    assert!(FISH_CONFIG.starts_with("fish_config theme choose None\nset -U fish_greeting \"\"\n"));
    assert_eq!(
        file(&es[2]),
        (
            vec!["fish".to_string(), "completions".to_string(), "app.fish".to_string()],
            b"SCRIPT".to_vec()
        )
    );
}

#[test]
fn shell_process_environment() {
    let vars = Shell::Zsh.shell_env();
    let names: Vec<&str> = vars.iter().map(|(n, _)| n.as_str()).collect();
    assert_eq!(names, ["TERM", "LC_ALL", "PATH", "HOME", "PS1"]);
    assert!(matches!(&vars[4].1, EnvValue::Text(t) if t == "zsh%% "));
    assert!(matches!(&vars[2].1, EnvValue::SearchPath));
    let vars = Shell::Fish.shell_env();
    assert_eq!(vars[4].0, "XDG_CONFIG_HOME");
    assert!(matches!(&vars[4].1, EnvValue::Home));
    let vars = Shell::Bash.shell_env();
    assert!(matches!(&vars[4].1, EnvValue::Text(t) if t == "bash$ "));
}

fn target(name: &str, kind: Vec<TargetKind>) -> TargetInfo {
    TargetInfo { name: name.to_string(), kind }
}

#[test]
fn binaries_from_packages() {
    let pkgs = vec![
        PackageInfo {
            name: "pkg".to_string(),
            dependencies: vec!["serde".to_string(), "bpaf".to_string()],
            targets: vec![
                target("app", vec![TargetKind::Bin]),
                target("ex", vec![TargetKind::Example]),
                target("lib", vec![TargetKind::Other]),
                target("multi", vec![TargetKind::Bin, TargetKind::Example]),
            ],
        },
        PackageInfo { name: "other".to_string(), dependencies: vec![], targets: vec![target("tool", vec![TargetKind::Bin])] },
    ];
    assert!(detect_cli(&pkgs).is_some());
    let plans = plan_binaries(&pkgs);
    assert_eq!(plans.len(), 3);
    assert_eq!(plans[0].name, "app");
    assert_eq!(plans[0].dir, "target/release");
    assert_eq!(plans[0].build_args, ["build", "--quiet", "--release", "-p", "pkg", "--bin", "app"]);
    assert_eq!(plans[1].name, "ex");
    assert_eq!(plans[1].dir, "target/release/examples");
    assert_eq!(plans[1].build_args, ["build", "--quiet", "--release", "-p", "pkg", "--example", "ex"]);
    assert_eq!(plans[2].build_args, ["build", "--quiet", "--release", "-p", "other", "--bin", "tool"]);
    assert!(detect_cli(&pkgs[1..].to_vec()).is_none());
}

#[test]
fn generated_library_text() {
    let mods = vec![
        Mod { name: "a".to_string(), code: "mod a {}".to_string() },
        Mod { name: "b".to_string(), code: "mod b {}".to_string() },
    ];
    let runner = runner_text(&mods);
    assert_eq!(
        runner,
        "pub fn run_md_eval() {\n  let opts = md_eval::options().run();\n  std::fs::create_dir_all(&opts.out_dir).expect(\"Couldn't create the output dir\");\n  a::run(&opts.out_dir);\n  b::run(&opts.out_dir);\nlet mod_file = opts.out_dir.join(\"mod.rs\");\nstd::fs::write(mod_file, DOCS_RS).unwrap()\n}\n"
    );
    let docs = "//! All the custom documentation\n// this file is generated with help of md-eval, changes will be removed\npub mod b;\n";
    let lib = generated_lib(&mods, &vec![false, true]);
    assert_eq!(
        lib,
        format!("mod a {{}}\nmod b {{}}\n{}pub const DOCS_RS: &'static str = {:?};\n", runner, docs)
    );
}

