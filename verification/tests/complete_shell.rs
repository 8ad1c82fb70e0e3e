use bpaf::complete_gen::{CompExtra, ShellComp, ShowComp};
use bpaf::complete_shell::{render_bash, render_fish, render_simple, render_test, render_zsh};

fn show(subst: &str, pretty: &str, group: Option<&str>, help: Option<&str>) -> ShowComp {
    ShowComp {
        subst: subst.to_string(),
        pretty: pretty.to_string(),
        extra: CompExtra {
            depth: 0,
            group: group.map(|g| g.to_string()),
            help: help.map(|h| h.to_string()),
        },
    }
}

#[test]
fn zsh_rendering() {
    assert_eq!(render_zsh(&vec![], &vec![], "--lit"), "compadd -- --lit\n");
    assert_eq!(
        render_zsh(&vec![show("--alpha", "--alpha", None, None)], &vec![], ""),
        "compadd -- '--alpha'\n"
    );
    assert_eq!(
        render_zsh(&vec![show("", "FILE", None, None)], &vec![ShellComp::File { mask: Some("*.rs") }], ""),
        "_files -g '*.rs'\ncompadd -- 'FILE'\ncompadd ''\n"
    );
    assert_eq!(
        render_zsh(
            &vec![show("--a", "--a", None, Some("first")), show("--b", "--b", Some("grp"), None)],
            &vec![],
            ""
        ),
        "local -a descr\n\
         descr=('--a                      -- first')\n\
         compadd -l -V nosort -d descr -- '--a'\n\
         descr=('--b')\n\
         compadd -l -d descr -V 'grp' -X 'grp' -- '--b'\n"
    );
}

#[test]
fn bash_rendering() {
    assert_eq!(render_bash(&vec![], &vec![], "it's"), "COMPREPLY+=('it'\\''s')\n");
    assert_eq!(
        render_bash(&vec![show("--alpha", "--alpha", None, None)], &vec![], ""),
        "COMPREPLY+=( '--alpha' )\n\n"
    );
    assert_eq!(
        render_bash(&vec![], &vec![ShellComp::Dir { mask: Some("*.(rs|md)") }], ""),
        "local cur prev words cword ; _init_completion || return ; _filedir -d '@(rs|md)'\n"
    );
    assert_eq!(
        render_bash(&vec![], &vec![ShellComp::File { mask: None }], ""),
        "local cur prev words cword ; _init_completion || return ; _filedir"
    );
    assert_eq!(
        render_bash(
            &vec![
                show("--a", "--a", Some("g"), None),
                show("--b", "--b", Some("g"), Some("bee")),
                show("--c", "--c", None, None)
            ],
            &vec![],
            ""
        ),
        "COMPREPLY+=('g')\n\
         COMPREPLY+=('--a')\n\
         COMPREPLY+=('--b                      -- bee')\n\
         COMPREPLY+=('--c')\n"
    );
}

#[test]
fn fish_rendering_reverses_and_skips_headers() {
    assert_eq!(render_fish(&vec![], &vec![], "lit", "app"), "lit\n");
    assert_eq!(
        render_fish(
            &vec![show("--a", "--a", None, Some("first")), show("", "HEADER", None, None), show("--b", "--b", None, None)],
            &vec![],
            "",
            "app"
        ),
        "--b\n--a\tfirst\n"
    );
}

#[test]
fn simple_rendering() {
    assert_eq!(render_simple(&vec![show("--a", "--a", None, Some("x"))]), "--a\n");
    assert_eq!(
        render_simple(&vec![show("--a", "--a", None, Some("line one\nline two")), show("--b", "--b", None, None)]),
        "--a\tline one\n--b\n"
    );
}

#[test]
fn test_rendering() {
    assert_eq!(render_test(&vec![], &vec![], "lit"), "lit\n");
    assert_eq!(render_test(&vec![show("--a", "--a", None, None)], &vec![], ""), "--a");
    assert_eq!(
        render_test(
            &vec![show("", "FILE", Some("g"), Some("h"))],
            &vec![ShellComp::File { mask: Some("*.rs") }, ShellComp::Nothing],
            ""
        ),
        "\tFILE\tg\th\n\nFile { mask: Some(\"*.rs\") }\nNothing\n"
    );
}
