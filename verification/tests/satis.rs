use bpaf::satis::config::{Cli, Shell};
use bpaf::satis::{ShellError, Snippet, Stage};

#[test]
fn shell_bash() {
    let (sh, ac) = Shell::parse("bash$ ls -<TAB>").unwrap();
    assert_eq!(sh, Shell::Bash);
    assert_eq!(ac, "ls -<TAB>");
}

#[test]
fn shell_fish() {
    let (sh, ac) = Shell::parse("fish> ls -<TAB>").unwrap();
    assert_eq!(sh, Shell::Fish);
    assert_eq!(ac, "ls -<TAB>");
}

#[test]
fn shell_zsh() {
    let (sh, ac) = Shell::parse("zsh% ls -<TAB>").unwrap();
    assert_eq!(sh, Shell::Zsh);
    assert_eq!(ac, "ls -<TAB>");
}

#[test]
fn shell_errors() {
    assert_eq!(
        Shell::parse("ls -la"),
        Err(ShellError::NoPrompt("ls -la".to_string()))
    );
    assert_eq!(Shell::parse("csh% ls"), Err(ShellError::Unsupported));
    let (sh, ac) = Shell::parse("bash$").unwrap();
    assert_eq!(sh, Shell::Bash);
    assert_eq!(ac, "");
}

#[test]
fn snippet_accessors() {
    let mut s = Snippet::new();
    s.prompt = "  app --help".to_string();
    s.expected = "usage".to_string();
    assert_eq!(s.bin(), "app");
    assert!(s.is_execution());
    assert!(!s.is_mismatch());
    assert_eq!(s.output(), "usage");
    s.prompt = "app --he<TAB>".to_string();
    assert!(!s.is_execution());
    s.stage = Stage::Mismatch { actual: "other".to_string() };
    assert!(s.is_mismatch());
    assert_eq!(s.output(), "other");
    s.prompt = "   ".to_string();
    assert_eq!(s.bin(), "   ");
}

#[test]
fn shell_marks() {
    assert_eq!(Shell::Bash.started(), "bash$ ");
    assert_eq!(Shell::Zsh.complete_rev(), 7);
    assert_eq!(Shell::Fish.display(), "fish>");
    let p = Cli::Bpaf.populate();
    assert_eq!(p.len(), 2);
    assert_eq!(p[0].0, Shell::Bash);
    assert_eq!(p[0].1.arg, "--bpaf-complete-style-bash");
    assert_eq!(p[1].1.arg, "--bpaf-complete-style-zsh");
}

use bpaf::satis::{build_groups, Chunk, Md, MdError};
use std::path::PathBuf;

const DOC: &str = "intro\n\ncomment\n```console\nbash$ app --help\nusage\n```\ntail\n";

#[test]
fn markdown_snippets_are_parsed() {
    let md = Md::parse(PathBuf::from("doc.md"), DOC, None).unwrap();
    assert_eq!(md.chunks.len(), 2);
    match &md.chunks[0] {
        Chunk::Text(t) => assert_eq!(t, "intro\n\ncomment\n"),
        Chunk::Chunk(_) => panic!("expected text"),
    }
    match &md.chunks[1] {
        Chunk::Chunk(s) => {
            assert_eq!(s.shell, Shell::Bash);
            assert_eq!(s.prompt, "app --help");
            assert_eq!(s.expected, "usage");
        }
        Chunk::Text(_) => panic!("expected a snippet"),
    }
    assert_eq!(md.snippets().len(), 1);
    assert!(!md.changed());
}

#[test]
fn markdown_round_trip_drops_trailing_text() {
    let md = Md::parse(PathBuf::from("doc.md"), DOC, None).unwrap();
    assert_eq!(
        md.save_text(),
        "intro\n\ncomment\n```console\nbash$ app --help\nusage\n```\n"
    );
}

#[test]
fn comments_come_from_last_paragraph() {
    let mut md = Md::parse(PathBuf::from("doc.md"), DOC, None).unwrap();
    md.populate_comments();
    let snips = md.snippets();
    assert_eq!(snips[0].comment.as_deref(), Some("comment"));
}

#[test]
fn empty_console_block_is_an_error() {
    match Md::parse(PathBuf::from("doc.md"), "```console\n```\n", None) {
        Err(MdError::MissingShell(1)) => {}
        other => panic!("unexpected {:?}", other.map(|m| m.chunks.len())),
    }
}

#[test]
fn snippet_selection_by_index() {
    let text = "```console\nbash$ a\n```\n```console\nbash$ b\n```\n";
    let md = Md::parse(PathBuf::from("doc.md"), text, Some(vec![1])).unwrap();
    let snips = md.snippets();
    assert_eq!(snips.len(), 1);
    assert_eq!(snips[0].prompt, "b");
}

#[test]
fn recorded_output_is_compared_normalized() {
    let mut md = Md::parse(PathBuf::from("doc.md"), DOC, None).unwrap();
    if let Chunk::Chunk(s) = &mut md.chunks[1] {
        assert!(s.record_output(b"usage  \n\n"));
        assert!(!s.is_mismatch());
        assert!(!s.record_output(b"other"));
        assert!(s.is_mismatch());
        assert_eq!(s.output(), "other");
    } else {
        panic!("expected a snippet");
    }
    assert!(md.changed());
}

#[test]
fn raw_completion_run() {
    let mut s = Snippet::new();
    s.prompt = "app --he<TAB>".to_string();
    let run = s.raw_run();
    assert_eq!(run.args, ["--he"]);
    assert_eq!(run.complete_rev, Some(10));
    s.prompt = "app a b".to_string();
    assert_eq!(s.exec_args(), ["a", "b"]);
}

#[test]
fn groups_follow_file_binary_and_shell() {
    let items = vec![
        (0, "a".to_string(), Shell::Bash),
        (0, "b".to_string(), Shell::Bash),
        (0, "a".to_string(), Shell::Bash),
        (1, "a".to_string(), Shell::Bash),
    ];
    let groups = build_groups(&items);
    assert_eq!(groups.len(), 3);
    assert_eq!((groups[0].file_ix, groups[0].bin_name.as_str(), groups[0].snippets.clone()), (0, "a", vec![0, 2]));
    assert_eq!((groups[1].file_ix, groups[1].bin_name.as_str(), groups[1].snippets.clone()), (0, "b", vec![1]));
    assert_eq!((groups[2].file_ix, groups[2].bin_name.as_str(), groups[2].snippets.clone()), (1, "a", vec![3]));
}

use bpaf::satis::file_set;
use bpaf::satis::required_binaries;

#[test]
fn files_with_indices() {
    let xs: Vec<String> = ["a.md", "1", "2", "b.md", "c.md", "7"].iter().map(|s| s.to_string()).collect();
    let r = file_set(&xs).unwrap();
    assert_eq!(r, vec![(0, vec![1, 2]), (3, vec![]), (4, vec![7])]);
}

#[test]
fn files_must_be_markdown() {
    let xs: Vec<String> = ["a.md", "notes.txt"].iter().map(|s| s.to_string()).collect();
    assert_eq!(file_set(&xs), Err("Expected an .md file, got \"notes.txt\"".to_string()));
    assert_eq!(file_set(&vec![]), Err("You need to specify at least one file".to_string()));
    let xs: Vec<String> = ["1"].iter().map(|s| s.to_string()).collect();
    assert_eq!(file_set(&xs), Err("Expected an .md file, got \"1\"".to_string()));
}

#[test]
fn written_prompts_read_back() {
    for sh in [Shell::Bash, Shell::Zsh, Shell::Fish] {
        let line = format!("{}{}", sh.display(), " \t app --help $x");
        assert_eq!(Shell::parse(&line), Ok((sh, "app --help $x".to_string())));
    }
}

#[test]
fn binaries_are_collected_in_order() {
    let a = Md::parse(
        PathBuf::from("a.md"),
        "text\n```console\nbash$ app --help\nout\n```\n```console\nzsh% other x\n```\n",
        None,
    )
    .unwrap();
    let b = Md::parse(PathBuf::from("b.md"), "```console\nfish> app -v\n```\n", None).unwrap();
    let mds = vec![a, b];
    let known = vec!["other".to_string(), "app".to_string()];
    assert_eq!(
        required_binaries(&mds, &known),
        Ok(vec!["app".to_string(), "other".to_string(), "app".to_string()])
    );
    assert_eq!(required_binaries(&mds, &vec!["app".to_string()]), Err("other".to_string()));
    // only the selected snippets count
    let c = Md::parse(
        PathBuf::from("c.md"),
        "```console\nbash$ skipped\n```\n```console\nbash$ app\n```\n",
        Some(vec![1]),
    )
    .unwrap();
    assert_eq!(required_binaries(&vec![c], &vec!["app".to_string()]), Ok(vec!["app".to_string()]));
}
