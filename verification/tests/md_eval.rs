use bpaf::md_eval::document::{fold_html, fold_source, Document as Tree, Nav, STYLE};
use bpaf::md_eval::md::{fold_open, Document, Pagination, RenderError};
use bpaf::md_eval::types::{parse_usize_exec, Block, CodeTok, FenceError, Upcoming};
use std::path::PathBuf;

#[test]
fn fence_words() {
    assert_eq!(
        CodeTok::from_fence("rust,id:1,fold:Title"),
        Ok(vec![CodeTok::Source, CodeTok::Id(1), CodeTok::Title("Title".to_string())])
    );
    assert_eq!(CodeTok::from_fence(""), Ok(vec![]));
    assert_eq!(CodeTok::from_fence("run,text"), Ok(vec![CodeTok::Runner, CodeTok::Text]));
    assert_eq!(CodeTok::from_fence("rust,,"), Err(FenceError::Unknown(String::new())));
    assert_eq!(CodeTok::from_fence("id:x"), Err(FenceError::BadId("x".to_string())));
    assert_eq!(CodeTok::from_fence("python"), Err(FenceError::Unknown("python".to_string())));
}

#[test]
fn fences() {
    assert!(matches!(
        Upcoming::parse_fence("run,id:1,id:2"),
        Ok(Upcoming::Exec { title: None, ids }) if ids == vec![1, 2]
    ));
    assert!(matches!(
        Upcoming::parse_fence("rust,fold:T,id:4"),
        Ok(Upcoming::Code { title: Some(t), id: Some(4) }) if t == "T"
    ));
    assert!(matches!(Upcoming::parse_fence("text"), Ok(Upcoming::Ignore)));
    assert!(matches!(Upcoming::parse_fence(""), Ok(Upcoming::Ignore)));
    assert!(matches!(Upcoming::parse_fence("id:1"), Err(FenceError::Unguarded)));
    assert!(matches!(Upcoming::parse_fence("rust,run"), Err(FenceError::Repeated)));
    assert!(matches!(Upcoming::default(), Upcoming::Ignore));
}

#[test]
fn fence_error_messages() {
    assert_eq!(
        FenceError::Repeated.message(),
        "Code block should have only one ```rust or ```run"
    );
    assert_eq!(FenceError::Unknown("x".to_string()).message(), "Not sure how to parse \"x\"");
    assert_eq!(FenceError::BadId("".to_string()).message(), "cannot parse integer from empty string");
    assert_eq!(FenceError::BadId("1x".to_string()).message(), "invalid digit found in string");
    assert_eq!(
        FenceError::BadId("99999999999999999999999".to_string()).message(),
        "number too large to fit in target type"
    );
}

#[test]
fn numbers() {
    assert_eq!(parse_usize_exec("12"), Some(12));
    assert_eq!(parse_usize_exec("+12"), Some(12));
    assert_eq!(parse_usize_exec("+"), None);
    assert_eq!(parse_usize_exec(""), None);
    assert_eq!(parse_usize_exec("-1"), None);
    assert_eq!(parse_usize_exec("99999999999999999999999"), None);
    assert_eq!("99999999999999999999999".parse::<usize>().ok(), None);
}

#[test]
fn code_blocks() {
    match Block::parse_inner("rust,id:3", "# use x;\nfn main() {}\r\n") {
        Ok(Block::Code(Some(3), code)) => {
            assert_eq!(code.text, "use x;\nfn main() {}\n");
            assert_eq!(code.title, None);
        }
        _ => panic!("expected code"),
    }
    match Block::parse_inner("run,id:3,fold:T", "--help\n") {
        Ok(Block::Exec(exec)) => {
            assert_eq!(exec.line, "--help");
            assert_eq!(exec.ids, vec![3]);
            assert_eq!(exec.title, Some("T".to_string()));
        }
        _ => panic!("expected exec"),
    }
    assert!(matches!(Block::parse_inner("text", "x"), Ok(Block::Ignore)));
    let e = Block::parse(7, "rust,rust", "x").err().unwrap();
    assert_eq!(e.line, 7);
    assert_eq!(e.error, FenceError::Repeated);
}

#[test]
fn pagination() {
    let single = Pagination { pad: "//!", index: "intro", current: 0, pages: 1 };
    assert_eq!(single.render(), "");
    let first = Pagination { pad: "//!", index: "intro", current: 0, pages: 2 };
    assert_eq!(
        first.render(),
        "//!\n//! <table width='100%' cellspacing='0' style='border: hidden;'><tr>\n//!  <td style='text-align: center;'>\n//!\n//! **1**\n//! [2](page_1)\n//! [&rarr;](page_1)\n//!\n//!  </td>\n//! </tr></table>\n"
    );
    let second = Pagination { pad: "///", index: "intro", current: 1, pages: 2 };
    assert_eq!(
        second.render(),
        "///\n/// <table width='100%' cellspacing='0' style='border: hidden;'><tr>\n///  <td style='text-align: center;'>\n///\n/// [&larr;](super::intro)\n/// [1](super::intro)\n/// **2**\n///\n///  </td>\n/// </tr></table>\n"
    );
}

#[test]
fn folds() {
    assert_eq!(fold_open("T"), "<details><summary>T</summary>");
    assert_eq!(
        fold_source("T", "fn main() {}\n"),
        "<details><summary>T</summary>\n\n```rust\nfn main() {}\n```\n\n</details>"
    );
    assert_eq!(
        fold_html("T", "--help", "usage"),
        format!("<details><summary>T</summary><div style=\"{STYLE}\">\n$ app --help<br />\nusage\n</div></details>")
    );
}

#[test]
fn navigation() {
    let none = Nav { pad: "//!", prev: None, index: None, next: None };
    assert_eq!(none.render(), "");
    let nav = Nav { pad: "//!", prev: Some("a"), index: None, next: None };
    assert_eq!(
        nav.render(),
        "//!\n//! <table width='100%' cellspacing='0' style='border: hidden;'><tr>\n//!  <td style='width: 34%; text-align: left;'>\n//!  </td>\n//!  <td style='width: 33%; text-align: center;'>\n//!\n//! [&larr; ](a)\n//!\n//!  </td>\n//!  <td style='width: 33%; text-align: right;'>\n//!  </td>\n//! </tr></table>\n//!\n"
    );
}

#[test]
fn document_names() {
    let page = Document::Page { name: "intro".to_string(), contents: String::new(), file: "intro.md".to_string() };
    assert_eq!(page.name(), "intro");
    assert_eq!(page.ext(), "md");
    let pages = Document::Pages {
        name: "guide".to_string(),
        pages: vec![String::new()],
        file: "guide".to_string(),
        files: vec![PathBuf::from("guide/a.md")],
    };
    assert_eq!(pages.name(), "guide");
    assert_eq!(pages.ext(), "rs");
    let tree = Tree::default();
    assert_eq!(tree.name, "");
    assert_eq!(tree.children.len(), 0);
}

#[test]
fn rendering_markdown_with_outputs() {
    let contents = "```rust,fold:Example,id:1\nfn main() {}\n```\n\n```run,id:1\n--help\n```\n";
    let doc = Document::Page { name: "a".to_string(), contents: contents.to_string(), file: "a.md".to_string() };
    let md = doc.render_markdown(&vec!["usage\n".to_string()]).unwrap();
    assert!(md.contains("<details><summary>Example</summary>"));
    assert!(md.contains("```rust"));
    assert!(md.contains("fn main() {}"));
    assert!(md.contains("</details>"));
    assert!(md.contains("$ app --help\nusage\n```"));
    // without an output for the exec block the document does not render
    assert!(doc.try_render_markdown(&vec![]).is_none());
}

#[test]
fn rendering_rust_modules() {
    let contents = "```rust,id:1\n# use x;\nfn main() {}\n```\n\n```run,id:1\n--help\n```\n";
    let doc = Document::Page { name: "a".to_string(), contents: contents.to_string(), file: "a.md".to_string() };
    let m = doc.render_rust().unwrap();
    assert_eq!(m.name, "a");
    assert!(m.code.starts_with("mod a {\n        mod r1 { #![allow(dead_code)]\nuse x;\nfn main() {}\n}\n"));
    assert!(m.code.contains(
        "out.push(crate::render_res(r1::options().run_inner(bpaf::Args::from(&[\"--help\"]).set_name(\"app\"))));\n"
    ));
    assert!(m.code.contains("join(\"a.md\")"));
    assert!(m.code.contains("md_eval::md::Document::load(\"a.md\").expect(\"Failed to read \\\"a.md\");"));
    let doc = Document::Page { name: "b".to_string(), contents: String::new(), file: "docs/b \"q\".md".to_string() };
    assert_eq!(doc.read_from(), "docs/b \"q\".md");
    let m = doc.render_rust().unwrap();
    assert!(m.code.contains("Document::load(\"docs/b \\\"q\\\".md\")"));

    let dup = "```rust,id:1\nx\n```\n\n```rust,id:1\ny\n```\n";
    let doc = Document::Page { name: "a".to_string(), contents: dup.to_string(), file: "a.md".to_string() };
    assert!(matches!(doc.render_rust(), Err(RenderError::Duplicate(1))));

    let unknown = "```run,id:5\n--help\n```\n";
    let doc = Document::Page { name: "a".to_string(), contents: unknown.to_string(), file: "a.md".to_string() };
    assert!(doc.try_render_rust().is_none());
}
