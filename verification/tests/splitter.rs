use bpaf::splitter::{split, Chunk, TICKED_CODE};
use bpaf::splitter::Chunk::{LineBreak, Paragraph};

fn raw(s: &str, w: usize) -> Chunk {
    Chunk::Raw(s.to_string(), w)
}

#[test]
fn space_code_block() {
    let xs = split("a\n\n    a\n    b\n\ndf\n\n    c\n    d\n");
    assert_eq!(
        xs,
        [
            raw("a", 1),
            Paragraph,
            raw("a", 1000000),
            raw("b", 1000000),
            Paragraph,
            raw("df", 2),
            Paragraph,
            raw("c", 1000000),
            raw("d", 1000000),
            raw(" ", 1),
        ]
    );
}

#[test]
fn ticks_code_block() {
    let a = "a\n\n```text\na\nb\n```\n\ndf\n\n```\nc\nd\n```\n";
    let xs = split(a);
    assert_eq!(
        xs,
        [
            raw("a", 1),
            Paragraph,
            raw("```text", TICKED_CODE),
            raw("a", TICKED_CODE),
            raw("b", TICKED_CODE),
            raw("```", TICKED_CODE),
            Paragraph,
            raw("df", 2),
            Paragraph,
            raw("```", TICKED_CODE),
            raw("c", TICKED_CODE),
            raw("d", TICKED_CODE),
            raw("```", TICKED_CODE),
        ],
    );
}

#[test]
fn words_and_line_breaks() {
    assert_eq!(split("hello "), [raw("hello", 5), raw(" ", 1)]);
    assert_eq!(split("hello\nworld"), [raw("hello", 5), raw(" ", 1), raw("world", 5)]);
    assert_eq!(split("hello\n world"), [raw("hello", 5), LineBreak, raw("world", 5)]);
    assert_eq!(split("hello\n\nworld"), [raw("hello", 5), Paragraph, raw("world", 5)]);
    assert_eq!(split(""), []);
}

#[test]
fn width_counts_characters() {
    assert_eq!(split("héllo"), [raw("héllo", 5)]);
}
