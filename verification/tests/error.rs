use bpaf::buffer::Buffer;
use bpaf::console::Color;
use bpaf::error::{Error, Message, MissingItem, ParseFailure};
use bpaf::item::Item;

fn doc(text: &str) -> Buffer {
    let mut d = Buffer::default();
    d.text(text);
    d
}

fn missing(position: usize) -> MissingItem {
    MissingItem { item: Item::Positional { metavar: "X", strict: false }, position, scope: 0..10 }
}

#[test]
fn exit_codes() {
    assert_eq!(ParseFailure::Stdout(doc("help"), true).exit_code(), 0);
    assert_eq!(ParseFailure::Completion("x".to_string()).exit_code(), 0);
    assert_eq!(ParseFailure::Stderr(doc("oops")).exit_code(), 1);
}

#[test]
fn unwrapping_failures() {
    assert_eq!(ParseFailure::Stderr(doc("oops")).unwrap_stderr(), "oops");
    assert_eq!(ParseFailure::Stdout(doc("help"), true).unwrap_stdout(), "help");
    assert_eq!(ParseFailure::Completion("abc".to_string()).unwrap_stdout(), "abc");
}

#[test]
fn messages_go_to_the_right_stream() {
    let (err, text) = ParseFailure::Stderr(doc("oops")).message(100, Color::Monochrome);
    assert!(err);
    assert_eq!(text, "Error: oops\n");
    let (err, text) = ParseFailure::Stderr(doc("oops")).message(100, Color::Dull);
    assert!(err);
    assert_eq!(text, "\u{1b}[31m\u{1b}[1mError: \u{1b}[0m\u{1b}[39moops\n");
    let (err, text) = ParseFailure::Stdout(doc("hi"), true).message(100, Color::Monochrome);
    assert!(!err);
    assert_eq!(text, "hi\n");
    let (err, text) = ParseFailure::Completion("c\n".to_string()).message(100, Color::Monochrome);
    assert!(!err);
    assert_eq!(text, "c\n");
    let (err, _) = ParseFailure::Stderr(doc("oops")).print_mesage(100);
    assert!(err);
}

#[test]
fn catchable_messages() {
    assert!(Message::NoEnv("X").can_catch());
    assert!(Message::Missing(Vec::new()).can_catch());
    assert!(Message::NonStrictPos(1, "FOO").can_catch());
    assert!(!Message::StrictPos(1, "FOO").can_catch());
    assert!(!Message::Unconsumed(3).can_catch());
    assert!(!Message::ParseFailure(ParseFailure::Completion(String::new())).can_catch());
}

#[test]
fn combining_messages() {
    // a catchable message gives way to the other one
    let r = Message::ParseFail("a").combine_with(Message::NoEnv("b"));
    assert!(matches!(r, Message::NoEnv("b")));
    // the first message that cannot be caught wins
    let r = Message::Unconsumed(1).combine_with(Message::ParseFail("x"));
    assert!(matches!(r, Message::Unconsumed(1)));
    let r = Message::Conflict(1, 2).combine_with(Message::OnlyOnce(3, 4));
    assert!(matches!(r, Message::Conflict(1, 2)));
    // missing items are put together
    let r = Message::Missing(vec![missing(1)]).combine_with(Message::Missing(vec![missing(2), missing(3)]));
    match r {
        Message::Missing(xs) => {
            assert_eq!(xs.len(), 3);
            assert_eq!(xs[0].position, 1);
            assert_eq!(xs[2].position, 3);
        }
        _ => panic!("expected missing items"),
    }
    // final failures take priority from either side
    let r = Message::Unconsumed(1).combine_with(Message::ParseFailure(ParseFailure::Completion("c".to_string())));
    assert!(matches!(r, Message::ParseFailure(ParseFailure::Completion(_))));
    let r = Error(Message::ParseFailure(ParseFailure::Stderr(doc("a"))))
        .combine_with(Error(Message::ParseFailure(ParseFailure::Completion("b".to_string()))));
    assert!(matches!(r.0, Message::ParseFailure(ParseFailure::Stderr(_))));
}
