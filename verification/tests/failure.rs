use bpaf::args::{Args, State};
use bpaf::complete_gen::ShortLong;
use bpaf::error::{Message, MissingItem, Suggestion, Variant};
use bpaf::item::Item;

fn state_from(value: &[&str]) -> State {
    let args = Args::from_strs(value);
    let mut msg = None;
    let res = State::construct(args, &[], &[], &mut msg);
    assert!(msg.is_none());
    res
}

#[test]
fn unexpected_item() {
    let a = state_from(&["--foo"]);
    let r = Message::Unconsumed(0).render(&a, None).unwrap_stderr();
    assert_eq!(r, "`--foo` is not expected in this context");
}

#[test]
fn flag_given_twice() {
    let a = state_from(&["-v", "-x", "-v"]);
    let r = Message::Unconsumed(2).render(&a, None).unwrap_stderr();
    assert_eq!(r, "argument `-v` cannot be used multiple times in this context");
}

#[test]
fn conflicting_flags() {
    let mut a = state_from(&["--intel", "--att"]);
    let mut loser = state_from(&["--intel", "--att"]);
    loser.remove(0);
    a.save_conflicts(&loser, 1);
    let r = Message::Unconsumed(0).render(&a, None).unwrap_stderr();
    assert_eq!(r, "`--intel` cannot be used at the same time as `--att`");
}

#[test]
fn missing_environment_variable() {
    let a = state_from(&[]);
    let r = Message::NoEnv("FOO").render(&a, None).unwrap_stderr();
    assert_eq!(r, "environment variable `FOO` is not set");
}

#[test]
fn argument_followed_by_flag() {
    let a = state_from(&["--foo", "--bar"]);
    let r = Message::NoArgument(0, "ARG").render(&a, None).unwrap_stderr();
    assert_eq!(
        r,
        "`--foo` requires an argument `ARG`, got a flag `--bar`, try `--foo=--bar` to use it as an argument"
    );
    let a = state_from(&["--foo"]);
    let r = Message::NoArgument(0, "ARG").render(&a, None).unwrap_stderr();
    assert_eq!(r, "`--foo` requires an argument `ARG`");
}

#[test]
fn ambiguous_short_names() {
    let args = Args::from_strs(&["-abc"]).set_name("app");
    let mut err = None;
    let a = State::construct(args, &['a'], &['a'], &mut err);
    let msg = err.unwrap();
    let r = msg.render(&a, None).unwrap_stderr();
    assert_eq!(
        r,
        "app supports `-a` as both an option and an option-argument, try to split `-abc` into individual\noptions (-a -b ..) or use `-a=bc` syntax to disambiguate"
    );
}

#[test]
fn positional_side_of_double_dash() {
    let a = state_from(&[]);
    let r = Message::StrictPos(0, "FILE").render(&a, None).unwrap_stderr();
    assert_eq!(r, "expected `FILE` to be on the right side of `--`");
    let r = Message::NonStrictPos(0, "FILE").render(&a, None).unwrap_stderr();
    assert_eq!(r, "expected `FILE` to be on the left side of `--`");
}

#[test]
fn parse_and_guard_failures() {
    let a = state_from(&["x1"]);
    let r = Message::ParseFailed(Some(0), "invalid digit".to_string()).render(&a, None).unwrap_stderr();
    assert_eq!(r, "couldn't parse `x1`: invalid digit");
    let r = Message::ParseFailed(None, "invalid digit".to_string()).render(&a, None).unwrap_stderr();
    assert_eq!(r, "couldn't parse: invalid digit");
    let r = Message::GuardFailed(Some(0), "too big").render(&a, None).unwrap_stderr();
    assert_eq!(r, "`x1`: too big");
    let r = Message::GuardFailed(None, "too big").render(&a, None).unwrap_stderr();
    assert_eq!(r, "check failed: too big");
    let r = Message::ParseFail("custom").render(&a, None).unwrap_stderr();
    assert_eq!(r, "custom");
    let r = Message::PureFailed("pure".to_string()).render(&a, None).unwrap_stderr();
    assert_eq!(r, "pure");
}

#[test]
fn hidden_missing_items() {
    let a = state_from(&[]);
    let r = Message::Missing(Vec::<MissingItem>::new()).render(&a, None).unwrap_stderr();
    assert_eq!(
        r,
        "parser requires an extra flag, argument or parameter, but its name is hidden by the author"
    );
}

fn missing(item: Item, position: usize, start: usize, end: usize) -> MissingItem {
    MissingItem { item, position, scope: start..end }
}

#[test]
fn missing_items_report_what_was_expected() {
    let a = state_from(&["--bar"]);
    let xs = vec![missing(Item::Flag { name: ShortLong::Long("foo".to_string()) }, 0, 0, 1)];
    let r = Message::Missing(xs).render(&a, None).unwrap_stderr();
    assert_eq!(r, "expected `--foo`, got `--bar`. Pass `--help` for usage information");

    let a = state_from(&[]);
    let xs = vec![missing(Item::Positional { metavar: "FILE", strict: false }, 0, 0, 0)];
    let r = Message::Missing(xs).render(&a, None).unwrap_stderr();
    assert_eq!(r, "expected `FILE`, pass `--help` for usage information");
}

#[test]
fn missing_items_use_the_rightmost_scope() {
    let a = state_from(&["a", "b", "c"]);
    let xs = vec![
        missing(Item::Flag { name: ShortLong::Short('a') }, 0, 0, 3),
        missing(Item::Argument { name: ShortLong::Long("name".to_string()), metavar: "N" }, 1, 1, 3),
        missing(Item::Command { name: "build", short: None }, 1, 1, 3),
        missing(Item::Command { name: "run", short: None }, 1, 1, 3),
    ];
    let r = Message::Missing(xs).render(&a, None).unwrap_stderr();
    assert_eq!(
        r,
        "expected `--name=N` or `COMMAND ...`, got `b`. Pass `--help` for usage information"
    );
}

#[test]
fn missing_items_prefer_a_suggestion() {
    let a = state_from(&["--fo"]);
    let xs = vec![missing(Item::Flag { name: ShortLong::Long("foo".to_string()) }, 0, 0, 1)];
    let s = Suggestion::Variant(Variant::Flag(ShortLong::Long("foo".to_string())));
    let r = Message::Missing(xs).render(&a, Some((0, s))).unwrap_stderr();
    assert_eq!(r, "no such flag: `--fo`, did you mean `--foo`?");
}

#[test]
fn expected_lists_two_items_then_more() {
    let a = state_from(&[]);
    let items = vec![
        Item::Flag { name: ShortLong::Short('a') },
        Item::Flag { name: ShortLong::Both('b', "bee".to_string()) },
        Item::Positional { metavar: "FILE", strict: true },
    ];
    let r = Message::Expected(items, None).render(&a, None).unwrap_stderr();
    assert_eq!(r, "expected `-a`, `--bee`, or more, pass `--help` for usage information");
    let r = Message::Expected(vec![], None).render(&a, None).unwrap_stderr();
    assert_eq!(r, "expected no arguments, pass `--help` for usage information");
    let r = Message::Expected(vec![Item::Positional { metavar: "FILE", strict: true }], None)
        .render(&a, None)
        .unwrap_stderr();
    assert_eq!(r, "expected `-- FILE`, pass `--help` for usage information");
}

#[test]
fn suggestions_for_unexpected_items() {
    let a = state_from(&["--fo"]);
    let r = Message::Unconsumed(0)
        .render(&a, Some((0, Suggestion::MissingDash("foo".to_string()))))
        .unwrap_stderr();
    assert_eq!(r, "no such flag: `-foo` (with one dash), did you mean `--foo`?");
    let r = Message::Unconsumed(0).render(&a, Some((0, Suggestion::ExtraDash('f')))).unwrap_stderr();
    assert_eq!(r, "no such flag: `--f` (with two dashes), did you mean `-f`?");
    let s = Suggestion::Nested("build".to_string(), Variant::Flag(ShortLong::Long("fo".to_string())));
    let r = Message::Unconsumed(0).render(&a, Some((0, s))).unwrap_stderr();
    assert_eq!(
        r,
        "flag `--fo` is not valid in this context, did you mean to pass it to command `build`?"
    );
    let a = state_from(&["biuld"]);
    let s = Suggestion::Variant(Variant::CommandLong("build"));
    let r = Message::Suggestion(0, s).render(&a, None).unwrap_stderr();
    assert_eq!(r, "no such command or positional: `biuld`, did you mean `build`?");
}
