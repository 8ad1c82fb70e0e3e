use bpaf::arg::{push_vec, split_os_argument, split_os_argument_fallback, Arg, ArgType};
use bpaf::args::{Args, ItemState, State};
use bpaf::complete_gen::{Comp, CompExtra};
use bpaf::complete_run::{completer_script, ArgScanner, CompleterStyle, Scanned};
use bpaf::error::{Error, Message};
use bpaf::params::{long, short};

const M: &str = "M";

fn state_from(value: &[&str]) -> State {
    let args = Args::from_strs(value);
    let mut msg = None;
    let res = State::construct(args, &[], &[], &mut msg);
    if let Some(err) = &msg {
        panic!("Couldn't construct state: {:?}", err);
    }
    res
}

#[test]
fn long_arg() {
    let mut a = state_from(&["--speed", "12"]);
    let s = a.take_arg(&long("speed"), false, M).unwrap().unwrap();
    assert_eq!(s, b"12");
    assert!(a.is_empty());
}

#[test]
fn long_flag_and_positional() {
    let mut a = state_from(&["--speed", "12"]);
    let flag = a.take_flag(&long("speed"));
    assert!(flag);
    assert!(!a.is_empty());
    let s = a.take_positional_word(M).unwrap();
    assert_eq!(s.2, b"12");
    assert!(a.is_empty());
}

#[test]
fn multiple_short_flags() {
    let args = Args::from_strs(&["-vvv"]);
    let mut err = None;
    let mut a = State::construct(args, &['v'], &[], &mut err);
    assert!(a.take_flag(&short('v')));
    assert!(a.take_flag(&short('v')));
    assert!(a.take_flag(&short('v')));
    assert!(!a.take_flag(&short('v')));
    assert!(a.is_empty());
}

#[test]
fn long_arg_with_equality() {
    let mut a = state_from(&["--speed=12"]);
    let s = a.take_arg(&long("speed"), false, M).unwrap().unwrap();
    assert_eq!(s, b"12");
    assert!(a.is_empty());
}

#[test]
fn long_arg_with_equality_and_minus() {
    let mut a = state_from(&["--speed=-12"]);
    let s = a.take_arg(&long("speed"), true, M).unwrap().unwrap();
    assert_eq!(s, b"-12");
    assert!(a.is_empty());
}

#[test]
fn short_arg_with_equality() {
    let mut a = state_from(&["-s=12"]);
    let s = a.take_arg(&short('s'), false, M).unwrap().unwrap();
    assert_eq!(s, b"12");
    assert!(a.is_empty());
}

#[test]
fn short_arg_with_equality_and_minus() {
    let mut a = state_from(&["-s=-12"]);
    let s = a.take_arg(&short('s'), false, M).unwrap().unwrap();
    assert_eq!(s, b"-12");
    assert!(a.is_empty());
}

#[test]
fn short_arg_with_equality_and_minus_is_adjacent() {
    let mut a = state_from(&["-s=-12"]);
    let s = a.take_arg(&short('s'), true, M).unwrap().unwrap();
    assert_eq!(s, b"-12");
    assert!(a.is_empty());
}

#[test]
fn short_arg_without_equality() {
    let mut a = state_from(&["-s", "12"]);
    let s = a.take_arg(&short('s'), false, M).unwrap().unwrap();
    assert_eq!(s, b"12");
    assert!(a.is_empty());
}

#[test]
fn two_short_flags() {
    let mut a = state_from(&["-s", "-v"]);
    assert!(a.take_flag(&short('s')));
    assert!(a.take_flag(&short('v')));
    assert!(a.is_empty());
}

#[test]
fn two_short_flags2() {
    let mut a = state_from(&["-s", "-v"]);
    assert!(a.take_flag(&short('v')));
    assert!(!a.take_flag(&short('v')));
    assert!(a.take_flag(&short('s')));
    assert!(!a.take_flag(&short('s')));
    assert!(a.is_empty());
}

#[test]
fn command_with_flags() {
    let mut a = state_from(&["cmd", "-s", "v"]);
    assert!(a.take_cmd("cmd"));
    let s = a.take_arg(&short('s'), false, M).unwrap().unwrap();
    assert_eq!(s, b"v");
    assert!(a.is_empty());
}

#[test]
fn command_and_positional() {
    let mut a = state_from(&["cmd", "pos"]);
    assert!(a.take_cmd("cmd"));
    let w = a.take_positional_word(M).unwrap();
    assert_eq!(w.2, b"pos");
    assert!(a.is_empty());
}

#[test]
fn positionals_after_double_dash1() {
    let mut a = state_from(&["-v", "--", "-x"]);
    assert!(a.take_flag(&short('v')));
    let w = a.take_positional_word(M).unwrap();
    assert_eq!(w.2, b"-x");
    assert!(a.is_empty());
}

#[test]
fn positionals_after_double_dash2() {
    let mut a = state_from(&["-v", "--", "-x"]);
    assert!(a.take_flag(&short('v')));
    let w = a.take_positional_word(M).unwrap();
    assert_eq!(w.2, b"-x");
    assert!(a.is_empty());
}

#[test]
fn positionals_after_double_dash3() {
    let mut a = state_from(&["-v", "12", "--", "-x"]);
    let w = a.take_arg(&short('v'), false, M).unwrap().unwrap();
    assert_eq!(w, b"12");
    let w = a.take_positional_word(M).unwrap();
    assert_eq!(w.2, b"-x");
    assert!(a.is_empty());
}

#[test]
fn ambiguity_towards_flag() {
    let args = Args::from_strs(&["-abc"]);
    let mut err = None;
    let mut a = State::construct(args, &['a', 'b', 'c'], &[], &mut err);

    assert!(a.take_flag(&short('a')));
    assert!(a.take_flag(&short('b')));
    assert!(a.take_flag(&short('c')));
}

#[test]
fn ambiguity_towards_argument() {
    let args = Args::from_strs(&["-abc"]);
    let mut err = None;
    let mut a = State::construct(args, &[], &['a'], &mut err);

    let r = a.take_arg(&short('a'), false, M).unwrap().unwrap();
    assert_eq!(r, b"bc");
}

#[test]
fn ambiguity_towards_error() {
    let args = Args::from_strs(&["-abc"]);
    let mut err = None;
    let _a = State::construct(args, &['a', 'b', 'c'], &['a'], &mut err);
    assert!(err.is_some());
}

#[test]
fn ambiguity_towards_default() {
    // AKA unresolved
    let a = state_from(&["-abc"]);
    let is_ambig = matches!(a.peek(), Some(Arg::Word(_)));
    assert!(is_ambig);
}

#[test]
fn ambiguity_reports_position_and_names() {
    let args = Args::from_strs(&["x", "-abc", "y"]);
    let mut err = None;
    let a = State::construct(args, &['a'], &['a'], &mut err);
    match err {
        Some(Message::Ambiguity(ix, names)) => {
            assert_eq!(ix, 1);
            assert_eq!(names, "abc");
        }
        other => panic!("unexpected {:?}", other),
    }
    // preprocessing stopped at the ambiguity
    assert_eq!(a.len(), 2);
}

#[test]
fn missing_positional_reports_scope() {
    let mut a = state_from(&["-v"]);
    match a.take_positional_word(M) {
        Err(Error(Message::Missing(items))) => {
            assert_eq!(items.len(), 1);
            assert_eq!(items[0].position, 0);
            assert_eq!(items[0].scope, 0..1);
        }
        other => panic!("unexpected {:?}", other.map(|x| x.0)),
    }
}

#[test]
fn argument_without_value_is_an_error() {
    let mut a = state_from(&["-s", "-v"]);
    match a.take_arg(&short('s'), false, M) {
        Err(Error(Message::NoArgument(0, m))) => assert_eq!(m, "M"),
        other => panic!("unexpected {:?}", other),
    }
    // nothing was consumed
    assert_eq!(a.len(), 2);
}

#[test]
fn double_dash_is_consumed_unless_completing() {
    let a = state_from(&["--"]);
    assert!(a.is_empty());
    let args = Args::from_strs(&["--"]).set_comp(1);
    let mut err = None;
    let a = State::construct(args, &[], &[], &mut err);
    assert_eq!(a.len(), 1);
    assert!(a.is_comp());
}

#[test]
fn completion_revision_flag_is_consumed() {
    let args = Args::from_strs(&["--bpaf-complete-rev=7", "x"]);
    let mut err = None;
    let a = State::construct(args, &[], &[], &mut err);
    assert!(a.is_comp());
    assert_eq!(a.len(), 1);
}

#[test]
fn completer_request_stops_preprocessing() {
    let args = Args::from_strs(&["--bpaf-complete-style-bash", "x"]).set_name("app");
    let mut err = None;
    let a = State::construct(args, &[], &[], &mut err);
    assert_eq!(a.completer_request(), Some(CompleterStyle::Bash));
    assert_eq!(a.len(), 0);
    assert_eq!(a.depth(), 1);
    // without a name the flag is an ordinary one
    let args = Args::from_strs(&["--bpaf-complete-style-bash"]);
    let a = State::construct(args, &[], &[], &mut err);
    assert_eq!(a.completer_request(), None);
    assert_eq!(a.len(), 1);
}

#[test]
fn scanner_reads_revision() {
    let mut s = ArgScanner { revision: None, name: None };
    assert_eq!(s.check_next(b"--bpaf-complete-rev=12"), Scanned::Consumed);
    assert_eq!(s.revision, Some(12));
    assert_eq!(s.check_next(b"--bpaf-complete-rev=x"), Scanned::Consumed);
    assert_eq!(s.revision, Some(12));
    assert_eq!(s.check_next(b"--other"), Scanned::Kept);
    assert_eq!(s.check_next(&[0xff, 0xfe]), Scanned::Kept);
    let mut s = ArgScanner { revision: None, name: Some("app") };
    assert_eq!(s.check_next(b"--bpaf-complete-style-zsh"), Scanned::Dump(CompleterStyle::Zsh));
    assert!(s.done().is_none());
}

#[test]
fn completer_scripts() {
    let bash = completer_script(CompleterStyle::Bash, "app");
    assert!(bash.starts_with("_bpaf_dynamic_completion()\n{\n"));
    assert!(bash.ends_with("complete -o nosort -F _bpaf_dynamic_completion app\n"));
    let zsh = completer_script(CompleterStyle::Zsh, "app");
    assert!(zsh.starts_with("#compdef app\nlocal line\n"));
    assert!(zsh.ends_with("source <(eval ${line})\n\n"));
    let fish = completer_script(CompleterStyle::Fish, "app");
    assert!(fish.ends_with(
        "complete --no-files --command app --arguments '(_bpaf_dynamic_completion)'\n\n"
    ));
    let elvish = completer_script(CompleterStyle::Elvish, "app");
    assert!(elvish.starts_with("set edit:completion:arg-completer[app] = { |@args| var args = $args[1..];\n     var @lines = ( app --bpaf-complete-rev=1 $@args );\n"));
    assert!(elvish.contains("(str:split \"\\t\" $line)"));
    assert!(elvish.ends_with("     }\n}\n"));
}

#[test]
fn split_long_and_short() {
    let (ty, name, arg) = split_os_argument(b"--speed=12").unwrap();
    assert_eq!(ty, ArgType::Long);
    assert_eq!(name, "speed");
    assert_eq!(arg, Some(Arg::Word(b"12".to_vec())));
    let (ty, name, arg) = split_os_argument(b"-abc").unwrap();
    assert_eq!(ty, ArgType::Short);
    assert_eq!(name, "abc");
    assert_eq!(arg, None);
    // the first byte of a short name is part of it, even `=`
    let (ty, name, arg) = split_os_argument(b"-=x").unwrap();
    assert_eq!(ty, ArgType::Short);
    assert_eq!(name, "=x");
    assert_eq!(arg, None);
    let (ty, name, arg) = split_os_argument(b"--=x").unwrap();
    assert_eq!(ty, ArgType::Long);
    assert_eq!(name, "");
    assert_eq!(arg, Some(Arg::Word(b"x".to_vec())));
}

#[test]
fn split_rejects_non_flags() {
    assert!(split_os_argument(b"-").is_none());
    assert!(split_os_argument(b"--").is_none());
    assert!(split_os_argument(b"word").is_none());
    assert!(split_os_argument(b"").is_none());
    // the name must be utf8, the value need not be
    assert!(split_os_argument(&[b'-', b'-', 0xff]).is_none());
    let (_, name, arg) = split_os_argument(&[b'-', b'-', b'n', b'=', 0xff]).unwrap();
    assert_eq!(name, "n");
    assert_eq!(arg, Some(Arg::Word(vec![0xff])));
}

#[test]
fn split_fallback_agrees() {
    for s in ["--speed=12", "-abc", "-=x", "--=x", "-", "--", "word", "--é=ü", "-é"] {
        assert_eq!(
            split_os_argument(s.as_bytes()),
            split_os_argument_fallback(s),
            "{}",
            s
        );
    }
}

#[test]
fn push_vec_marks_ambiguity_and_positionals() {
    let mut v = Vec::new();
    let mut pos_only = false;
    push_vec(&mut v, b"-abc".to_vec(), &mut pos_only);
    push_vec(&mut v, b"-s=1".to_vec(), &mut pos_only);
    push_vec(&mut v, b"--".to_vec(), &mut pos_only);
    assert!(pos_only);
    push_vec(&mut v, b"-x".to_vec(), &mut pos_only);
    assert_eq!(
        v,
        vec![
            Arg::Ambiguity(vec!['a', 'b', 'c'], b"-abc".to_vec()),
            Arg::Short('s', true, b"-s=1".to_vec()),
            Arg::Word(b"1".to_vec()),
            Arg::PosWord(b"--".to_vec()),
            Arg::PosWord(b"-x".to_vec()),
        ]
    );
}

#[test]
fn arg_text() {
    assert_eq!(Arg::Short('v', false, vec![]).to_string(), "-v");
    assert_eq!(Arg::Long("speed".to_string(), false, vec![]).to_string(), "--speed");
    assert_eq!(Arg::Word(b"hi".to_vec()).to_string(), "hi");
    assert_eq!(Arg::Word(vec![b'a', 0xff]).to_string(), "a\u{FFFD}");
}

#[test]
fn state_bookkeeping() {
    let mut a = state_from(&["a", "b", "c", "d"]);
    assert_eq!(a.len(), 4);
    a.remove(1);
    assert_eq!(a.current, Some(1));
    assert_eq!(a.len(), 3);
    a.remove(1);
    assert_eq!(a.len(), 3);
    assert_eq!(a.present(1), Some(false));
    assert_eq!(a.present(9), None);
    assert_eq!(a.adjacently_available_from(2), 2..4);
    assert_eq!(a.adjacently_available_from(1), 1..1);
    a.set_scope(2..4);
    assert_eq!(a.len(), 2);
    assert!(a.get(0).is_none());
    assert_eq!(a.get(2), Some(&Arg::Word(b"c".to_vec())));
    assert_eq!(a.scope(), 2..4);
    assert_eq!(a.items_iter(), vec![2, 3]);
    a.remove(2);
    assert_eq!(a.items_iter(), vec![3]);
    a.set_scope(0..4);
    assert_eq!(a.items_iter(), vec![0, 3]);
}

#[test]
fn conflicts_and_winners() {
    let mut a = state_from(&["a", "b", "c"]);
    let mut b = state_from(&["a", "b", "c"]);
    b.remove(0);
    assert_eq!(a.pick_winner(&b), (false, Some(0)));
    assert_eq!(b.pick_winner(&a), (true, Some(0)));
    assert_eq!(a.pick_winner(&a), (true, None));
    a.save_conflicts(&b, 7);
    assert_eq!(a.conflict(), Some((0, 7)));
    assert_eq!(a.len(), 3);
    assert_eq!(ItemState::Conflict(7).present(), true);
    assert_eq!(ItemState::Parsed.parsed(), true);
}

#[test]
fn adjacent_scope_narrows() {
    let original = state_from(&["a", "b", "c", "d"]);
    let mut a = state_from(&["a", "b", "c", "d"]);
    a.remove(0);
    a.remove(1);
    assert_eq!(a.adjacent_scope(&original), Some(0..2));
    assert_eq!(original.adjacent_scope(&original), Some(0..0));
}

#[test]
fn check_complete_echoes_word_without_hints() {
    let args = Args::from_strs(&["--fo"]).set_comp(0);
    let mut err = None;
    let a = State::construct(args, &[], &[], &mut err);
    assert_eq!(a.check_complete(), Some("--fo\n".to_string()));
    // no completion without a revision
    let a = state_from(&["--fo"]);
    assert_eq!(a.check_complete(), None);
}

#[test]
fn check_complete_offers_positional_separator() {
    let args = Args::from_strs(&[""]).set_comp(0);
    let mut err = None;
    let mut a = State::construct(args, &[], &[], &mut err);
    a.push_pos_sep();
    assert_eq!(a.check_complete(), Some("--".to_string()));
    a.clear_comps();
    assert_eq!(a.check_complete(), Some("\n".to_string()));
}

#[test]
fn check_complete_uses_value_of_argument() {
    // `-k val`: the value is completed, the flag before it gives the prefix
    let args = Args::from_strs(&["-k=va"]).set_comp(0);
    let mut err = None;
    let a = State::construct(args, &[], &[], &mut err);
    assert_eq!(a.check_complete(), Some("-k=va\n".to_string()));
}

#[test]
fn pos_ahead_blocking() {
    let args = Args::from_strs(&["x"]).set_comp(0);
    let mut err = None;
    let mut a = State::construct(args, &[], &[], &mut err);
    assert!(!a.check_no_pos_ahead());
    a.set_no_pos_ahead();
    assert!(a.check_no_pos_ahead());
    let mut b = state_from(&["x"]);
    assert!(!b.is_comp());
    a.swap_comps(&mut b);
    assert!(!a.is_comp());
    assert!(b.is_comp());
    assert!(!b.touching_last_remove());
    b.remove(0);
    assert!(b.touching_last_remove());
}

#[test]
fn hints_join_a_group_unless_they_have_one() {
    let args = Args::from_strs(&[""]).set_comp(0);
    let mut err = None;
    let mut a = State::construct(args, &[], &[], &mut err);
    let mut comps = vec![
        Comp::Metavariable {
            extra: CompExtra { depth: 0, group: None, help: None },
            meta: "A".to_string(),
            is_argument: false,
        },
        Comp::Metavariable {
            extra: CompExtra { depth: 0, group: Some("mine".to_string()), help: None },
            meta: "B".to_string(),
            is_argument: false,
        },
    ];
    a.push_with_group(&Some("grp".to_string()), &mut comps);
    assert!(comps.is_empty());
    // rendered for the test shell: subst, pretty, group, help
    assert_eq!(a.check_complete(), Some("\tA\tgrp\t\n\tB\tmine\t\n\n".to_string()));

    // without completion the hints stay where they were
    let mut b = state_from(&["x"]);
    let mut comps = vec![Comp::Metavariable {
        extra: CompExtra { depth: 0, group: None, help: None },
        meta: "A".to_string(),
        is_argument: false,
    }];
    b.push_with_group(&None, &mut comps);
    assert_eq!(comps.len(), 1);
}

#[test]
fn commands_and_metavariables_are_offered() {
    let args = Args::from_strs(&["b"]).set_comp(0);
    let mut err = None;
    let mut a = State::construct(args, &[], &[], &mut err);
    a.push_command("build", Some('b'), &None);
    a.push_command("check", None, &None);
    assert_eq!(a.check_complete(), Some("build".to_string()));

    let args = Args::from_strs(&[""]).set_comp(0);
    let mut a = State::construct(args, &[], &[], &mut err);
    a.push_metavar("FILE", &None, false);
    assert_eq!(a.check_complete(), Some("\tFILE\t\t\n\n".to_string()));

    // nothing is collected when not completing
    let mut b = state_from(&["b"]);
    b.push_command("build", None, &None);
    assert_eq!(b.check_complete(), None);
}
