use bpaf::complete_gen::{arg_matches, cmd_matches, Comp, CompExtra, Complete, Prefix, ShellComp, ShortLong};

fn extra(depth: usize, help: Option<&str>) -> CompExtra {
    CompExtra { depth, group: None, help: help.map(|h| h.to_string()) }
}

fn flag(depth: usize, name: ShortLong) -> Comp {
    Comp::Flag { extra: extra(depth, None), name }
}

fn substs(c: &Complete, arg: &str, pos_only: bool, prefix: &Prefix) -> Vec<(String, String)> {
    let (items, _) = c.complete(arg, pos_only, false, prefix);
    items.into_iter().map(|s| (s.subst, s.pretty)).collect()
}

#[test]
fn only_the_deepest_hints_are_offered() {
    let mut c = Complete::new(1);
    c.push_comp(flag(0, ShortLong::Long("alpha".to_string())));
    c.push_comp(flag(1, ShortLong::Long("beta".to_string())));
    c.push_comp(flag(1, ShortLong::Both('g', "gamma".to_string())));
    let (items, shell) = c.complete("", false, false, &Prefix::NA);
    assert_eq!(shell, vec![]);
    assert_eq!(items.len(), 2);
    assert!(items.iter().all(|s| s.extra.depth == 1));
    assert_eq!(items[0].subst, "--beta");
    assert_eq!(items[1].subst, "--gamma");
}

#[test]
fn partial_names_narrow_the_flags() {
    let mut c = Complete::new(1);
    c.push_comp(flag(0, ShortLong::Long("alpha".to_string())));
    c.push_comp(flag(0, ShortLong::Both('b', "beta".to_string())));
    c.push_comp(flag(0, ShortLong::Short('c')));
    assert_eq!(substs(&c, "--a", false, &Prefix::NA), vec![("--alpha".to_string(), "--alpha".to_string())]);
    assert_eq!(substs(&c, "-b", false, &Prefix::NA), vec![("--beta".to_string(), "--beta".to_string())]);
    assert_eq!(substs(&c, "-c", false, &Prefix::NA), vec![("-c".to_string(), "-c".to_string())]);
    assert_eq!(substs(&c, "-", false, &Prefix::NA).len(), 3);
    assert_eq!(substs(&c, "x", false, &Prefix::NA), vec![]);
}

#[test]
fn arguments_show_their_metavariable() {
    let mut c = Complete::new(1);
    c.push_comp(Comp::Argument {
        extra: extra(0, Some("a name")),
        name: ShortLong::Long("name".to_string()),
        metavar: "N".to_string(),
    });
    let (items, _) = c.complete("--na", false, false, &Prefix::NA);
    assert_eq!(items.len(), 1);
    assert_eq!(items[0].subst, "--name");
    assert_eq!(items[0].pretty, "--name=N");
    assert_eq!(items[0].extra.help.as_deref(), Some("a name"));
}

#[test]
fn values_suppress_everything_else() {
    let mut c = Complete::new(1);
    c.push_comp(flag(0, ShortLong::Long("alpha".to_string())));
    c.push_value("apple".to_string(), None, None, 0, true);
    c.push_comp(flag(0, ShortLong::Long("beta".to_string())));
    c.push_value("avocado".to_string(), Some("green".to_string()), None, 0, true);
    assert_eq!(
        substs(&c, "a", false, &Prefix::NA),
        vec![
            ("apple".to_string(), "apple".to_string()),
            ("avocado".to_string(), "avocado".to_string())
        ]
    );
    assert_eq!(
        substs(&c, "a", false, &Prefix::Long("fruit".to_string())),
        vec![
            ("--fruit=apple".to_string(), "apple".to_string()),
            ("--fruit=avocado".to_string(), "avocado".to_string())
        ]
    );
    assert_eq!(substs(&c, "a", false, &Prefix::Short('f'))[0].0, "-f=apple");
}

#[test]
fn commands_match_by_prefix_or_short_alias() {
    let mut c = Complete::new(1);
    c.push_comp(Comp::Command { extra: extra(0, None), name: "build".to_string(), short: Some('b') });
    c.push_comp(Comp::Command { extra: extra(0, None), name: "check".to_string(), short: None });
    assert_eq!(substs(&c, "bu", false, &Prefix::NA), vec![("build".to_string(), "build".to_string())]);
    assert_eq!(substs(&c, "b", false, &Prefix::NA), vec![("build".to_string(), "build".to_string())]);
    assert_eq!(substs(&c, "", false, &Prefix::NA).len(), 2);
    assert_eq!(substs(&c, "x", false, &Prefix::NA), vec![]);
}

#[test]
fn positional_only_drops_named_items() {
    let mut c = Complete::new(1);
    c.push_comp(flag(0, ShortLong::Long("alpha".to_string())));
    c.push_comp(Comp::Metavariable { extra: extra(0, None), meta: "FILE".to_string(), is_argument: false });
    assert_eq!(substs(&c, "", true, &Prefix::NA), vec![(String::new(), "FILE".to_string())]);
    assert_eq!(substs(&c, "", false, &Prefix::NA).len(), 2);
    // a dash starts a flag, not a positional value
    assert_eq!(substs(&c, "-", false, &Prefix::NA), vec![("--alpha".to_string(), "--alpha".to_string())]);
}

#[test]
fn shell_completions_only_for_unnamed_words() {
    let mut c = Complete::new(1);
    c.push_shell(ShellComp::File { mask: Some("*.rs") }, false, 0);
    let (_, shell) = c.complete("", false, false, &Prefix::NA);
    assert_eq!(shell, vec![ShellComp::File { mask: Some("*.rs") }]);
    let (_, shell) = c.complete("", false, true, &Prefix::NA);
    assert_eq!(shell, vec![]);
}

#[test]
fn matching_helpers() {
    assert_eq!(arg_matches("--ver", &ShortLong::Both('v', "verbose".to_string())).as_deref(), Some("--verbose"));
    assert_eq!(arg_matches("--x", &ShortLong::Both('v', "verbose".to_string())), None);
    assert_eq!(arg_matches("-v", &ShortLong::Short('v')).as_deref(), Some("-v"));
    assert_eq!(cmd_matches("ch", &"check".to_string(), None).as_deref(), Some("check"));
    assert_eq!(cmd_matches("c", &"build".to_string(), Some('c')).as_deref(), Some("build"));
    assert_eq!(cmd_matches("z", &"build".to_string(), Some('c')), None);
}
