//! Shell completion: collected completion hints and their selection for the word being
//! completed.
//!
//! Static completions are flag and command names, dynamic ones are values of arguments
//! and positional items. Only the hints collected at the deepest command level are offered,
//! and a hint that completes a value suppresses everything that is not a value.

use crate::text::{chars_eq, chars_prefix, chars_skip, chars_string, push_chars, push_str_chars, starts_with, str_chars};
use vstd::prelude::*;

verus! {

/// Short and/or long name of a flag or an argument
#[derive(Debug, Clone, PartialEq, Eq)]
pub enum ShortLong {
    Short(char),
    Long(String),
    Both(char, String),
}

/// Shell specific completion
#[derive(Debug, Clone, Copy, PartialEq, Eq)]
pub enum ShellComp {
    /// A file or directory name with an optional file mask
    File { mask: Option<&'static str> },
    /// Similar to `File` but limited to directories only
    Dir { mask: Option<&'static str> },
    /// You can also specify a raw value to use for each supported shell
    Raw { bash: &'static str, zsh: &'static str, fish: &'static str, elvish: &'static str },
    /// Don't produce anything at all from this parser
    Nothing,
}

/// Extra information attached to a completion hint
#[derive(Debug)]
pub struct CompExtra {
    /// Used to separate commands from each other
    pub depth: usize,
    /// Render this option in a group along with all other items with the same name
    pub group: Option<String>,
    /// help message attached to a completion item
    pub help: Option<String>,
}

/// Mathematical form of [`CompExtra`]
pub struct ExtraView {
    pub depth: nat,
    pub group: Option<Seq<char>>,
    pub help: Option<Seq<char>>,
}

/// The characters of an optional string.
pub open spec fn opt_view(o: Option<String>) -> Option<Seq<char>> {
    match o {
        Some(s) => Some(s@),
        None => None,
    }
}

impl View for CompExtra {
    type V = ExtraView;

    open spec fn view(&self) -> ExtraView {
        ExtraView { depth: self.depth as nat, group: opt_view(self.group), help: opt_view(self.help) }
    }
}

fn clone_opt(o: &Option<String>) -> (r: Option<String>)
    ensures
        opt_view(r) == opt_view(*o),
{
    match o {
        Some(s) => Some(s.clone()),
        None => None,
    }
}

impl CompExtra {
    /// A copy with the same contents
    pub fn duplicate(&self) -> (r: CompExtra)
        ensures
            r@ == self@,
    {
        CompExtra { depth: self.depth, group: clone_opt(&self.group), help: clone_opt(&self.help) }
    }
}

/// A completion hint
#[derive(Debug)]
pub enum Comp {
    /// short or long flag
    Flag { extra: CompExtra, name: ShortLong },
    /// argument + metadata
    Argument { extra: CompExtra, name: ShortLong, metavar: String },
    /// command name with an optional short alias
    Command { extra: CompExtra, name: String, short: Option<char> },
    /// comes from completed values, part of "dynamic" completion
    Value { extra: CompExtra, body: String, is_argument: bool },
    /// a placeholder for a value
    Metavariable { extra: CompExtra, meta: String, is_argument: bool },
    /// completion done by the shell itself
    Shell { extra: CompExtra, script: ShellComp, is_argument: bool },
}

/// The extra information of a hint.
pub open spec fn comp_extra(c: Comp) -> CompExtra {
    match c {
        Comp::Flag { extra, .. } => extra,
        Comp::Argument { extra, .. } => extra,
        Comp::Command { extra, .. } => extra,
        Comp::Value { extra, .. } => extra,
        Comp::Metavariable { extra, .. } => extra,
        Comp::Shell { extra, .. } => extra,
    }
}

/// This completion suppresses anything else that is not a value.
pub open spec fn spec_only_value(c: Comp) -> bool {
    match c {
        Comp::Flag { .. } | Comp::Argument { .. } | Comp::Command { .. } => false,
        Comp::Metavariable { is_argument, .. } => is_argument,
        Comp::Value { is_argument, .. } => is_argument,
        Comp::Shell { is_argument, .. } => is_argument,
    }
}

/// This completion is for a positional item.
pub open spec fn spec_is_pos(c: Comp) -> bool {
    match c {
        Comp::Flag { .. } | Comp::Argument { .. } | Comp::Command { .. } => false,
        Comp::Value { is_argument, .. } => !is_argument,
        Comp::Metavariable { .. } | Comp::Shell { .. } => true,
    }
}

/// The extra information with `group` filled in, unless it already names a group.
pub open spec fn grouped(e: CompExtra, group: String) -> CompExtra {
    match e.group {
        Some(_) => e,
        None => CompExtra { group: Some(group), ..e },
    }
}

/// The hint put into `group`, unless it already belongs to one.
pub open spec fn with_group(c: Comp, group: String) -> Comp {
    match c {
        Comp::Flag { extra, name } => Comp::Flag { extra: grouped(extra, group), name },
        Comp::Argument { extra, name, metavar } => Comp::Argument {
            extra: grouped(extra, group),
            name,
            metavar,
        },
        Comp::Command { extra, name, short } => Comp::Command {
            extra: grouped(extra, group),
            name,
            short,
        },
        Comp::Value { extra, body, is_argument } => Comp::Value {
            extra: grouped(extra, group),
            body,
            is_argument,
        },
        Comp::Shell { extra, script, is_argument } => Comp::Shell {
            extra: grouped(extra, group),
            script,
            is_argument,
        },
        Comp::Metavariable { extra, meta, is_argument } => Comp::Metavariable {
            extra: grouped(extra, group),
            meta,
            is_argument,
        },
    }
}

impl Comp {
    /// Command depth the hint was collected at
    pub fn depth(&self) -> (d: usize)
        ensures
            d == comp_extra(*self).depth,
    {
        match self {
            Comp::Command { extra, .. }
            | Comp::Value { extra, .. }
            | Comp::Flag { extra, .. }
            | Comp::Shell { extra, .. }
            | Comp::Metavariable { extra, .. }
            | Comp::Argument { extra, .. } => extra.depth,
        }
    }

    /// For a metavariable: whether it stands for an argument value (`Some(true)`) or a
    /// positional item (`Some(false)`); `None` for other hints
    pub fn is_metavar(&self) -> (r: Option<bool>)
        ensures
            r == (match *self {
                Comp::Metavariable { is_argument, .. } => Some(is_argument),
                _ => None,
            }),
    {
        if let Comp::Metavariable { is_argument, .. } = self {
            Some(*is_argument)
        } else {
            None
        }
    }

    /// Put the hint into a group, unless it already belongs to one
    pub fn set_group(&mut self, group: String)
        ensures
            *final(self) == with_group(*old(self), group),
    {
        match self {
            Comp::Flag { extra, .. } => set_group_extra(extra, group),
            Comp::Argument { extra, .. } => set_group_extra(extra, group),
            Comp::Command { extra, .. } => set_group_extra(extra, group),
            Comp::Value { extra, .. } => set_group_extra(extra, group),
            Comp::Shell { extra, .. } => set_group_extra(extra, group),
            Comp::Metavariable { extra, .. } => set_group_extra(extra, group),
        }
    }

    /// This completion should suppress anything else that is not a value
    pub fn only_value(&self) -> (r: bool)
        ensures
            r == spec_only_value(*self),
    {
        match self {
            Comp::Flag { .. } | Comp::Argument { .. } | Comp::Command { .. } => false,
            Comp::Metavariable { is_argument, .. }
            | Comp::Value { is_argument, .. }
            | Comp::Shell { is_argument, .. } => *is_argument,
        }
    }

    /// This completion is for a positional item
    pub fn is_pos(&self) -> (r: bool)
        ensures
            r == spec_is_pos(*self),
    {
        match self {
            Comp::Flag { .. } | Comp::Argument { .. } | Comp::Command { .. } => false,
            Comp::Value { is_argument, .. } => !is_argument,
            Comp::Metavariable { .. } | Comp::Shell { .. } => true,
        }
    }
}

fn set_group_extra(extra: &mut CompExtra, group: String)
    ensures
        *final(extra) == grouped(*old(extra), group),
{
    if extra.group.is_none() {
        extra.group = Some(group);
    }
}

/// A completion offered to the user
#[derive(Debug)]
pub struct ShowComp {
    /// value to be actually inserted by the autocomplete system
    pub subst: String,
    /// pretty rendering which might include metavars, etc
    pub pretty: String,
    /// help and group of the hint it comes from
    pub extra: CompExtra,
}

/// Mathematical form of [`ShowComp`]
pub struct ShowView {
    pub subst: Seq<char>,
    pub pretty: Seq<char>,
    pub extra: ExtraView,
}

impl View for ShowComp {
    type V = ShowView;

    open spec fn view(&self) -> ShowView {
        ShowView { subst: self.subst@, pretty: self.pretty@, extra: self.extra@ }
    }
}

/// What precedes the word being completed
#[derive(Debug, Clone)]
pub enum Prefix {
    /// Nothing special
    NA,
    /// A short argument name, as in `-k val`
    Short(char),
    /// A long argument name, as in `--key val`
    Long(String),
}

/// Mathematical form of a [`Prefix`]
pub enum PrefixView {
    NA,
    Short(char),
    Long(Seq<char>),
}

impl View for Prefix {
    type V = PrefixView;

    open spec fn view(&self) -> PrefixView {
        match self {
            Prefix::NA => PrefixView::NA,
            Prefix::Short(c) => PrefixView::Short(*c),
            Prefix::Long(l) => PrefixView::Long(l@),
        }
    }
}

/// How a name is suggested: the long form when there is one.
pub open spec fn spec_preferred_name(name: ShortLong) -> Seq<char> {
    match name {
        ShortLong::Short(s) => seq!['-', s],
        ShortLong::Long(l) => "--"@ + l@,
        ShortLong::Both(_, l) => "--"@ + l@,
    }
}

/// Try to expand short string names into long names if possible
pub fn preferred_name(name: &ShortLong) -> (r: String)
    ensures
        r@ == spec_preferred_name(*name),
{
    let mut v: Vec<char> = Vec::new();
    match name {
        ShortLong::Short(s) => {
            v.push('-');
            v.push(*s);
            assert(v@ =~= seq!['-', *s]);
        },
        ShortLong::Long(l) | ShortLong::Both(_, l) => {
            push_str_chars(&mut v, "--");
            push_str_chars(&mut v, l.as_str());
        },
    }
    chars_string(&v)
}

/// Whether the typed word `arg` can become the flag `name`.
pub open spec fn spec_can_match(arg: Seq<char>, name: ShortLong) -> bool {
    let short_ok = match name {
        ShortLong::Short(s) => arg == seq!['-', s],
        ShortLong::Both(s, _) => arg == seq!['-', s],
        ShortLong::Long(_) => false,
    };
    let long_ok = match name {
        ShortLong::Long(l) => starts_with(arg, "--"@) && starts_with(l@, arg.skip(2)),
        ShortLong::Both(_, l) => starts_with(arg, "--"@) && starts_with(l@, arg.skip(2)),
        ShortLong::Short(_) => false,
    };
    short_ok || long_ok
}

/// The suggestion for flag `name` when the user typed `arg`, if it can match.
pub open spec fn spec_arg_matches(arg: Seq<char>, name: ShortLong) -> Option<Seq<char>> {
    if arg.len() == 0 || arg == seq!['-'] || spec_can_match(arg, name) {
        Some(spec_preferred_name(name))
    } else {
        None
    }
}

fn long_matches(a: &Vec<char>, l: &String) -> (r: bool)
    ensures
        r == (starts_with(a@, "--"@) && starts_with(l@, a@.skip(2))),
{
    proof {
        reveal_strlit("--");
    }
    if a.len() >= 2 && a[0] == '-' && a[1] == '-' {
        assert(a@.subrange(0, 2) =~= "--"@);
        let rest = chars_skip(a, 2);
        let lv = str_chars(l.as_str());
        chars_prefix(&rest, &lv)
    } else {
        assert(!starts_with(a@, "--"@)) by {
            if a@.len() >= 2 {
                assert(a@.subrange(0, 2)[0] == a@[0]);
                assert(a@.subrange(0, 2)[1] == a@[1]);
            }
        }
        false
    }
}

/// Check if argument can possibly match the argument passed in and returns a preferrable
/// replacement
pub fn arg_matches(arg: &str, name: &ShortLong) -> (r: Option<String>)
    ensures
        opt_view(r) == spec_arg_matches(arg@, *name),
{
    let a = str_chars(arg);
    // "" and "-" match any flag
    if a.len() == 0 || (a.len() == 1 && a[0] == '-') {
        assert(a.len() == 1 ==> a@ =~= seq!['-']);
        return Some(preferred_name(name));
    }
    assert(a@ != seq!['-']);
    let mut can_match = false;
    match name {
        ShortLong::Long(_) => {},
        ShortLong::Short(s) | ShortLong::Both(s, _) => {
            can_match = a.len() == 2 && a[0] == '-' && a[1] == *s;
            assert(can_match == (a@ == seq!['-', *s])) by {
                if a@.len() == 2 && a@[0] == '-' && a@[1] == *s {
                    assert(a@ =~= seq!['-', *s]);
                }
            }
        },
    }
    match name {
        ShortLong::Short(_) => {},
        ShortLong::Long(l) | ShortLong::Both(_, l) => {
            can_match = can_match || long_matches(&a, l);
        },
    }
    if can_match {
        Some(preferred_name(name))
    } else {
        None
    }
}

/// The suggestion for command `name` when the user typed `arg`, if it can match: a partial
/// long name or the exact short alias.
pub open spec fn spec_cmd_matches(arg: Seq<char>, name: Seq<char>, short: Option<char>) -> Option<
    Seq<char>,
> {
    if starts_with(name, arg) || (short matches Some(s) && arg == seq![s]) {
        Some(name)
    } else {
        None
    }
}

/// Partial long name and exact short name match a command
pub fn cmd_matches(arg: &str, name: &String, short: Option<char>) -> (r: Option<String>)
    ensures
        opt_view(r) == spec_cmd_matches(arg@, name@, short),
{
    let a = str_chars(arg);
    let n = str_chars(name.as_str());
    let short_ok = match short {
        Some(s) => a.len() == 1 && a[0] == s,
        None => false,
    };
    assert(short_ok == (short matches Some(s) && a@ == seq![s])) by {
        if let Some(s) = short {
            if a@.len() == 1 && a@[0] == s {
                assert(a@ =~= seq![s]);
            }
        }
    }
    if chars_prefix(&a, &n) || short_ok {
        Some(name.clone())
    } else {
        None
    }
}

/// Completions accumulated so far
#[derive(Debug)]
pub struct Complete {
    comps: Vec<Comp>,
    /// Output format version: which shell the completions are rendered for
    pub output_rev: usize,
    /// don't try to suggest any more positional items after there's a positional item failure
    /// or parsing in progress
    pub no_pos_ahead: bool,
}

/// What the prefix of a value looks like in a suggestion.
pub open spec fn prefix_subst(prefix: PrefixView, body: Seq<char>) -> Seq<char> {
    match prefix {
        PrefixView::NA => body,
        PrefixView::Short(s) => seq!['-', s, '='] + body,
        PrefixView::Long(l) => "--"@ + l + "="@ + body,
    }
}

/// Largest depth among the hints, 0 when there are none.
pub open spec fn max_depth(comps: Seq<Comp>) -> nat
    decreases comps.len(),
{
    if comps.len() == 0 {
        0
    } else {
        let d = comp_extra(comps.last()).depth as nat;
        let m = max_depth(comps.drop_last());
        if d > m {
            d
        } else {
            m
        }
    }
}

/// Selection in progress: suggestions, shell completions, and whether only values are kept.
pub struct CompleteState {
    pub items: Seq<ShowView>,
    pub shell: Seq<ShellComp>,
    pub only_values: bool,
}

/// A suggestion made out of a hint.
pub open spec fn show(subst: Seq<char>, pretty: Seq<char>, extra: CompExtra) -> ShowView {
    ShowView { subst, pretty, extra: extra@ }
}

/// Considers one hint.
pub open spec fn complete_step(
    c: Comp,
    max: nat,
    arg: Seq<char>,
    pos_only: bool,
    is_named: bool,
    prefix: PrefixView,
    st: CompleteState,
) -> CompleteState {
    if comp_extra(c).depth != max || (pos_only && !spec_is_pos(c)) {
        st
    } else if st.only_values && !spec_only_value(c) {
        st
    } else {
        let st = if !st.only_values && spec_only_value(c) {
            CompleteState { items: Seq::empty(), only_values: true, ..st }
        } else {
            st
        };
        match c {
            Comp::Command { name, short, extra } => match spec_cmd_matches(arg, name@, short) {
                Some(long) => CompleteState { items: st.items.push(show(long, long, extra)), ..st },
                None => st,
            },
            Comp::Flag { name, extra } => match spec_arg_matches(arg, name) {
                Some(long) => CompleteState { items: st.items.push(show(long, long, extra)), ..st },
                None => st,
            },
            Comp::Argument { name, metavar, extra } => match spec_arg_matches(arg, name) {
                Some(long) => CompleteState {
                    items: st.items.push(show(long, long + "="@ + metavar@, extra)),
                    ..st
                },
                None => st,
            },
            Comp::Value { body, extra, .. } => CompleteState {
                items: st.items.push(show(prefix_subst(prefix, body@), body@, extra)),
                ..st
            },
            Comp::Metavariable { extra, meta, is_argument } => if !is_argument && !pos_only
                && starts_with(arg, "-"@) {
                st
            } else {
                CompleteState { items: st.items.push(show(Seq::empty(), meta@, extra)), ..st }
            },
            Comp::Shell { script, .. } => if !is_named {
                CompleteState { shell: st.shell.push(script), ..st }
            } else {
                st
            },
        }
    }
}

/// Considers all hints in order.
pub open spec fn complete_fold(
    comps: Seq<Comp>,
    max: nat,
    arg: Seq<char>,
    pos_only: bool,
    is_named: bool,
    prefix: PrefixView,
    st: CompleteState,
) -> CompleteState
    decreases comps.len(),
{
    if comps.len() == 0 {
        st
    } else {
        complete_fold(
            comps.drop_first(),
            max,
            arg,
            pos_only,
            is_named,
            prefix,
            complete_step(comps[0], max, arg, pos_only, is_named, prefix, st),
        )
    }
}

/// Suggestions and shell completions for the word `arg`.
pub open spec fn spec_complete(
    comps: Seq<Comp>,
    arg: Seq<char>,
    pos_only: bool,
    is_named: bool,
    prefix: PrefixView,
) -> CompleteState {
    complete_fold(
        comps,
        max_depth(comps),
        arg,
        pos_only,
        is_named,
        prefix,
        CompleteState { items: Seq::empty(), shell: Seq::empty(), only_values: false },
    )
}

impl Complete {
    /// The collected hints, in order.
    pub closed spec fn comps(&self) -> Seq<Comp> {
        self.comps@
    }

    /// The output format version.
    pub closed spec fn rev(&self) -> usize {
        self.output_rev
    }

    /// Whether positional items are no longer suggested.
    pub closed spec fn pos_ahead_blocked(&self) -> bool {
        self.no_pos_ahead
    }

    /// The output format version
    pub fn revision(&self) -> (r: usize)
        ensures
            r == self.rev(),
    {
        self.output_rev
    }

    /// Whether positional items are no longer suggested
    pub fn blocks_pos_ahead(&self) -> (r: bool)
        ensures
            r == self.pos_ahead_blocked(),
    {
        self.no_pos_ahead
    }

    /// Stop suggesting positional items: a positional item failed or is being parsed
    pub fn block_pos_ahead(&mut self)
        ensures
            final(self).comps() == old(self).comps(),
            final(self).rev() == old(self).rev(),
            final(self).pos_ahead_blocked(),
    {
        self.no_pos_ahead = true;
    }

    /// No hints yet, rendering for output revision `output_rev`
    pub fn new(output_rev: usize) -> (c: Self)
        ensures
            c.comps() == Seq::<Comp>::empty(),
            c.rev() == output_rev,
            !c.pos_ahead_blocked(),
    {
        Self { comps: Vec::new(), output_rev, no_pos_ahead: false }
    }

    /// Add a shell completion
    pub fn push_shell(&mut self, op: ShellComp, is_argument: bool, depth: usize)
        ensures
            final(self).comps() == old(self).comps().push(
                Comp::Shell {
                    extra: CompExtra { depth, group: None, help: None },
                    script: op,
                    is_argument,
                },
            ),
            final(self).rev() == old(self).rev(),
            final(self).pos_ahead_blocked() == old(self).pos_ahead_blocked(),
    {
        self.comps.push(
            Comp::Shell {
                extra: CompExtra { depth, group: None, help: None },
                script: op,
                is_argument,
            },
        );
    }

    /// Add a value completion
    pub fn push_value(
        &mut self,
        body: String,
        help: Option<String>,
        group: Option<String>,
        depth: usize,
        is_argument: bool,
    )
        ensures
            final(self).comps() == old(self).comps().push(
                Comp::Value { body, is_argument, extra: CompExtra { depth, group, help } },
            ),
            final(self).rev() == old(self).rev(),
            final(self).pos_ahead_blocked() == old(self).pos_ahead_blocked(),
    {
        self.comps.push(Comp::Value { body, is_argument, extra: CompExtra { depth, group, help } });
    }

    /// Add a hint
    pub fn push_comp(&mut self, comp: Comp)
        ensures
            final(self).comps() == old(self).comps().push(comp),
            final(self).rev() == old(self).rev(),
            final(self).pos_ahead_blocked() == old(self).pos_ahead_blocked(),
    {
        self.comps.push(comp);
    }

    /// Add several hints
    pub fn extend_comps(&mut self, comps: Vec<Comp>)
        ensures
            final(self).comps() == old(self).comps() + comps@,
            final(self).rev() == old(self).rev(),
            final(self).pos_ahead_blocked() == old(self).pos_ahead_blocked(),
    {
        let mut comps = comps;
        self.comps.append(&mut comps);
    }

    /// Take out all hints
    pub fn drain_comps(&mut self) -> (r: Vec<Comp>)
        ensures
            r@ == old(self).comps(),
            final(self).comps() == Seq::<Comp>::empty(),
            final(self).rev() == old(self).rev(),
            final(self).pos_ahead_blocked() == old(self).pos_ahead_blocked(),
    {
        let mut r = Vec::new();
        std::mem::swap(&mut r, &mut self.comps);
        r
    }

    /// Exchange the hints with `other`
    pub fn swap_comps(&mut self, other: &mut Vec<Comp>)
        ensures
            final(self).comps() == old(other)@,
            final(other)@ == old(self).comps(),
            final(self).rev() == old(self).rev(),
            final(self).pos_ahead_blocked() == old(self).pos_ahead_blocked(),
    {
        std::mem::swap(other, &mut self.comps);
    }

    fn max_depth(&self) -> (m: usize)
        ensures
            m == max_depth(self.comps@),
    {
        let mut m: usize = 0;
        let mut i: usize = 0;
        while i < self.comps.len()
            invariant
                i <= self.comps@.len(),
                m == max_depth(self.comps@.take(i as int)),
            decreases self.comps.len() - i,
        {
            let d = self.comps[i].depth();
            proof {
                assert(self.comps@.take(i + 1).drop_last() =~= self.comps@.take(i as int));
            }
            if d > m {
                m = d;
            }
            i = i + 1;
        }
        assert(self.comps@.take(self.comps@.len() as int) =~= self.comps@);
        m
    }

    /// Suggestions for the word `arg`, and shell completions to run
    ///
    /// Only hints collected at the deepest level are considered, only positional ones when
    /// `pos_only`; value hints suppress all others.
    pub fn complete(&self, arg: &str, pos_only: bool, is_named: bool, prefix: &Prefix) -> (r: (
        Vec<ShowComp>,
        Vec<ShellComp>,
    ))
        ensures
            r.0@.map_values(|s: ShowComp| s@) == spec_complete(
                self.comps(),
                arg@,
                pos_only,
                is_named,
                prefix@,
            ).items,
            r.1@ == spec_complete(self.comps(), arg@, pos_only, is_named, prefix@).shell,
    {
        let mut items: Vec<ShowComp> = Vec::new();
        let mut shell: Vec<ShellComp> = Vec::new();
        let max = self.max_depth();
        let mut only_values = false;
        let ghost comps = self.comps@;
        let ghost init = CompleteState {
            items: Seq::empty(),
            shell: Seq::empty(),
            only_values: false,
        };
        let mut i: usize = 0;
        assert(comps.skip(0) =~= comps);
        assert(items@.map_values(|s: ShowComp| s@) =~= Seq::<ShowView>::empty());
        while i < self.comps.len()
            invariant
                comps == self.comps@,
                i <= comps.len(),
                max == max_depth(comps),
                complete_fold(comps, max as nat, arg@, pos_only, is_named, prefix@, init)
                    == complete_fold(
                    comps.skip(i as int),
                    max as nat,
                    arg@,
                    pos_only,
                    is_named,
                    prefix@,
                    CompleteState {
                        items: items@.map_values(|s: ShowComp| s@),
                        shell: shell@,
                        only_values,
                    },
                ),
            decreases self.comps.len() - i,
        {
            assert(comps.skip(i as int).drop_first() =~= comps.skip(i + 1));
            let item = &self.comps[i];
            let ghost before = CompleteState {
                items: items@.map_values(|s: ShowComp| s@),
                shell: shell@,
                only_values,
            };
            let ghost after = complete_step(*item, max as nat, arg@, pos_only, is_named, prefix@, before);
            i = i + 1;
            if item.depth() != max || (pos_only && !item.is_pos()) {
                continue;
            }
            if only_values && !item.only_value() {
                continue;
            }
            if !only_values && item.only_value() {
                only_values = true;
                items.clear();
            }
            match item {
                Comp::Command { name, short, extra } => {
                    if let Some(long) = cmd_matches(arg, name, *short) {
                        let pretty = long.clone();
                        items.push(ShowComp { subst: long, pretty, extra: extra.duplicate() });
                    }
                },
                Comp::Flag { name, extra } => {
                    if let Some(long) = arg_matches(arg, name) {
                        let pretty = long.clone();
                        items.push(ShowComp { pretty, subst: long, extra: extra.duplicate() });
                    }
                },
                Comp::Argument { name, metavar, extra } => {
                    if let Some(long) = arg_matches(arg, name) {
                        let mut p: Vec<char> = str_chars(long.as_str());
                        p.push('=');
                        push_str_chars(&mut p, metavar.as_str());
                        proof {
                            reveal_strlit("=");
                            assert(p@ =~= long@ + "="@ + metavar@);
                        }
                        items.push(
                            ShowComp { pretty: chars_string(&p), subst: long, extra: extra.duplicate() },
                        );
                    }
                },
                Comp::Value { body, extra, is_argument: _ } => {
                    let subst = match prefix {
                        Prefix::NA => body.clone(),
                        Prefix::Short(s) => {
                            let mut v: Vec<char> = Vec::new();
                            v.push('-');
                            v.push(*s);
                            v.push('=');
                            push_str_chars(&mut v, body.as_str());
                            assert(v@ =~= seq!['-', *s, '='] + body@);
                            chars_string(&v)
                        },
                        Prefix::Long(l) => {
                            let mut v: Vec<char> = Vec::new();
                            push_str_chars(&mut v, "--");
                            push_str_chars(&mut v, l.as_str());
                            push_str_chars(&mut v, "=");
                            push_str_chars(&mut v, body.as_str());
                            assert(v@ =~= "--"@ + l@ + "="@ + body@);
                            chars_string(&v)
                        },
                    };
                    items.push(ShowComp { pretty: body.clone(), extra: extra.duplicate(), subst });
                },
                Comp::Metavariable { extra, meta, is_argument } => {
                    let a = str_chars(arg);
                    let dash = a.len() > 0 && a[0] == '-';
                    assert(dash == starts_with(arg@, "-"@)) by {
                        reveal_strlit("-");
                        if a@.len() > 0 {
                            assert(a@.subrange(0, 1)[0] == a@[0]);
                            if a@[0] == '-' {
                                assert(a@.subrange(0, 1) =~= "-"@);
                            }
                        }
                    }
                    if !*is_argument && !pos_only && dash {
                        assert(after == before);
                        continue;
                    }
                    items.push(
                        ShowComp { subst: String::new(), pretty: meta.clone(), extra: extra.duplicate() },
                    );
                },
                Comp::Shell { script, .. } => {
                    if !is_named {
                        shell.push(*script);
                    }
                },
            }
            proof {
                assert(CompleteState {
                    items: items@.map_values(|s: ShowComp| s@),
                    shell: shell@,
                    only_values,
                } == after) by {
                    assert(items@.map_values(|s: ShowComp| s@) =~= after.items);
                    assert(shell@ =~= after.shell);
                }
            }
        }
        assert(comps.skip(i as int) =~= Seq::<Comp>::empty());
        (items, shell)
    }
}

/// Every suggestion made in the fold comes from a hint at depth `max`, provided the
/// suggestions it starts from do.
proof fn lemma_fold_depth(
    comps: Seq<Comp>,
    max: nat,
    arg: Seq<char>,
    pos_only: bool,
    is_named: bool,
    prefix: PrefixView,
    st: CompleteState,
)
    requires
        forall|i: int| 0 <= i < st.items.len() ==> (#[trigger] st.items[i]).extra.depth == max,
    ensures
        forall|i: int|
            0 <= i < complete_fold(comps, max, arg, pos_only, is_named, prefix, st).items.len()
                ==> (#[trigger] complete_fold(
                comps,
                max,
                arg,
                pos_only,
                is_named,
                prefix,
                st,
            ).items[i]).extra.depth == max,
    decreases comps.len(),
{
    if comps.len() > 0 {
        let next = complete_step(comps[0], max, arg, pos_only, is_named, prefix, st);
        lemma_fold_depth(comps.drop_first(), max, arg, pos_only, is_named, prefix, next);
    }
}

/// Only hints collected at the deepest command level are offered: every suggestion
/// carries the largest depth among the collected hints.
pub proof fn law_complete_deepest_only(
    comps: Seq<Comp>,
    arg: Seq<char>,
    pos_only: bool,
    is_named: bool,
    prefix: PrefixView,
)
    ensures
        forall|i: int|
            0 <= i < spec_complete(comps, arg, pos_only, is_named, prefix).items.len()
                ==> (#[trigger] spec_complete(comps, arg, pos_only, is_named, prefix).items[i]).extra.depth
                == max_depth(comps),
{
    lemma_fold_depth(
        comps,
        max_depth(comps),
        arg,
        pos_only,
        is_named,
        prefix,
        CompleteState { items: Seq::empty(), shell: Seq::empty(), only_values: false },
    );
}

} // verus!
