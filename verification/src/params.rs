//! Names of flags and arguments, and which preprocessed command line items they match.

use crate::arg::{Arg, ArgView};
use crate::text::{chars_eq, str_chars};
use vstd::prelude::*;

verus! {

/// A named thing used to create a flag or an argument: its short and long names
#[derive(Clone, Debug)]
pub struct NamedArg {
    pub short: Vec<char>,
    pub long: Vec<&'static str>,
}

/// Mathematical form of a [`NamedArg`]
pub struct NamedView {
    pub short: Seq<char>,
    pub long: Seq<Seq<char>>,
}

impl View for NamedArg {
    type V = NamedView;

    open spec fn view(&self) -> NamedView {
        NamedView { short: self.short@, long: self.long@.map_values(|l: &'static str| l@) }
    }
}

/// Whether a name matches an item: a short flag by one of its short names, a long flag by
/// one of its long names; where `adjacent` is asked for, only a flag with its value
/// attached (`-f=v`, `--flag=v`) matches.
pub open spec fn named_matches(n: NamedView, a: ArgView, adjacent: bool) -> bool {
    match a {
        ArgView::Short(s, is_adj, _) => n.short.contains(s) && (!adjacent || is_adj),
        ArgView::Long(l, is_adj, _) => n.long.contains(l) && (!adjacent || is_adj),
        _ => false,
    }
}

/// A flag or an argument with a short name
pub fn short(c: char) -> (r: NamedArg)
    ensures
        r@.short == seq![c],
        r@.long == Seq::<Seq<char>>::empty(),
{
    let mut s: Vec<char> = Vec::new();
    s.push(c);
    let r = NamedArg { short: s, long: Vec::new() };
    assert(r@.long =~= Seq::<Seq<char>>::empty());
    r
}

/// A flag or an argument with a long name
pub fn long(name: &'static str) -> (r: NamedArg)
    ensures
        r@.short == Seq::<char>::empty(),
        r@.long == seq![name@],
{
    let mut l: Vec<&'static str> = Vec::new();
    l.push(name);
    let r = NamedArg { short: Vec::new(), long: l };
    assert(r@.long =~= seq![name@]);
    r
}

fn char_in(s: &Vec<char>, c: char) -> (r: bool)
    ensures
        r == s@.contains(c),
{
    let mut i: usize = 0;
    while i < s.len()
        invariant
            i <= s@.len(),
            forall|j: int| 0 <= j < i ==> s@[j] != c,
        decreases s.len() - i,
    {
        if s[i] == c {
            assert(s@[i as int] == c);
            return true;
        }
        i = i + 1;
    }
    false
}

fn long_in(ls: &Vec<&'static str>, l: &String) -> (r: bool)
    ensures
        r == ls@.map_values(|x: &'static str| x@).contains(l@),
{
    let ghost m = ls@.map_values(|x: &'static str| x@);
    let lc = str_chars(l.as_str());
    let mut i: usize = 0;
    while i < ls.len()
        invariant
            i <= ls@.len(),
            m == ls@.map_values(|x: &'static str| x@),
            lc@ == l@,
            forall|j: int| 0 <= j < i ==> m[j] != l@,
        decreases ls.len() - i,
    {
        let x = str_chars(ls[i]);
        if chars_eq(&x, &lc) {
            assert(m[i as int] == l@);
            return true;
        }
        i = i + 1;
    }
    false
}

impl NamedArg {
    /// Add a short name
    pub fn short(self, c: char) -> (r: Self)
        ensures
            r@.short == self@.short.push(c),
            r@.long == self@.long,
    {
        let mut r = self;
        r.short.push(c);
        r
    }

    /// Add a long name
    pub fn long(self, name: &'static str) -> (r: Self)
        ensures
            r@.short == self@.short,
            r@.long == self@.long.push(name@),
    {
        let mut r = self;
        let ghost l0 = r.long@;
        r.long.push(name);
        assert(r.long@.map_values(|x: &'static str| x@) =~= l0.map_values(
            |x: &'static str| x@,
        ).push(name@));
        r
    }

    /// Whether this name matches a preprocessed item
    pub fn matches_arg(&self, arg: &Arg, adjacent: bool) -> (r: bool)
        ensures
            r == named_matches(self@, arg@, adjacent),
    {
        match arg {
            Arg::Short(s, is_adj, _) => char_in(&self.short, *s) && (!adjacent || *is_adj),
            Arg::Long(l, is_adj, _) => long_in(&self.long, l) && (!adjacent || *is_adj),
            Arg::Ambiguity(_, _) | Arg::Word(_) | Arg::PosWord(_) => false,
        }
    }
}

} // verus!
