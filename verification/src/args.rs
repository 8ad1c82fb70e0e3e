//! Command line parameters, preprocessed into items, and the parsing state over them: which
//! items were consumed, the scope a parser looks at and the item being parsed.

use crate::arg::{
    args_view, is_double_dash, split_os_argument, split_spec, split_view, Arg, ArgType, ArgView,
    DASH,
};
use crate::complete_gen::{with_group, Comp, Complete};
use crate::complete_run::{name_view, scan_spec, ArgScanner, CompleterStyle, Scanned};
use crate::error::{Error, Message, MissingItem};
use crate::params::{named_matches, NamedArg};
use crate::text::{chars_string, push_range, str_bytes, str_chars, utf8_encode};
use std::ops::Range;
use vstd::prelude::*;

verus! {

/// All currently present command line parameters with some extra metainfo
///
/// Each parameter is held as the bytes of its OS string.
pub struct Args {
    items: Vec<Vec<u8>>,
    name: Option<String>,
    c_rev: Option<usize>,
}

/// Mathematical form of [`Args`]
pub struct ArgsView {
    pub items: Seq<Seq<u8>>,
    pub name: Option<Seq<char>>,
    pub c_rev: Option<usize>,
}

/// The bytes of each item.
pub open spec fn bytes_view(v: Seq<Vec<u8>>) -> Seq<Seq<u8>> {
    v.map_values(|b: Vec<u8>| b@)
}

/// The characters of an optional string.
pub open spec fn opt_chars(o: Option<String>) -> Option<Seq<char>> {
    match o {
        Some(s) => Some(s@),
        None => None,
    }
}

impl View for Args {
    type V = ArgsView;

    closed spec fn view(&self) -> ArgsView {
        ArgsView { items: bytes_view(self.items@), name: opt_chars(self.name), c_rev: self.c_rev }
    }
}

impl Args {
    /// Enable completions with custom output revision style
    ///
    /// Use revision 0 if you want to test completion mechanism
    pub fn set_comp(self, rev: usize) -> (r: Self)
        ensures
            r@ == (ArgsView { c_rev: Some(rev), ..self@ }),
    {
        Args { items: self.items, name: self.name, c_rev: Some(rev) }
    }

    /// Add an application name for args created from custom input
    pub fn set_name(self, name: &str) -> (r: Self)
        ensures
            r@ == (ArgsView { name: Some(name@), ..self@ }),
    {
        Args { items: self.items, name: Some(name.to_string()), c_rev: self.c_rev }
    }

    /// Arguments given by the bytes of their OS strings
    pub fn from_bytes(items: Vec<Vec<u8>>) -> (r: Self)
        ensures
            r@ == (ArgsView { items: bytes_view(items@), name: None, c_rev: None }),
    {
        Args { items, name: None, c_rev: None }
    }

    /// Arguments given as text
    pub fn from_strs(value: &[&str]) -> (r: Self)
        ensures
            r@ == (ArgsView {
                items: value@.map_values(|s: &str| utf8_encode(s@)),
                name: None,
                c_rev: None,
            }),
    {
        let ghost target = value@.map_values(|s: &str| utf8_encode(s@));
        let mut items: Vec<Vec<u8>> = Vec::new();
        let mut i: usize = 0;
        while i < value.len()
            invariant
                i <= value@.len(),
                target == value@.map_values(|s: &str| utf8_encode(s@)),
                bytes_view(items@) == target.take(i as int),
            decreases value.len() - i,
        {
            let b = str_bytes(value[i]);
            let ghost before = items@;
            items.push(b);
            assert(bytes_view(items@) =~= bytes_view(before).push(b@));
            assert(target.take(i + 1) =~= target.take(i as int).push(target[i as int]));
            i = i + 1;
        }
        assert(target.take(value@.len() as int) =~= target);
        Args { items, name: None, c_rev: None }
    }
}

/// Shows which branch of a parser that tries alternatives parsed the argument
#[derive(Debug, Clone, Copy, Eq, PartialEq, Structural)]
pub enum ItemState {
    /// Value is yet to be parsed
    Unparsed,
    /// Both branches succeeded, first parser was taken in favor of the second one
    Conflict(usize),
    /// Value was parsed
    Parsed,
}

/// An item that is still there to be parsed.
pub open spec fn is_present(s: ItemState) -> bool {
    !(s is Parsed)
}

impl ItemState {
    /// Whether the item was parsed
    pub fn parsed(&self) -> (r: bool)
        ensures
            r == (*self is Parsed),
    {
        match self {
            ItemState::Unparsed | ItemState::Conflict(_) => false,
            ItemState::Parsed => true,
        }
    }

    /// Whether the item is still there to be parsed
    pub fn present(&self) -> (r: bool)
        ensures
            r == is_present(*self),
    {
        match self {
            ItemState::Unparsed | ItemState::Conflict(_) => true,
            ItemState::Parsed => false,
        }
    }
}

/// Number of present items in `[lo, hi)`.
pub open spec fn count_present(st: Seq<ItemState>, lo: int, hi: int) -> nat
    decreases hi - lo,
{
    if hi <= lo {
        0
    } else {
        count_present(st, lo, hi - 1) + if is_present(st[hi - 1]) {
            1nat
        } else {
            0nat
        }
    }
}

/// Changing one state changes the count by what that state contributes.
pub proof fn lemma_count_update(st: Seq<ItemState>, lo: int, hi: int, k: int, v: ItemState)
    requires
        0 <= k < st.len(),
        0 <= lo,
        hi <= st.len(),
    ensures
        count_present(st.update(k, v), lo, hi) + (if lo <= k < hi && is_present(st[k]) {
            1nat
        } else {
            0nat
        }) == count_present(st, lo, hi) + (if lo <= k < hi && is_present(v) {
            1nat
        } else {
            0nat
        }),
    decreases hi - lo,
{
    if hi > lo {
        lemma_count_update(st, lo, hi - 1, k, v);
        assert(st.update(k, v)[hi - 1] == if hi - 1 == k {
            v
        } else {
            st[hi - 1]
        });
    }
}

/// The count depends only on which states are present.
pub proof fn lemma_count_same(a: Seq<ItemState>, b: Seq<ItemState>, lo: int, hi: int)
    requires
        forall|i: int| lo <= i < hi ==> is_present(#[trigger] a[i]) == is_present(b[i]),
    ensures
        count_present(a, lo, hi) == count_present(b, lo, hi),
    decreases hi - lo,
{
    if hi > lo {
        lemma_count_same(a, b, lo, hi - 1);
    }
}

/// At most every item in the range is present.
pub proof fn lemma_count_bound(st: Seq<ItemState>, lo: int, hi: int)
    ensures
        count_present(st, lo, hi) <= if hi > lo {
            hi - lo
        } else {
            0
        },
    decreases hi - lo,
{
    if hi > lo {
        lemma_count_bound(st, lo, hi - 1);
    }
}

/// Every item of a fresh state is present.
pub proof fn lemma_count_fresh(n: nat, m: nat)
    requires
        m <= n,
    ensures
        count_present(Seq::new(n, |i: int| ItemState::Unparsed), 0, m as int) == m,
    decreases m,
{
    if m > 0 {
        lemma_count_fresh(n, (m - 1) as nat);
    }
}

/// Whether a character is among the given ones
fn char_in(s: &[char], c: char) -> (r: bool)
    ensures
        r == s@.contains(c),
{
    let mut i: usize = 0;
    while i < s.len()
        invariant
            i <= s@.len(),
            forall|j: int| 0 <= j < i ==> s@[j] != c,
        decreases s.len() - i,
    {
        if s[i] == c {
            assert(s@[i as int] == c);
            return true;
        }
        i = i + 1;
    }
    false
}

/// The character at a position.
fn char_of(cs: &Vec<char>, i: usize) -> (c: char)
    requires
        i < cs@.len(),
    ensures
        c == cs@[i as int],
{
    cs[i]
}

/// Items a block of short names `-abc` becomes, from its `i`th name on, with the items so
/// far: a single name is a flag; names of flags stay flags; a name of an argument takes
/// the rest of the block as its value; a name that is neither makes the whole block a
/// word; a name of both is ambiguous, which is reported with the position of the word the
/// block becomes. The first flag keeps the original OS string, later ones an empty one.
pub open spec fn disamb(
    os: Seq<u8>,
    short: Seq<char>,
    flags: Seq<char>,
    args: Seq<char>,
    orig: Seq<ArgView>,
    i: nat,
    acc: Seq<ArgView>,
) -> (Seq<ArgView>, Option<nat>)
    decreases short.len() - i,
{
    if i >= short.len() {
        (acc, None)
    } else {
        let c = short[i as int];
        let rest_empty = i + 1 == short.len();
        let first: Seq<u8> = if i == 0 {
            os
        } else {
            Seq::empty()
        };
        if i == 0 && rest_empty {
            (acc.push(ArgView::Short(c, false, os)), None)
        } else if flags.contains(c) && !args.contains(c) {
            disamb(os, short, flags, args, orig, i + 1, acc.push(ArgView::Short(c, false, first)))
        } else if !flags.contains(c) && args.contains(c) {
            let a1 = acc.push(ArgView::Short(c, !rest_empty, os));
            (
                if rest_empty {
                    a1
                } else {
                    a1.push(ArgView::Word(utf8_encode(short.subrange((i + 1) as int, short.len() as int))))
                },
                None,
            )
        } else if !flags.contains(c) && !args.contains(c) {
            (orig.push(ArgView::Word(os)), None)
        } else {
            (acc.push(ArgView::Word(os)), Some(acc.len()))
        }
    }
}

proof fn lemma_disamb_flag_step(
    os: Seq<u8>,
    short: Seq<char>,
    flags: Seq<char>,
    ar: Seq<char>,
    orig: Seq<ArgView>,
    k: nat,
    acc: Seq<ArgView>,
    c: char,
)
    requires
        k < short.len(),
        !(k == 0 && k + 1 == short.len()),
        c == short[k as int],
        flags.contains(c) && !ar.contains(c),
    ensures
        disamb(os, short, flags, ar, orig, k, acc) == disamb(
            os,
            short,
            flags,
            ar,
            orig,
            k + 1,
            acc.push(ArgView::Short(c, false, if k == 0 { os } else { Seq::empty() })),
        ),
{
}

proof fn lemma_disamb_arg_step(
    os: Seq<u8>,
    short: Seq<char>,
    flags: Seq<char>,
    ar: Seq<char>,
    orig: Seq<ArgView>,
    k: nat,
    acc: Seq<ArgView>,
    c: char,
)
    requires
        k + 1 < short.len(),
        c == short[k as int],
        !flags.contains(c) && ar.contains(c),
    ensures
        disamb(os, short, flags, ar, orig, k, acc).0 == acc.push(ArgView::Short(c, true, os)).push(
            ArgView::Word(utf8_encode(short.subrange((k + 1) as int, short.len() as int))),
        ),
{
}

#[verifier::spinoff_prover]
proof fn lemma_disamb_arg_from(
    os: Seq<u8>,
    short: Seq<char>,
    flags: Seq<char>,
    ar: Seq<char>,
    orig: Seq<ArgView>,
    i: nat,
    k: nat,
    acc: Seq<ArgView>,
    c: char,
)
    requires
        k <= i,
        i + 1 < short.len(),
        c == short[k as int],
        forall|j: int| 0 <= j < i ==> flags.contains(#[trigger] short[j]) && !ar.contains(short[j]),
        !flags.contains(short[i as int]) && ar.contains(short[i as int]),
    ensures
        ({
            let r = disamb(os, short, flags, ar, orig, k, acc).0;
            &&& r.len() == acc.len() + (i - k) + 2
            &&& forall|m: int| 0 <= m < acc.len() ==> r[m] == acc[m]
            &&& forall|j: int| k <= j < i ==> r[acc.len() + j - k] == ArgView::Short(
                #[trigger] short[j],
                false,
                if j == 0 { os } else { Seq::empty() },
            )
            &&& r[acc.len() + i - k] == ArgView::Short(short[i as int], true, os)
            &&& r[acc.len() + i - k + 1] == ArgView::Word(utf8_encode(short.subrange((i + 1) as int, short.len() as int)))
        }),
    decreases i - k,
{
    if k < i {
        assert(flags.contains(c) && !ar.contains(c));
        let acc2 = acc.push(ArgView::Short(c, false, if k == 0 { os } else { Seq::empty() }));
        lemma_disamb_flag_step(os, short, flags, ar, orig, k, acc, c);
        lemma_disamb_arg_from(os, short, flags, ar, orig, i, k + 1, acc2, short[(k + 1) as int]);
        let r = disamb(os, short, flags, ar, orig, k, acc).0;
        lemma_push_prefix(r, acc, ArgView::Short(c, false, if k == 0 { os } else { Seq::empty() }));
        assert forall|j: int| k <= j < i implies r[acc.len() + j - k] == ArgView::Short(
            #[trigger] short[j],
            false,
            if j == 0 { os } else { Seq::empty() },
        ) by {
            if j > k {
                assert(acc2.len() + j - (k + 1) == acc.len() + j - k);
            }
        }
        assert(acc.len() + i - k == acc2.len() + i - (k + 1));
    } else {
        lemma_disamb_arg_step(os, short, flags, ar, orig, k, acc, c);
        let s = ArgView::Short(c, true, os);
        let w = ArgView::Word(utf8_encode(short.subrange((k + 1) as int, short.len() as int)));
        let r = acc.push(s).push(w);
        assert(r.len() == acc.len() + 2);
        assert forall|m: int| 0 <= m < acc.len() + 1 implies r[m] == #[trigger] acc.push(s)[m] by {}
        lemma_push_prefix(r, acc, s);
    }
}

/// A sequence that agrees with `a.push(x)` below its length agrees with `a`, then has `x`.
proof fn lemma_push_prefix(r: Seq<ArgView>, a: Seq<ArgView>, x: ArgView)
    requires
        a.len() + 1 <= r.len(),
        forall|m: int| 0 <= m < a.len() + 1 ==> r[m] == #[trigger] a.push(x)[m],
    ensures
        forall|m: int| 0 <= m < a.len() ==> r[m] == a[m],
        r[a.len() as int] == x,
{
    assert forall|m: int| 0 <= m < a.len() implies r[m] == a[m] by {
        assert(r[m] == a.push(x)[m]);
    }
    assert(r[a.len() as int] == a.push(x)[a.len() as int]);
}

/// In a block of short names `-abc…` where the names before position `i` are flags and the
/// name at `i` is an argument, the block becomes those flags, the argument, and as its value
/// exactly the rest of the block after the argument's name.
pub proof fn law_short_argument_takes_rest(
    os: Seq<u8>,
    short: Seq<char>,
    flags: Seq<char>,
    args: Seq<char>,
    orig: Seq<ArgView>,
    acc: Seq<ArgView>,
    i: int,
)
    requires
        0 <= i,
        i + 1 < short.len(),
        forall|j: int| 0 <= j < i ==> flags.contains(#[trigger] short[j]) && !args.contains(short[j]),
        !flags.contains(short[i]) && args.contains(short[i]),
    ensures
        ({
            let r = disamb(os, short, flags, args, orig, 0, acc).0;
            &&& r.len() == acc.len() + i + 2
            &&& r.take(acc.len() as int) == acc
            &&& forall|j: int| 0 <= j < i ==> (#[trigger] r[acc.len() + j]) is Short && r[acc.len() + j]->Short_0
                == short[j] && !r[acc.len() + j]->Short_1
            &&& r[acc.len() + i] == ArgView::Short(short[i], true, os)
            &&& r.last() == ArgView::Word(utf8_encode(short.subrange(i + 1, short.len() as int)))
        }),
{
    lemma_disamb_arg_from(os, short, flags, args, orig, i as nat, 0, acc, short[0]);
    let r = disamb(os, short, flags, args, orig, 0, acc).0;
    assert(r.take(acc.len() as int) =~= acc);
    assert forall|j: int| 0 <= j < i implies (#[trigger] r[acc.len() + j]) is Short && r[acc.len() + j]->Short_0
        == short[j] && !r[acc.len() + j]->Short_1 by {
        assert(r[acc.len() + j - 0] == ArgView::Short(short[j], false, if j == 0 { os } else { Seq::empty() }));
    }
}

#[verifier::spinoff_prover]
proof fn lemma_disamb_flags_from(
    os: Seq<u8>,
    short: Seq<char>,
    flags: Seq<char>,
    ar: Seq<char>,
    orig: Seq<ArgView>,
    k: nat,
    acc: Seq<ArgView>,
    c: char,
)
    requires
        k <= short.len(),
        k < short.len() ==> c == short[k as int],
        short.len() >= 2,
        forall|j: int| 0 <= j < short.len() ==> flags.contains(#[trigger] short[j]) && !ar.contains(short[j]),
    ensures
        ({
            let (r, e) = disamb(os, short, flags, ar, orig, k, acc);
            &&& e is None
            &&& r.len() == acc.len() + short.len() - k
            &&& forall|m: int| 0 <= m < acc.len() ==> r[m] == acc[m]
            &&& forall|j: int| k <= j < short.len() ==> r[acc.len() + j - k] == ArgView::Short(
                #[trigger] short[j],
                false,
                if j == 0 { os } else { Seq::empty() },
            )
        }),
    decreases short.len() - k,
{
    if k < short.len() {
        let x = ArgView::Short(c, false, if k == 0 { os } else { Seq::empty() });
        let acc2 = acc.push(x);
        lemma_disamb_flag_step(os, short, flags, ar, orig, k, acc, c);
        let c2 = if k + 1 < short.len() { short[(k + 1) as int] } else { c };
        lemma_disamb_flags_from(os, short, flags, ar, orig, k + 1, acc2, c2);
        let r = disamb(os, short, flags, ar, orig, k, acc).0;
        let r2 = disamb(os, short, flags, ar, orig, k + 1, acc2).0;
        assert(r == r2);
        assert(r2.len() == acc2.len() + short.len() - (k + 1));
        assert forall|m: int| 0 <= m < acc.len() + 1 implies r[m] == #[trigger] acc2[m] by {
            assert(r2[m] == acc2[m]);
        }
        lemma_push_prefix(r, acc, x);
        assert forall|j: int| k <= j < short.len() implies r[acc.len() + j - k] == ArgView::Short(
            #[trigger] short[j],
            false,
            if j == 0 { os } else { Seq::empty() },
        ) by {
            if j > k {
                assert(acc2.len() + j - (k + 1) == acc.len() + j - k);
            }
        }
    }
}

/// A block of short names that are all names of flags becomes one flag per name, in
/// order; the first keeps the original OS string, the others an empty one.
#[verifier::spinoff_prover]
pub proof fn law_short_flags_block(
    os: Seq<u8>,
    short: Seq<char>,
    flags: Seq<char>,
    args: Seq<char>,
    orig: Seq<ArgView>,
    acc: Seq<ArgView>,
)
    requires
        short.len() >= 2,
        forall|j: int| 0 <= j < short.len() ==> flags.contains(#[trigger] short[j]) && !args.contains(short[j]),
    ensures
        ({
            let (r, e) = disamb(os, short, flags, args, orig, 0, acc);
            &&& e is None
            &&& r.len() == acc.len() + short.len()
            &&& r.take(acc.len() as int) == acc
            &&& r[acc.len() as int] == ArgView::Short(short[0], false, os)
            &&& forall|j: int| 0 < j < short.len() ==> r[acc.len() + j] == ArgView::Short(
                #[trigger] short[j],
                false,
                Seq::empty(),
            )
        }),
{
    lemma_disamb_flags_from(os, short, flags, args, orig, 0, acc, short[0]);
    let r = disamb(os, short, flags, args, orig, 0, acc).0;
    assert(r.take(acc.len() as int) =~= acc);
    assert(r[acc.len() + 0 - 0] == ArgView::Short(short[0], false, os));
    assert forall|j: int| 0 < j < short.len() implies r[acc.len() + j] == ArgView::Short(
        #[trigger] short[j],
        false,
        Seq::empty(),
    ) by {
        assert(r[acc.len() + j - 0] == ArgView::Short(short[j], false, if j == 0 { os } else { Seq::empty() }));
    }
}

proof fn lemma_disamb_unknown_from(
    os: Seq<u8>,
    short: Seq<char>,
    flags: Seq<char>,
    ar: Seq<char>,
    orig: Seq<ArgView>,
    i: nat,
    k: nat,
    acc: Seq<ArgView>,
    c: char,
)
    requires
        k <= i < short.len(),
        short.len() >= 2,
        c == short[k as int],
        forall|j: int| 0 <= j < i ==> flags.contains(#[trigger] short[j]) && !ar.contains(short[j]),
        !flags.contains(short[i as int]) && !ar.contains(short[i as int]),
    ensures
        disamb(os, short, flags, ar, orig, k, acc) == (orig.push(ArgView::Word(os)), None::<nat>),
    decreases i - k,
{
    if k < i {
        assert(flags.contains(c) && !ar.contains(c));
        let x = ArgView::Short(c, false, if k == 0 { os } else { Seq::empty() });
        lemma_disamb_flag_step(os, short, flags, ar, orig, k, acc, c);
        lemma_disamb_unknown_from(os, short, flags, ar, orig, i, k + 1, acc.push(x), short[(k + 1) as int]);
    }
}

/// A block of short names that reaches a name neither of a flag nor of an argument,
/// after names of flags only, drops what the block added and becomes one word holding
/// the original OS string.
pub proof fn law_short_unknown_block_is_word(
    os: Seq<u8>,
    short: Seq<char>,
    flags: Seq<char>,
    args: Seq<char>,
    orig: Seq<ArgView>,
    acc: Seq<ArgView>,
    i: int,
)
    requires
        0 <= i < short.len(),
        short.len() >= 2,
        forall|j: int| 0 <= j < i ==> flags.contains(#[trigger] short[j]) && !args.contains(short[j]),
        !flags.contains(short[i]) && !args.contains(short[i]),
    ensures
        disamb(os, short, flags, args, orig, 0, acc) == (orig.push(ArgView::Word(os)), None::<nat>),
{
    lemma_disamb_unknown_from(os, short, flags, args, orig, i as nat, 0, acc, short[0]);
}

/// `a` is `acc` followed by the flags a block gives for its names from `k` to `i`.
spec fn flags_acc(os: Seq<u8>, short: Seq<char>, acc: Seq<ArgView>, k: nat, i: nat, a: Seq<ArgView>) -> bool {
    &&& a.len() == acc.len() + i - k
    &&& forall|m: int| 0 <= m < acc.len() ==> a[m] == acc[m]
    &&& forall|j: int| k <= j < i ==> a[acc.len() + j - k] == ArgView::Short(
        #[trigger] short[j],
        false,
        if j == 0 { os } else { Seq::empty() },
    )
}

#[verifier::spinoff_prover]
proof fn lemma_disamb_flags_then(
    os: Seq<u8>,
    short: Seq<char>,
    flags: Seq<char>,
    ar: Seq<char>,
    orig: Seq<ArgView>,
    i: nat,
    k: nat,
    acc: Seq<ArgView>,
    c: char,
)
    requires
        k <= i < short.len(),
        short.len() >= 2,
        c == short[k as int],
        forall|j: int| 0 <= j < i ==> flags.contains(#[trigger] short[j]) && !ar.contains(short[j]),
    ensures
        exists|a: Seq<ArgView>|
            #[trigger] flags_acc(os, short, acc, k, i, a) && disamb(os, short, flags, ar, orig, k, acc)
                == disamb(os, short, flags, ar, orig, i, a),
    decreases i - k,
{
    if k < i {
        assert(flags.contains(c) && !ar.contains(c));
        let x = ArgView::Short(c, false, if k == 0 { os } else { Seq::empty() });
        let acc2 = acc.push(x);
        lemma_disamb_flag_step(os, short, flags, ar, orig, k, acc, c);
        lemma_disamb_flags_then(os, short, flags, ar, orig, i, k + 1, acc2, short[(k + 1) as int]);
        let a = choose|a: Seq<ArgView>|
            #[trigger] flags_acc(os, short, acc2, k + 1, i, a) && disamb(os, short, flags, ar, orig, k + 1, acc2)
                == disamb(os, short, flags, ar, orig, i, a);
        assert forall|m: int| 0 <= m < acc.len() implies a[m] == acc[m] by {
            assert(a[m] == acc2[m]);
        }
        assert(a[acc.len() as int] == acc2[acc.len() as int]);
        assert forall|j: int| k <= j < i implies a[acc.len() + j - k] == ArgView::Short(
            #[trigger] short[j],
            false,
            if j == 0 { os } else { Seq::empty() },
        ) by {
            if j > k {
                assert(acc2.len() + j - (k + 1) == acc.len() + j - k);
            }
        }
        assert(flags_acc(os, short, acc, k, i, a));
    } else {
        assert(flags_acc(os, short, acc, k, i, acc));
    }
}

proof fn lemma_disamb_arg_last_step(
    os: Seq<u8>,
    short: Seq<char>,
    flags: Seq<char>,
    ar: Seq<char>,
    orig: Seq<ArgView>,
    k: nat,
    acc: Seq<ArgView>,
    c: char,
)
    requires
        k > 0,
        k + 1 == short.len(),
        c == short[k as int],
        !flags.contains(c) && ar.contains(c),
    ensures
        disamb(os, short, flags, ar, orig, k, acc) == (acc.push(ArgView::Short(c, false, os)), None::<nat>),
{
}

proof fn lemma_disamb_ambiguous_step(
    os: Seq<u8>,
    short: Seq<char>,
    flags: Seq<char>,
    ar: Seq<char>,
    orig: Seq<ArgView>,
    k: nat,
    acc: Seq<ArgView>,
    c: char,
)
    requires
        k < short.len(),
        short.len() >= 2,
        c == short[k as int],
        flags.contains(c) && ar.contains(c),
    ensures
        disamb(os, short, flags, ar, orig, k, acc) == (acc.push(ArgView::Word(os)), Some(acc.len())),
{
}

/// What a sequence that is `a` with `x` pushed keeps of `a` and of its prefix `acc`.
proof fn lemma_pushed(r: Seq<ArgView>, a: Seq<ArgView>, acc: Seq<ArgView>, x: ArgView)
    requires
        r == a.push(x),
        a.len() >= acc.len(),
        forall|m: int| 0 <= m < acc.len() ==> a[m] == acc[m],
    ensures
        r.len() == a.len() + 1,
        r.take(acc.len() as int) == acc,
        r.last() == x,
        forall|m: int| 0 <= m < a.len() ==> r[m] == a[m],
{
    assert(r.take(acc.len() as int) =~= acc) by {
        assert forall|m: int| 0 <= m < acc.len() implies r.take(acc.len() as int)[m] == acc[m] by {
            assert(r[m] == a[m]);
        }
    }
}

/// A block of short names whose last name is an argument, after names of flags only,
/// becomes those flags and the argument with no value of its own: the next item is its
/// value.
#[verifier::spinoff_prover]
pub proof fn law_short_argument_last(
    os: Seq<u8>,
    short: Seq<char>,
    flags: Seq<char>,
    args: Seq<char>,
    orig: Seq<ArgView>,
    acc: Seq<ArgView>,
    i: int,
)
    requires
        1 <= i,
        i + 1 == short.len(),
        forall|j: int| 0 <= j < i ==> flags.contains(#[trigger] short[j]) && !args.contains(short[j]),
        !flags.contains(short[i]) && args.contains(short[i]),
    ensures
        ({
            let (r, e) = disamb(os, short, flags, args, orig, 0, acc);
            &&& e is None
            &&& r.len() == acc.len() + i + 1
            &&& r.take(acc.len() as int) == acc
            &&& forall|j: int| 0 <= j < i ==> (#[trigger] r[acc.len() + j]) is Short && r[acc.len() + j]->Short_0
                == short[j] && !r[acc.len() + j]->Short_1
            &&& r.last() == ArgView::Short(short[i], false, os)
        }),
{
    lemma_disamb_flags_then(os, short, flags, args, orig, i as nat, 0, acc, short[0]);
    let a = choose|a: Seq<ArgView>|
        #[trigger] flags_acc(os, short, acc, 0, i as nat, a) && disamb(os, short, flags, args, orig, 0, acc)
            == disamb(os, short, flags, args, orig, i as nat, a);
    lemma_disamb_arg_last_step(os, short, flags, args, orig, i as nat, a, short[i]);
    let r = disamb(os, short, flags, args, orig, 0, acc).0;
    lemma_pushed(r, a, acc, ArgView::Short(short[i], false, os));
    assert forall|j: int| 0 <= j < i implies (#[trigger] r[acc.len() + j]) is Short && r[acc.len() + j]->Short_0
        == short[j] && !r[acc.len() + j]->Short_1 by {
        assert(r[acc.len() + j] == a[acc.len() + j - 0]);
        assert(a[acc.len() + j - 0] == ArgView::Short(short[j], false, if j == 0 { os } else { Seq::empty() }));
    }
}

/// A block of short names that reaches a name of both a flag and an argument, after
/// names of flags only, is ambiguous: the error points at the item the block becomes,
/// a word holding the original OS string, after the flags before it.
#[verifier::spinoff_prover]
pub proof fn law_short_ambiguous(
    os: Seq<u8>,
    short: Seq<char>,
    flags: Seq<char>,
    args: Seq<char>,
    orig: Seq<ArgView>,
    acc: Seq<ArgView>,
    i: int,
)
    requires
        0 <= i < short.len(),
        short.len() >= 2,
        forall|j: int| 0 <= j < i ==> flags.contains(#[trigger] short[j]) && !args.contains(short[j]),
        flags.contains(short[i]) && args.contains(short[i]),
    ensures
        ({
            let (r, e) = disamb(os, short, flags, args, orig, 0, acc);
            &&& e == Some((acc.len() + i) as nat)
            &&& r.len() == acc.len() + i + 1
            &&& r.take(acc.len() as int) == acc
            &&& r.last() == ArgView::Word(os)
        }),
{
    lemma_disamb_flags_then(os, short, flags, args, orig, i as nat, 0, acc, short[0]);
    let a = choose|a: Seq<ArgView>|
        #[trigger] flags_acc(os, short, acc, 0, i as nat, a) && disamb(os, short, flags, args, orig, 0, acc)
            == disamb(os, short, flags, args, orig, i as nat, a);
    lemma_disamb_ambiguous_step(os, short, flags, args, orig, i as nat, a, short[i]);
    let r = disamb(os, short, flags, args, orig, 0, acc).0;
    lemma_pushed(r, a, acc, ArgView::Word(os));
}

proof fn lemma_disamb_single(
    os: Seq<u8>,
    short: Seq<char>,
    flags: Seq<char>,
    ar: Seq<char>,
    orig: Seq<ArgView>,
    acc: Seq<ArgView>,
    c: char,
)
    requires
        short.len() == 1,
        c == short[0],
    ensures
        disamb(os, short, flags, ar, orig, 0, acc) == (acc.push(ArgView::Short(c, false, os)), None::<nat>),
{
}

/// A block of a single short name is that name, as a flag with no value of its own,
/// whatever the parser knows of the name.
pub proof fn law_short_single_name(
    os: Seq<u8>,
    short: Seq<char>,
    flags: Seq<char>,
    args: Seq<char>,
    orig: Seq<ArgView>,
    acc: Seq<ArgView>,
)
    requires
        short.len() == 1,
    ensures
        disamb(os, short, flags, args, orig, 0, acc) == (acc.push(ArgView::Short(short[0], false, os)), None::<nat>),
{
    lemma_disamb_single(os, short, flags, args, orig, acc, short[0]);
}

/// Splits a block of short names into flags, or a flag and its value, adding the items
fn disambiguate_short(
    os: Vec<u8>,
    short: String,
    short_flags: &[char],
    short_args: &[char],
    items: &mut Vec<Arg>,
) -> (r: Option<Message>)
    ensures
        args_view(final(items)@) == disamb(
            os@,
            short@,
            short_flags@,
            short_args@,
            args_view(old(items)@),
            0,
            args_view(old(items)@),
        ).0,
        disamb(
            os@,
            short@,
            short_flags@,
            short_args@,
            args_view(old(items)@),
            0,
            args_view(old(items)@),
        ).1 matches Some(ix) ==> (r matches Some(Message::Ambiguity(j, s)) && j == ix && s@
            == short@),
        disamb(
            os@,
            short@,
            short_flags@,
            short_args@,
            args_view(old(items)@),
            0,
            args_view(old(items)@),
        ).1 is None ==> r is None,
        final(items)@.len() >= old(items)@.len(),
{
    // block can start with 0 or more short flags
    // followed by zero or one short argument, possibly with a body
    // keep the old length around so we can trim items to it and push a Arg::Word
    // if we decide to give up
    let original = items.len();
    let ghost orig = args_view(items@);
    let ghost res = disamb(os@, short@, short_flags@, short_args@, orig, 0, orig);
    let cs = str_chars(short.as_str());
    let mut i: usize = 0;
    while i < cs.len()
        invariant
            i <= cs@.len(),
            cs@ == short@,
            original == old(items)@.len(),
            orig == args_view(old(items)@),
            items@.len() >= original,
            args_view(items@).take(original as int) == orig,
            res == disamb(os@, short@, short_flags@, short_args@, orig, 0, orig),
            res == disamb(os@, short@, short_flags@, short_args@, orig, i as nat, args_view(items@)),
        decreases cs.len() - i,
    {
        let c = char_of(&cs, i);
        let rest_empty = i + 1 == cs.len();
        let ghost acc = args_view(items@);
        // shortcircuit single character short options
        if i == 0 && rest_empty {
            items.push(Arg::Short(c, false, os));
            assert(args_view(items@) =~= acc.push(ArgView::Short(c, false, os@)));
            return None;
        }
        let is_flag = char_in(short_flags, c);
        let is_arg = char_in(short_args, c);
        if is_flag && !is_arg {
            // short name that can be flag
            let first: Vec<u8> = if i == 0 {
                crate::text::copy_bytes(os.as_slice(), 0, os.len())
            } else {
                Vec::new()
            };
            proof {
                assert(os@.subrange(0, os@.len() as int) =~= os@);
                if i != 0 {
                    assert(first@ =~= Seq::<u8>::empty());
                }
            }
            items.push(Arg::Short(c, false, first));
            assert(args_view(items@) =~= acc.push(ArgView::Short(c, false, first@)));
            assert(args_view(items@).take(original as int) =~= acc.take(original as int));
        } else if !is_flag && is_arg {
            // short name that can be argument
            let adjacent_body = !rest_empty;
            items.push(Arg::Short(c, adjacent_body, os));
            assert(args_view(items@) =~= acc.push(ArgView::Short(c, adjacent_body, os@)));
            if adjacent_body {
                let ghost a1 = args_view(items@);
                let mut rest: Vec<char> = Vec::new();
                push_range(&mut rest, &cs, i + 1, cs.len());
                let rest_s = chars_string(&rest);
                items.push(Arg::Word(str_bytes(rest_s.as_str())));
                assert(args_view(items@) =~= a1.push(
                    ArgView::Word(utf8_encode(short@.subrange(i + 1, short@.len() as int))),
                ));
            }
            return None;
        } else if !is_flag && !is_arg {
            // neither is valid and there's more than one character. fallback to using it as
            // a Word
            items.truncate(original);
            assert(args_view(items@) =~= orig);
            items.push(Arg::Word(os));
            assert(args_view(items@) =~= orig.push(ArgView::Word(os@)));
            return None;
        } else {
            // ambiguity, this is bad
            let msg = Message::Ambiguity(items.len(), short);
            items.push(Arg::Word(os));
            assert(args_view(items@) =~= acc.push(ArgView::Word(os@)));
            return Some(msg);
        }
        i = i + 1;
    }
    None
}

} // verus!

verus! {

/// What preprocessing has made of the arguments so far: the items, whether only positional
/// items follow, where `--` stands, the completion revision asked for, an ambiguity (the
/// position of its item and the short names) and a request for a completion script.
pub struct Scan {
    pub items: Seq<ArgView>,
    pub pos_only: bool,
    pub double_dash: Option<nat>,
    pub revision: Option<usize>,
    pub err: Option<(nat, Seq<char>)>,
    pub dump: Option<CompleterStyle>,
}

/// Preprocessing stops at an ambiguity and at a request for a completion script.
pub open spec fn scan_stopped(s: Scan) -> bool {
    s.err is Some || s.dump is Some
}

/// Preprocessing of one more OS string.
pub open spec fn scan_step(
    s: Scan,
    os: Seq<u8>,
    flags: Seq<char>,
    args: Seq<char>,
    name: Option<Seq<char>>,
) -> Scan {
    if scan_stopped(s) {
        s
    } else if s.pos_only {
        Scan { items: s.items.push(ArgView::PosWord(os)), ..s }
    } else {
        let (sc, rev) = scan_spec(s.revision, name, os);
        match sc {
            Scanned::Dump(st) => Scan { dump: Some(st), ..s },
            Scanned::Consumed => Scan { revision: rev, ..s },
            Scanned::Kept => match split_spec(os) {
                Some((ArgType::Short, short, None)) => {
                    let d = disamb(os, short, flags, args, s.items, 0, s.items);
                    Scan {
                        items: d.0,
                        err: match d.1 {
                            Some(ix) => Some((ix, short)),
                            None => None,
                        },
                        ..s
                    }
                },
                Some((ArgType::Short, short, Some(arg))) => Scan {
                    items: s.items.push(ArgView::Short(short[0], true, os)).push(arg),
                    ..s
                },
                Some((ArgType::Long, long, arg)) => Scan {
                    items: match arg {
                        Some(a) => s.items.push(ArgView::Long(long, true, os)).push(a),
                        None => s.items.push(ArgView::Long(long, false, os)),
                    },
                    ..s
                },
                None => if is_double_dash(os) {
                    Scan {
                        items: s.items.push(ArgView::PosWord(os)),
                        pos_only: true,
                        double_dash: Some(s.items.len()),
                        ..s
                    }
                } else {
                    Scan { items: s.items.push(ArgView::Word(os)), ..s }
                },
            },
        }
    }
}

/// Preprocessing of a list of OS strings.
pub open spec fn scan_all(
    oss: Seq<Seq<u8>>,
    flags: Seq<char>,
    args: Seq<char>,
    name: Option<Seq<char>>,
    rev: Option<usize>,
) -> Scan
    decreases oss.len(),
{
    if oss.len() == 0 {
        Scan {
            items: Seq::empty(),
            pos_only: false,
            double_dash: None,
            revision: rev,
            err: None,
            dump: None,
        }
    } else {
        scan_step(scan_all(oss.drop_last(), flags, args, name, rev), oss.last(), flags, args, name)
    }
}

/// Once stopped, preprocessing ignores the rest.
proof fn lemma_scan_stopped(
    oss: Seq<Seq<u8>>,
    flags: Seq<char>,
    args: Seq<char>,
    name: Option<Seq<char>>,
    rev: Option<usize>,
    i: int,
    j: int,
)
    requires
        0 <= i <= j <= oss.len(),
        scan_stopped(scan_all(oss.take(i), flags, args, name, rev)),
    ensures
        scan_all(oss.take(j), flags, args, name, rev) == scan_all(oss.take(i), flags, args, name, rev),
    decreases j - i,
{
    if j > i {
        lemma_scan_stopped(oss, flags, args, name, rev, i, j - 1);
        assert(oss.take(j).drop_last() =~= oss.take(j - 1));
    }
}

} // verus!

verus! {

/// Parsing state: the preprocessed items, which of them were consumed, the scope a parser
/// looks at and the item consumed last
pub struct State {
    /// list of all available command line arguments
    items: Vec<Arg>,
    item_state: Vec<ItemState>,
    /// tracks removed items and gives cheap is_empty and len
    remaining: usize,
    /// Used to render an error message: contains an index of a currently consumed item if
    /// we are parsing a single item
    pub current: Option<usize>,
    /// path to current command, "deeper" parser should win in or_else branches
    path: Vec<String>,
    comp: Option<Complete>,
    /// Describes scope current parser will be consuming elements from. Usually it will be
    /// considering the whole sequence of (unconsumed) arguments, but for "adjacent"
    /// scope starts on the right of the first consumed item and might end before the end
    /// of the list, similarly for "commands"
    scope: Range<usize>,
    /// A completion script was asked for; preprocessing stopped there
    dump: Option<CompleterStyle>,
}

/// Mathematical form of a completion state: hints, output revision, whether positional
/// items are no longer suggested
pub type CompView = (Seq<Comp>, usize, bool);

/// The view of an optional completion state.
pub open spec fn comp_view(c: Option<Complete>) -> Option<CompView> {
    match c {
        Some(c) => Some((c.comps(), c.rev(), c.pos_ahead_blocked())),
        None => None,
    }
}

/// Mathematical form of a [`State`]
pub struct StateView {
    pub items: Seq<ArgView>,
    pub states: Seq<ItemState>,
    pub current: Option<usize>,
    pub path: Seq<Seq<char>>,
    pub start: int,
    pub end: int,
    pub comp: Option<CompView>,
    pub dump: Option<CompleterStyle>,
}

/// The characters of each string.
pub open spec fn strings_view(v: Seq<String>) -> Seq<Seq<char>> {
    v.map_values(|s: String| s@)
}

impl View for State {
    type V = StateView;

    closed spec fn view(&self) -> StateView {
        StateView {
            items: args_view(self.items@),
            states: self.item_state@,
            current: self.current,
            path: strings_view(self.path@),
            start: self.scope.start as int,
            end: self.scope.end as int,
            comp: comp_view(self.comp),
            dump: self.dump,
        }
    }
}

/// A present item of the scope at the position.
pub open spec fn in_scope(v: StateView, ix: int) -> bool {
    v.start <= ix < v.end && is_present(v.states[ix])
}

impl State {
    /// One state per item, the scope within the items, and the count of present items in
    /// the scope kept up to date
    pub closed spec fn wf(&self) -> bool {
        &&& self.item_state@.len() == self.items@.len()
        &&& self.scope.start <= self.scope.end <= self.items@.len()
        &&& self.remaining == count_present(
            self.item_state@,
            self.scope.start as int,
            self.scope.end as int,
        )
    }

    /// Number of present items in the scope, as the state counts them.
    pub closed spec fn remaining_count(&self) -> nat {
        self.remaining as nat
    }

    /// The count is that of the present items of the scope.
    pub proof fn lemma_remaining(&self)
        requires
            self.wf(),
        ensures
            self.remaining_count() == count_present(self@.states, self@.start, self@.end),
            self@.states.len() == self@.items.len(),
            0 <= self@.start <= self@.end <= self@.items.len(),
    {
    }
}

/// States of fresh items: all present, but `--`, unless it is the last item of a running
/// completion, where it is still to be completed.
pub open spec fn fresh_states(sc: Scan) -> Seq<ItemState> {
    let n = sc.items.len();
    let fresh = Seq::new(n, |i: int| ItemState::Unparsed);
    match sc.double_dash {
        Some(ix) => if sc.revision is Some && ix == n - 1 {
            fresh
        } else {
            fresh.update(ix as int, ItemState::Parsed)
        },
        None => fresh,
    }
}

/// The state preprocessing makes of the arguments.
pub open spec fn construct_view(a: ArgsView, flags: Seq<char>, args: Seq<char>) -> StateView {
    let sc = scan_all(a.items, flags, args, a.name, a.c_rev);
    StateView {
        items: sc.items,
        states: fresh_states(sc),
        current: None,
        path: match a.name {
            Some(n) => seq![n],
            None => Seq::empty(),
        },
        start: 0,
        end: sc.items.len() as int,
        comp: match sc.revision {
            Some(r) => Some((Seq::empty(), r, false)),
            None => None,
        },
        dump: sc.dump,
    }
}

/// A copy of the bytes of an item.
fn item_bytes(v: &Vec<Vec<u8>>, i: usize) -> (r: Vec<u8>)
    requires
        i < v@.len(),
    ensures
        r@ == v@[i as int]@,
{
    let b: &Vec<u8> = &v[i];
    let r = crate::text::copy_bytes(b.as_slice(), 0, b.len());
    assert(b@.subrange(0, b@.len() as int) =~= b@);
    r
}

/// A decoded text encodes back to the bytes.
proof fn lemma_decode_encodes(b: Seq<u8>)
    requires
        crate::text::utf8_decode(b) is Some,
    ensures
        utf8_encode(crate::text::utf8_decode(b)->0) == b,
{
    vstd::utf8::decode_utf8_encode_utf8(b);
}

} // verus!

verus! {

/// The position of `--`, if it was seen.
pub open spec fn opt_nat(o: Option<usize>) -> Option<nat> {
    match o {
        Some(v) => Some(v as nat),
        None => None,
    }
}

impl State {
    /// Preprocesses the arguments: flags with their values, words, strictly positional
    /// words after `--`; a block of short names is told apart by the short flags and short
    /// arguments that exist. Stops at an ambiguity, which goes to `err`, and at a request
    /// for a completion script.
    pub fn construct(
        args: Args,
        short_flags: &[char],
        short_args: &[char],
        err: &mut Option<Message>,
    ) -> (r: State)
        ensures
            r.wf(),
            r@ == construct_view(args@, short_flags@, short_args@),
            scan_all(args@.items, short_flags@, short_args@, args@.name, args@.c_rev).err matches Some(
                (ix, s),
            ) ==> (*final(err) matches Some(Message::Ambiguity(j, t)) && j == ix && t@ == s),
            scan_all(args@.items, short_flags@, short_args@, args@.name, args@.c_rev).err is None
                ==> *final(err) == *old(err),
    {
        let ghost oss = args@.items;
        let ghost nm = args@.name;
        let ghost e0 = *err;
        let mut items: Vec<Arg> = Vec::new();
        let mut pos_only = false;
        let mut double_dash_marker: Option<usize> = None;
        let name_ref: Option<&str> = match &args.name {
            Some(n) => Some(n.as_str()),
            None => None,
        };
        let mut comp_scanner = ArgScanner { revision: args.c_rev, name: name_ref };
        let mut dump: Option<CompleterStyle> = None;
        let ghost mut errv: Option<(nat, Seq<char>)> = None;
        let mut stopped = false;
        let mut i: usize = 0;
        assert(oss.take(0) =~= Seq::<Seq<u8>>::empty());
        assert(args_view(items@) =~= Seq::<ArgView>::empty());
        while i < args.items.len() && !stopped
            invariant
                i <= args.items@.len(),
                oss == bytes_view(args.items@),
                nm == opt_chars(args.name),
                name_view(comp_scanner.name) == nm,
                scan_all(oss.take(i as int), short_flags@, short_args@, nm, args.c_rev) == (Scan {
                    items: args_view(items@),
                    pos_only,
                    double_dash: opt_nat(double_dash_marker),
                    revision: comp_scanner.revision,
                    err: errv,
                    dump,
                }),
                stopped == (errv is Some || dump is Some),
                double_dash_marker matches Some(ix) ==> ix < items@.len(),
                errv is None ==> *err == e0,
                errv matches Some((ix, s)) ==> (*err matches Some(Message::Ambiguity(j, t)) && j
                    == ix && t@ == s),
            decreases args.items.len() - i,
        {
            let os = item_bytes(&args.items, i);
            let ghost before = Scan {
                items: args_view(items@),
                pos_only,
                double_dash: opt_nat(double_dash_marker),
                revision: comp_scanner.revision,
                err: errv,
                dump,
            };
            let ghost v0 = args_view(items@);
            assert(oss.take(i + 1).drop_last() =~= oss.take(i as int));
            assert(oss.take(i + 1).last() == os@);
            if pos_only {
                items.push(Arg::PosWord(os));
                assert(args_view(items@) =~= v0.push(ArgView::PosWord(os@)));
            } else {
                let sc = comp_scanner.check_next(os.as_slice());
                match sc {
                    Scanned::Dump(st) => {
                        dump = Some(st);
                        stopped = true;
                    },
                    Scanned::Consumed => {},
                    Scanned::Kept => {
                        let sp = split_os_argument(os.as_slice());
                        let ghost spv = split_view(sp);
                        match sp {
                            // -f and -fbar, but also -vvvvv
                            Some((ArgType::Short, short, None)) => {
                                let ghost sv = short@;
                                match disambiguate_short(os, short, short_flags, short_args, &mut items) {
                                    Some(msg) => {
                                        *err = Some(msg);
                                        stopped = true;
                                        proof {
                                            errv = Some((disamb(os@, sv, short_flags@, short_args@, v0, 0, v0).1->0, sv));
                                        }
                                    },
                                    None => {},
                                }
                            },
                            Some((ArgType::Short, short, Some(arg))) => {
                                proof {
                                    let e = crate::arg::equals_from(os@, 2);
                                    crate::arg::lemma_equals_from_bounds(os@, 2);
                                    assert(spv == split_spec(os@));
                                    assert(os@[1] != DASH);
                                    lemma_decode_encodes(os@.subrange(1, e));
                                    if short@.len() == 0 {
                                        assert(short@ =~= Seq::<char>::empty());
                                        assert(utf8_encode(short@) =~= Seq::<u8>::empty());
                                    }
                                }
                                let cs = str_chars(short.as_str());
                                let c = char_of(&cs, 0);
                                let ghost av = arg@;
                                items.push(Arg::Short(c, true, os));
                                items.push(arg);
                                assert(args_view(items@) =~= v0.push(ArgView::Short(c, true, os@)).push(av));
                            },
                            // --key and --key=val
                            Some((ArgType::Long, long, arg)) => {
                                let ghost lname = long@;
                                match arg {
                                    Some(a) => {
                                        let ghost av = a@;
                                        items.push(Arg::Long(long, true, os));
                                        items.push(a);
                                        assert(args_view(items@) =~= v0.push(ArgView::Long(lname, true, os@)).push(av));
                                    },
                                    None => {
                                        items.push(Arg::Long(long, false, os));
                                        assert(args_view(items@) =~= v0.push(ArgView::Long(lname, false, os@)));
                                    },
                                }
                            },
                            // something that is not a short or long flag, keep them as
                            // positionals; handle "--" specifically as "end of flags" marker
                            None => {
                                if crate::arg::double_dash(&os) {
                                    double_dash_marker = Some(items.len());
                                    pos_only = true;
                                    items.push(Arg::PosWord(os));
                                    assert(args_view(items@) =~= v0.push(ArgView::PosWord(os@)));
                                } else {
                                    items.push(Arg::Word(os));
                                    assert(args_view(items@) =~= v0.push(ArgView::Word(os@)));
                                }
                            },
                        }
                    },
                }
            }
            i = i + 1;
        }
        proof {
            if stopped {
                lemma_scan_stopped(oss, short_flags@, short_args@, nm, args.c_rev, i as int, oss.len() as int);
            }
            assert(oss.take(oss.len() as int) =~= oss);
        }
        let ghost sc = scan_all(oss, short_flags@, short_args@, nm, args.c_rev);
        let n = items.len();
        let mut item_state: Vec<ItemState> = Vec::new();
        let mut k: usize = 0;
        while k < n
            invariant
                k <= n,
                item_state@ == Seq::new(k as nat, |j: int| ItemState::Unparsed),
            decreases n - k,
        {
            item_state.push(ItemState::Unparsed);
            k = k + 1;
            assert(item_state@ =~= Seq::new(k as nat, |j: int| ItemState::Unparsed));
        }
        let ghost fresh = item_state@;
        proof {
            lemma_count_fresh(n as nat, n as nat);
        }
        let mut remaining = n;
        if let Some(ix) = double_dash_marker {
            item_state.set(ix, ItemState::Parsed);
            proof {
                lemma_count_update(fresh, 0, n as int, ix as int, ItemState::Parsed);
            }
            remaining = remaining - 1;
            if comp_scanner.revision.is_some() && ix == n - 1 {
                remaining = remaining + 1;
                item_state.set(ix, ItemState::Unparsed);
                assert(item_state@ =~= fresh);
            }
        }
        let comp = comp_scanner.done();
        let mut path: Vec<String> = Vec::new();
        if let Some(name) = args.name {
            path.push(name);
        }
        let r = State {
            item_state,
            remaining,
            scope: Range { start: 0, end: n },
            items,
            current: None,
            path,
            comp,
            dump,
        };
        assert(r@.path =~= construct_view(args@, short_flags@, short_args@).path);
        assert(r@.states =~= fresh_states(sc));
        r
    }
}

} // verus!

verus! {

/// First present item of the scope from position `from` on that satisfies `p`.
pub open spec fn first_in_scope(v: StateView, from: int, p: spec_fn(ArgView) -> bool) -> Option<int>
    decreases v.end - from,
{
    if from < 0 || from >= v.end {
        None
    } else if is_present(v.states[from]) && p(v.items[from]) {
        Some(from)
    } else {
        first_in_scope(v, from + 1, p)
    }
}

/// What is found is a present item of the scope that satisfies the test.
pub proof fn lemma_first_in_scope(v: StateView, from: int, p: spec_fn(ArgView) -> bool)
    ensures
        first_in_scope(v, from, p) matches Some(i) ==> from <= i < v.end && is_present(v.states[i])
            && p(v.items[i]),
    decreases v.end - from,
{
    if 0 <= from < v.end && !(is_present(v.states[from]) && p(v.items[from])) {
        lemma_first_in_scope(v, from + 1, p);
    }
}

/// Any item.
pub open spec fn any_arg() -> spec_fn(ArgView) -> bool {
    |a: ArgView| true
}

/// An item a name matches.
pub open spec fn named_item(n: crate::params::NamedView, adjacent: bool) -> spec_fn(ArgView) -> bool {
    |a: ArgView| named_matches(n, a, adjacent)
}

/// A word, plain or strictly positional.
pub open spec fn word_item() -> spec_fn(ArgView) -> bool {
    |a: ArgView| a is Word || a is PosWord
}

/// The state after consuming a present item of the scope; other positions change nothing.
pub open spec fn removed(v: StateView, index: int) -> StateView {
    if v.start <= index < v.end && is_present(v.states[index]) {
        StateView { current: Some(index as usize), states: v.states.update(index, ItemState::Parsed), ..v }
    } else {
        v
    }
}

/// Positions from `lo` up to `hi` whose items are present, in increasing order.
pub open spec fn present_between(states: Seq<ItemState>, lo: int, hi: int) -> Seq<usize>
    decreases hi - lo,
{
    if lo >= hi {
        Seq::empty()
    } else {
        let rest = present_between(states, lo + 1, hi);
        if is_present(states[lo]) {
            seq![lo as usize] + rest
        } else {
            rest
        }
    }
}

impl State {
    /// Check if item at ixth position is still present (was not parsed)
    pub fn present(&self, ix: usize) -> (r: Option<bool>)
        requires
            self.wf(),
        ensures
            r == if ix < self@.states.len() {
                Some(is_present(self@.states[ix as int]))
            } else {
                None
            },
    {
        if ix < self.item_state.len() {
            Some(self.item_state[ix].present())
        } else {
            None
        }
    }

    /// Positions of the present items in the scope, in order
    pub fn items_iter(&self) -> (r: Vec<usize>)
        requires
            self.wf(),
        ensures
            r@ == present_between(self@.states, self@.start, self@.end),
    {
        let mut out: Vec<usize> = Vec::new();
        let mut i: usize = self.scope.start;
        let end: usize = self.scope.end;
        while i < end
            invariant
                self.wf(),
                end == self@.end,
                self@.start <= i <= end,
                out@ + present_between(self@.states, i as int, end as int) == present_between(
                    self@.states,
                    self@.start,
                    self@.end,
                ),
            decreases end - i,
        {
            let ghost before = out@;
            if self.item_state[i].present() {
                out.push(i);
            }
            assert(out@ + present_between(self@.states, i + 1, end as int) =~= before
                + present_between(self@.states, i as int, end as int));
            i = i + 1;
        }
        assert(out@ =~= out@ + present_between(self@.states, i as int, end as int));
        out
    }

    /// Depth of the current command
    pub fn depth(&self) -> (r: usize)
        ensures
            r == self@.path.len(),
    {
        self.path.len()
    }

    /// Whether positional items are no longer suggested
    pub fn check_no_pos_ahead(&self) -> (r: bool)
        ensures
            r == (self@.comp matches Some(c) && c.2),
    {
        match &self.comp {
            Some(c) => c.blocks_pos_ahead(),
            None => false,
        }
    }

    /// Stop suggesting positional items
    pub fn set_no_pos_ahead(&mut self)
        requires
            old(self).wf(),
        ensures
            final(self).wf(),
            final(self)@ == (StateView {
                comp: match old(self)@.comp {
                    Some(c) => Some((c.0, c.1, true)),
                    None => None,
                },
                ..old(self)@
            }),
    {
        if let Some(comp) = &mut self.comp {
            comp.block_pos_ahead();
        }
    }

    /// Position of the first present item of the scope that satisfies `p`, from `from` on.
    fn find_from(&self, from: usize) -> (r: Option<usize>)
        requires
            self.wf(),
            self@.start <= from,
        ensures
            r == match first_in_scope(self@, from as int, any_arg()) {
                Some(i) => Some(i as usize),
                None => None,
            },
    {
        let mut ix = from;
        while ix < self.scope.end
            invariant
                self.wf(),
                from <= ix,
                first_in_scope(self@, from as int, any_arg()) == first_in_scope(self@, ix as int, any_arg()),
            decreases self.scope.end - ix,
        {
            if self.item_state[ix].present() {
                return Some(ix);
            }
            ix = ix + 1;
        }
        None
    }

    /// Consume an item: if it is a present item of the scope, it is parsed and becomes the
    /// current one
    pub fn remove(&mut self, index: usize)
        requires
            old(self).wf(),
        ensures
            final(self).wf(),
            final(self)@ == removed(old(self)@, index as int),
    {
        if self.scope.start <= index && index < self.scope.end && self.item_state[index].present() {
            proof {
                lemma_count_update(self.item_state@, self.scope.start as int, self.scope.end as int, index as int, ItemState::Parsed);
            }
            self.current = Some(index);
            self.remaining = self.remaining - 1;
            self.item_state.set(index, ItemState::Parsed);
        }
    }

    /// Which of two states consumed the first item on which they differ: `true` for this
    /// one, with the position; `(true, None)` when they agree.
    pub fn pick_winner(&self, other: &Self) -> (r: (bool, Option<usize>))
        ensures
            r == match first_diff(self@.states, other@.states, 0) {
                Some(ix) => (self@.states[ix] is Parsed, Some(ix as usize)),
                None => (true, None),
            },
    {
        let mut ix: usize = 0;
        while ix < self.item_state.len() && ix < other.item_state.len()
            invariant
                first_diff(self@.states, other@.states, 0) == first_diff(self@.states, other@.states, ix as int),
            decreases self.item_state.len() - ix,
        {
            let me = self.item_state[ix].parsed();
            let them = other.item_state[ix].parsed();
            if me != them {
                return (me, Some(ix));
            }
            ix = ix + 1;
        }
        (true, None)
    }

    /// find first saved conflict: the first present item of the scope, if it is a conflict,
    /// with the position of the winning branch
    pub fn conflict(&self) -> (r: Option<(usize, usize)>)
        requires
            self.wf(),
        ensures
            r == match first_in_scope(self@, self@.start, any_arg()) {
                Some(ix) => match self@.states[ix] {
                    ItemState::Conflict(other) => Some((ix as usize, other)),
                    _ => None,
                },
                None => None,
            },
    {
        let ix = match self.find_from(self.scope.start) {
            Some(ix) => ix,
            None => {
                return None;
            },
        };
        proof {
            lemma_first_in_scope(self@, self@.start, any_arg());
        }
        match self.item_state[ix] {
            ItemState::Conflict(other) => Some((ix, other)),
            _ => None,
        }
    }

    /// Items this state still has and the loser consumed become conflicts, won by `win`
    pub fn save_conflicts(&mut self, loser: &State, win: usize)
        requires
            old(self).wf(),
        ensures
            final(self).wf(),
            final(self)@ == (StateView {
                states: conflicts(old(self)@.states, loser@.states, win),
                ..old(self)@
            }),
    {
        let ghost s0 = self.item_state@;
        let mut ix: usize = 0;
        while ix < self.item_state.len() && ix < loser.item_state.len()
            invariant
                self.item_state@.len() == s0.len(),
                self.items == old(self).items,
                self.scope == old(self).scope,
                self.remaining == old(self).remaining,
                self.current == old(self).current,
                self.path == old(self).path,
                self.comp == old(self).comp,
                self.dump == old(self).dump,
                s0 == old(self).item_state@,
                forall|j: int| 0 <= j < ix ==> self.item_state@[j] == conflicts(s0, loser@.states, win)[j],
                forall|j: int| ix <= j < s0.len() ==> self.item_state@[j] == s0[j],
            decreases self.item_state.len() - ix,
        {
            if self.item_state[ix].present() && loser.item_state[ix].parsed() {
                self.item_state.set(ix, ItemState::Conflict(win));
            }
            ix = ix + 1;
        }
        assert(self.item_state@ =~= conflicts(s0, loser@.states, win));
        proof {
            lemma_count_same(self.item_state@, s0, self.scope.start as int, self.scope.end as int);
        }
    }

    /// Whether no item of the scope is left
    pub fn is_empty(&self) -> (r: bool)
        requires
            self.wf(),
        ensures
            r == (count_present(self@.states, self@.start, self@.end) == 0),
    {
        self.remaining == 0
    }

    /// Number of items of the scope left
    pub fn len(&self) -> (r: usize)
        requires
            self.wf(),
        ensures
            r == count_present(self@.states, self@.start, self@.end),
    {
        self.remaining
    }

    /// Get an argument from a scope that was not consumed yet
    pub fn get(&self, ix: usize) -> (r: Option<&Arg>)
        requires
            self.wf(),
        ensures
            match r {
                Some(a) => in_scope(self@, ix as int) && a@ == self@.items[ix as int],
                None => !in_scope(self@, ix as int),
            },
    {
        if self.scope.start <= ix && ix < self.scope.end && self.item_state[ix].present() {
            Some(&self.items[ix])
        } else {
            None
        }
    }

    /// Check if parser performs autocompletion
    pub fn is_comp(&self) -> (r: bool)
        ensures
            r == self@.comp is Some,
    {
        self.comp.is_some()
    }

    /// A completion script that was asked for, where preprocessing stopped
    pub fn completer_request(&self) -> (r: Option<CompleterStyle>)
        ensures
            r == self@.dump,
    {
        self.dump
    }
}

/// First position where one state consumed the item and the other did not.
pub open spec fn first_diff(a: Seq<ItemState>, b: Seq<ItemState>, i: int) -> Option<int>
    decreases a.len() - i,
{
    if i < 0 || i >= a.len() || i >= b.len() {
        None
    } else if (a[i] is Parsed) != (b[i] is Parsed) {
        Some(i)
    } else {
        first_diff(a, b, i + 1)
    }
}

/// The branch that consumed the leftmost item the other did not wins: the position
/// reported is the first where exactly one branch parsed its item, the two agree before it,
/// and with no such position they agree on every item both have.
pub proof fn law_winner_is_leftmost_difference(a: Seq<ItemState>, b: Seq<ItemState>)
    ensures
        first_diff(a, b, 0) matches Some(ix) ==> {
            &&& 0 <= ix < a.len() && ix < b.len()
            &&& (a[ix] is Parsed) != (b[ix] is Parsed)
            &&& forall|j: int| 0 <= j < ix ==> ((#[trigger] a[j]) is Parsed) == (b[j] is Parsed)
        },
        first_diff(a, b, 0) is None ==> forall|j: int|
            0 <= j < a.len() && j < b.len() ==> ((#[trigger] a[j]) is Parsed) == (b[j] is Parsed),
{
    lemma_first_diff_from(a, b, 0);
}

proof fn lemma_first_diff_from(a: Seq<ItemState>, b: Seq<ItemState>, i: int)
    requires
        0 <= i,
    ensures
        first_diff(a, b, i) matches Some(ix) ==> {
            &&& i <= ix < a.len() && ix < b.len()
            &&& (a[ix] is Parsed) != (b[ix] is Parsed)
            &&& forall|j: int| i <= j < ix ==> ((#[trigger] a[j]) is Parsed) == (b[j] is Parsed)
        },
        first_diff(a, b, i) is None ==> forall|j: int|
            i <= j < a.len() && j < b.len() ==> ((#[trigger] a[j]) is Parsed) == (b[j] is Parsed),
    decreases a.len() - i,
{
    if i < a.len() && i < b.len() && (a[i] is Parsed) == (b[i] is Parsed) {
        lemma_first_diff_from(a, b, i + 1);
    }
}

/// Items a winner still has and the loser consumed become conflicts won by `win`.
pub open spec fn conflicts(w: Seq<ItemState>, l: Seq<ItemState>, win: usize) -> Seq<ItemState> {
    Seq::new(
        w.len(),
        |i: int|
            if i < l.len() && is_present(w[i]) && l[i] is Parsed {
                ItemState::Conflict(win)
            } else {
                w[i]
            },
    )
}

} // verus!

verus! {

/// First position from `i` on, below the end of both, where both states still have the item.
pub open spec fn first_both_present(a: Seq<ItemState>, b: Seq<ItemState>, i: int) -> Option<int>
    decreases a.len() - i,
{
    if i < 0 || i >= a.len() || i >= b.len() {
        None
    } else if is_present(a[i]) && is_present(b[i]) {
        Some(i)
    } else {
        first_both_present(a, b, i + 1)
    }
}

/// Number of present items in a row from position `i` on.
pub open spec fn run_len(st: Seq<ItemState>, i: int) -> nat
    decreases st.len() - i,
{
    if i < 0 || i >= st.len() || !is_present(st[i]) {
        0
    } else {
        1 + run_len(st, i + 1)
    }
}

/// A run of present items ends within the states.
pub proof fn lemma_run_len_bound(st: Seq<ItemState>, i: int)
    requires
        0 <= i,
    ensures
        i + run_len(st, i) <= if i <= st.len() {
            st.len() as int
        } else {
            i
        },
    decreases st.len() - i,
{
    if i < st.len() && is_present(st[i]) {
        lemma_run_len_bound(st, i + 1);
    }
}

impl State {
    /// Narrow down scope of &self to adjacently consumed values compared to original: from
    /// the start of the scope to the first item both still have, unless that is the scope
    /// already
    pub fn adjacent_scope(&self, original: &State) -> (r: Option<Range<usize>>)
        requires
            self.wf(),
            self@.start <= original@.states.len(),
        ensures
            r == if self@.items.len() == 0 {
                None
            } else {
                match first_both_present(self@.states, original@.states, self@.start) {
                    Some(off) => if off == self@.end {
                        None::<Range<usize>>
                    } else {
                        Some(Range { start: self@.start as usize, end: off as usize })
                    },
                    None => None,
                }
            },
    {
        if self.items.len() == 0 {
            return None;
        }
        // starting at the beginning of the scope look for the first mismatch
        let start = self.scope.start;
        let mut offset = start;
        while offset < self.item_state.len() && offset < original.item_state.len()
            invariant
                self.wf(),
                start == self.scope.start,
                start <= offset,
                first_both_present(self@.states, original@.states, start as int) == first_both_present(
                    self@.states,
                    original@.states,
                    offset as int,
                ),
            decreases self.item_state.len() - offset,
        {
            // once there's a mismatch we have the scope we are looking for: all the adjacent
            // items consumed in this. It doesn't make sense to remove it if it matches the
            // original scope though...
            if self.item_state[offset].present() && original.item_state[offset].present() {
                let proposed_scope = Range { start, end: offset };
                return if self.scope.start == proposed_scope.start && self.scope.end == proposed_scope.end {
                    None
                } else {
                    Some(proposed_scope)
                };
            }
            offset = offset + 1;
        }
        None
    }

    /// Get a scope for an adjacently available block of item starting at start
    pub fn adjacently_available_from(&self, start: usize) -> (r: Range<usize>)
        requires
            self.wf(),
        ensures
            r.start == start,
            r.end == start + run_len(self@.states, start as int),
    {
        let mut end = start;
        proof {
            lemma_run_len_bound(self@.states, start as int);
        }
        while end < self.item_state.len() && self.item_state[end].present()
            invariant
                self.wf(),
                start <= end,
                end + run_len(self@.states, end as int) == start + run_len(self@.states, start as int),
            decreases self.item_state.len() - end,
        {
            end = end + 1;
        }
        Range { start, end }
    }

    /// Scope of the state
    pub fn scope(&self) -> (r: Range<usize>)
        ensures
            r.start == self@.start,
            r.end == self@.end,
    {
        Range { start: self.scope.start, end: self.scope.end }
    }

    /// Mark everything outside of `range` as removed
    pub fn set_scope(&mut self, scope: Range<usize>)
        requires
            old(self).wf(),
            scope.start <= scope.end <= old(self)@.items.len(),
        ensures
            final(self).wf(),
            final(self)@ == (StateView { start: scope.start as int, end: scope.end as int, ..old(self)@ }),
    {
        let mut count: usize = 0;
        let mut ix = scope.start;
        proof {
            lemma_count_bound(self.item_state@, scope.start as int, scope.end as int);
        }
        while ix < scope.end
            invariant
                scope.start <= ix <= scope.end <= self.item_state@.len(),
                count == count_present(self.item_state@, scope.start as int, ix as int),
            decreases scope.end - ix,
        {
            proof {
                lemma_count_bound(self.item_state@, scope.start as int, ix as int);
            }
            if self.item_state[ix].present() {
                count = count + 1;
            }
            ix = ix + 1;
        }
        self.scope = scope;
        self.remaining = count;
    }

    /// check if bpaf tries to complete last consumed element
    pub fn touching_last_remove(&self) -> (r: bool)
        requires
            self@.comp is Some ==> self@.items.len() > 0,
        ensures
            r == (self@.comp is Some && self@.items.len() - 1 == match self@.current {
                Some(c) => c as int,
                None => usize::MAX as int,
            }),
    {
        self.comp.is_some() && self.items.len() - 1 == match self.current {
            Some(c) => c,
            None => usize::MAX,
        }
    }

    /// Completion state, if completion is running
    pub fn comp_ref(&self) -> (r: Option<&Complete>)
        ensures
            comp_view(match r {
                Some(c) => Some(*c),
                None => None,
            }) == self@.comp,
    {
        self.comp.as_ref()
    }

    /// Exchange the completion states of two parsing states
    pub fn swap_comps(&mut self, other: &mut Self)
        requires
            old(self).wf(),
            old(other).wf(),
        ensures
            final(self).wf(),
            final(other).wf(),
            final(self)@ == (StateView { comp: old(other)@.comp, ..old(self)@ }),
            final(other)@ == (StateView { comp: old(self)@.comp, ..old(other)@ }),
    {
        std::mem::swap(&mut self.comp, &mut other.comp);
    }

    /// Exchange the completion hints with `comps`, if completion is running
    pub fn swap_comps_with(&mut self, comps: &mut Vec<Comp>)
        requires
            old(self).wf(),
        ensures
            final(self).wf(),
            match old(self)@.comp {
                Some(c) => final(self)@ == (StateView { comp: Some((old(comps)@, c.1, c.2)), ..old(self)@ })
                    && final(comps)@ == c.0,
                None => final(self)@ == old(self)@ && final(comps)@ == old(comps)@,
            },
    {
        if let Some(comp) = &mut self.comp {
            comp.swap_comps(comps);
        }
    }

    /// Move the hints of `comps` into the completion state, each put into `group` when one
    /// is given; nothing happens when completion is not running
    pub fn push_with_group(&mut self, group: &Option<String>, comps: &mut Vec<Comp>)
        requires
            old(self).wf(),
        ensures
            final(self).wf(),
            match old(self)@.comp {
                Some(c) => final(self)@ == (StateView {
                    comp: Some((c.0 + old(comps)@.map_values(|x: Comp| grouped_opt(x, *group)), c.1, c.2)),
                    ..old(self)@
                }) && final(comps)@.len() == 0,
                None => final(self)@ == old(self)@ && final(comps)@ == old(comps)@,
            },
    {
        if let Some(comp) = &mut self.comp {
            let mut taken: Vec<Comp> = Vec::new();
            std::mem::swap(&mut taken, comps);
            let ghost all = taken@;
            let mut out: Vec<Comp> = Vec::new();
            assert(out@ + taken@.map_values(|x: Comp| grouped_opt(x, *group)) =~= all.map_values(
                |x: Comp| grouped_opt(x, *group),
            ));
            while taken.len() > 0
                invariant
                    out@ + taken@.map_values(|x: Comp| grouped_opt(x, *group)) == all.map_values(
                        |x: Comp| grouped_opt(x, *group),
                    ),
                decreases taken.len(),
            {
                let ghost rest = taken@;
                let mut c = taken.remove(0);
                if let Some(g) = group {
                    c.set_group(g.clone());
                }
                assert(rest.map_values(|x: Comp| grouped_opt(x, *group)) =~= seq![c]
                    + taken@.map_values(|x: Comp| grouped_opt(x, *group)));
                let ghost before = out@;
                out.push(c);
                assert(out@ + taken@.map_values(|x: Comp| grouped_opt(x, *group)) =~= before + rest.map_values(
                    |x: Comp| grouped_opt(x, *group),
                ));
            }
            assert(out@ =~= all.map_values(|x: Comp| grouped_opt(x, *group)));
            comp.extend_comps(out);
        }
    }
}

} // verus!

verus! {

/// The OS string of a word.
pub open spec fn word_bytes(a: ArgView) -> Seq<u8> {
    match a {
        ArgView::Word(w) | ArgView::PosWord(w) => w,
        _ => Seq::empty(),
    }
}

/// The OS string a command name is read from: that of a word, a short flag or a long flag
/// without a value.
pub open spec fn cmd_bytes(a: ArgView) -> Option<Seq<u8>> {
    match a {
        ArgView::Word(w) => Some(w),
        ArgView::Short(_, _, w) => Some(w),
        ArgView::Long(_, false, w) => Some(w),
        _ => None,
    }
}

fn bytes_eq(a: &Vec<u8>, b: &Vec<u8>) -> (r: bool)
    ensures
        r == (a@ == b@),
{
    if a.len() != b.len() {
        return false;
    }
    let mut i: usize = 0;
    while i < a.len()
        invariant
            i <= a@.len(),
            a@.len() == b@.len(),
            forall|j: int| 0 <= j < i ==> a@[j] == b@[j],
        decreases a.len() - i,
    {
        if a[i] != b[i] {
            return false;
        }
        i = i + 1;
    }
    assert(a@ =~= b@);
    true
}

fn copy_vec(b: &Vec<u8>) -> (r: Vec<u8>)
    ensures
        r@ == b@,
{
    let r = crate::text::copy_bytes(b.as_slice(), 0, b.len());
    assert(b@.subrange(0, b@.len() as int) =~= b@);
    r
}

impl State {
    /// Position of the first present item of the scope that the name matches.
    fn find_named(&self, named: &NamedArg, adjacent: bool) -> (r: Option<usize>)
        requires
            self.wf(),
        ensures
            r == match first_in_scope(self@, self@.start, named_item(named@, adjacent)) {
                Some(i) => Some(i as usize),
                None => None,
            },
    {
        let ghost p = named_item(named@, adjacent);
        let mut ix = self.scope.start;
        while ix < self.scope.end
            invariant
                self.wf(),
                self.scope.start <= ix,
                p == named_item(named@, adjacent),
                first_in_scope(self@, self@.start, p) == first_in_scope(self@, ix as int, p),
            decreases self.scope.end - ix,
        {
            if self.item_state[ix].present() && named.matches_arg(&self.items[ix], adjacent) {
                return Some(ix);
            }
            ix = ix + 1;
        }
        None
    }

    /// Get a short or long flag: `-f` / `--flag`
    ///
    /// Returns false if value isn't present
    pub fn take_flag(&mut self, named: &NamedArg) -> (r: bool)
        requires
            old(self).wf(),
        ensures
            final(self).wf(),
            r == first_in_scope(old(self)@, old(self)@.start, named_item(named@, false)) is Some,
            final(self)@ == match first_in_scope(old(self)@, old(self)@.start, named_item(named@, false)) {
                Some(ix) => removed(old(self)@, ix),
                None => old(self)@,
            },
    {
        proof {
            lemma_first_in_scope(self@, self@.start, named_item(named@, false));
        }
        if let Some(ix) = self.find_named(named, false) {
            self.remove(ix);
            true
        } else {
            false
        }
    }

    /// get a short or long arguments
    ///
    /// Returns Ok(None) if flag isn't present
    /// Returns Err if flag is present but value is either missing or strange.
    pub fn take_arg(&mut self, named: &NamedArg, adjacent: bool, metavar: &'static str) -> (r: Result<
        Option<Vec<u8>>,
        Error,
    >)
        requires
            old(self).wf(),
        ensures
            final(self).wf(),
            match first_in_scope(old(self)@, old(self)@.start, named_item(named@, adjacent)) {
                None => r matches Ok(None) && final(self)@ == old(self)@,
                Some(key) => if in_scope(old(self)@, key + 1) && old(self)@.items[key + 1] is Word {
                    r matches Ok(Some(v)) && v@ == word_bytes(old(self)@.items[key + 1])
                        && final(self)@ == removed(removed(old(self)@, key), key + 1)
                } else {
                    r == Err::<Option<Vec<u8>>, Error>(Error(Message::NoArgument(key as usize, metavar)))
                        && final(self)@ == old(self)@
                },
            },
    {
        let key_ix = match self.find_named(named, adjacent) {
            Some(v) => v,
            None => {
                return Ok(None);
            },
        };
        proof {
            lemma_first_in_scope(self@, self@.start, named_item(named@, adjacent));
        }
        let val_ix = key_ix + 1;
        let val = match self.get(val_ix) {
            Some(Arg::Word(w)) => copy_vec(w),
            _ => {
                return Err(Error(Message::NoArgument(key_ix, metavar)));
            },
        };
        self.current = Some(val_ix);
        self.remove(key_ix);
        self.remove(val_ix);
        Ok(Some(val))
    }

    /// gets first positional argument present
    ///
    /// returns Err if there is none
    pub fn take_positional_word(&mut self, metavar: &'static str) -> (r: Result<
        (usize, bool, Vec<u8>),
        Error,
    >)
        requires
            old(self).wf(),
        ensures
            final(self).wf(),
            match first_in_scope(old(self)@, old(self)@.start, word_item()) {
                Some(ix) => r matches Ok((i, strict, w)) && i == ix && strict == (old(self)@.items[ix] is PosWord)
                    && w@ == word_bytes(old(self)@.items[ix])
                    && final(self)@ == removed(old(self)@, ix),
                None => r matches Err(Error(Message::Missing(v))) && v@.len() == 1
                    && v@[0].item == (crate::item::Item::Positional { metavar, strict: false })
                    && v@[0].position == old(self)@.start && v@[0].scope.start == old(self)@.start
                    && v@[0].scope.end == old(self)@.end && final(self)@ == old(self)@,
            },
    {
        let ghost p = word_item();
        let mut ix = self.scope.start;
        while ix < self.scope.end
            invariant
                self.wf(),
                *self == *old(self),
                self.scope.start <= ix,
                p == word_item(),
                first_in_scope(self@, self@.start, p) == first_in_scope(self@, ix as int, p),
            decreases self.scope.end - ix,
        {
            if self.item_state[ix].present() {
                let found = match &self.items[ix] {
                    Arg::Word(w) => Some((false, copy_vec(w))),
                    Arg::PosWord(w) => Some((true, copy_vec(w))),
                    _ => None,
                };
                if let Some((strict, w)) = found {
                    self.current = Some(ix);
                    self.remove(ix);
                    return Ok((ix, strict, w));
                }
            }
            ix = ix + 1;
        }
        let scope = Range { start: self.scope.start, end: self.scope.end };
        let missing = MissingItem {
            item: crate::item::Item::Positional { metavar, strict: false },
            position: scope.start,
            scope,
        };
        let mut v: Vec<MissingItem> = Vec::new();
        v.push(missing);
        Err(Error(Message::Missing(v)))
    }

    /// take a static string argument from the first present argument
    pub fn take_cmd(&mut self, word: &str) -> (r: bool)
        requires
            old(self).wf(),
        ensures
            final(self).wf(),
            match first_in_scope(old(self)@, old(self)@.start, any_arg()) {
                Some(ix) => if cmd_bytes(old(self)@.items[ix]) == Some(utf8_encode(word@)) {
                    r && final(self)@ == removed(old(self)@, ix)
                } else {
                    !r && final(self)@ == (StateView { current: None, ..old(self)@ })
                },
                None => !r && final(self)@ == (StateView { current: None, ..old(self)@ }),
            },
    {
        if let Some(ix) = self.find_from(self.scope.start) {
            proof {
                lemma_first_in_scope(self@, self@.start, any_arg());
            }
            let w = match &self.items[ix] {
                Arg::Word(w) => Some(copy_vec(w)),
                Arg::Short(_, _, w) => Some(copy_vec(w)),
                Arg::Long(_, false, w) => Some(copy_vec(w)),
                _ => None,
            };
            if let Some(w) = w {
                let wb = str_bytes(word);
                if bytes_eq(&w, &wb) {
                    self.remove(ix);
                    self.current = Some(ix);
                    return true;
                }
            }
        }
        self.current = None;
        false
    }

    /// The first present item of the scope
    pub fn peek(&self) -> (r: Option<&Arg>)
        requires
            self.wf(),
        ensures
            match first_in_scope(self@, self@.start, any_arg()) {
                Some(ix) => r matches Some(a) && a@ == self@.items[ix],
                None => r is None,
            },
    {
        match self.find_from(self.scope.start) {
            Some(ix) => {
                proof {
                    lemma_first_in_scope(self@, self@.start, any_arg());
                }
                Some(&self.items[ix])
            },
            None => None,
        }
    }
}

} // verus!

verus! {

/// The text completion reads from an item: the OS string it came from, when it is valid
/// UTF-8; short flags split off a block carry no OS string and give none.
pub open spec fn comp_word(a: ArgView) -> Option<Seq<char>> {
    match a {
        ArgView::Short(_, _, o) => if o.len() == 0 {
            None
        } else {
            crate::text::utf8_decode(o)
        },
        ArgView::Long(_, _, o) | ArgView::Word(o) | ArgView::PosWord(o) | ArgView::Ambiguity(_, o) => crate::text::utf8_decode(o),
    }
}

/// Items with their completion texts, the last item first.
pub open spec fn comp_words(items: Seq<ArgView>) -> Seq<(ArgView, Seq<char>)>
    decreases items.len(),
{
    if items.len() == 0 {
        Seq::empty()
    } else {
        let rest = comp_words(items.drop_last());
        match comp_word(items.last()) {
            Some(w) => seq![(items.last(), w)] + rest,
            None => rest,
        }
    }
}

/// Output revisions completion can render.
pub open spec fn known_rev(rev: usize) -> bool {
    rev == 0 || rev == 1 || rev == 7 || rev == 8 || rev == 9
}

/// What completion prints: the last item with a text is completed; the item before it tells
/// whether it is the value of a flag (`-k val`, `--key val`), which then prefixes the
/// suggestions, or follows `--`, where only positional items are suggested.
pub open spec fn check_complete_spec(v: StateView) -> Option<Seq<char>> {
    match v.comp {
        None => None,
        Some(c) => {
            let ws = comp_words(v.items);
            if ws.len() == 0 {
                None
            } else {
                let cur = ws[0].0;
                let lit = ws[0].1;
                let pre: Option<(ArgView, Seq<char>)> = if ws.len() > 1 {
                    Some(ws[1])
                } else {
                    None
                };
                let pos_only = pre matches Some((ArgView::PosWord(_), _));
                let full_lit = match pre {
                    Some((ArgView::Short(_, true, _), fl)) => fl,
                    Some((ArgView::Long(_, true, _), fl)) => fl,
                    _ => lit,
                };
                let is_named = cur is Short || cur is Long;
                let prefix = match pre {
                    Some((ArgView::Short(s, true, _), _)) => crate::complete_gen::PrefixView::Short(s),
                    Some((ArgView::Long(l, true, _), _)) => crate::complete_gen::PrefixView::Long(l),
                    _ => crate::complete_gen::PrefixView::NA,
                };
                let st = crate::complete_gen::spec_complete(c.0, lit, pos_only, is_named, prefix);
                Some(
                    if c.1 == 0 {
                        crate::complete_shell::test_output(st.items, st.shell, full_lit)
                    } else if c.1 == 1 {
                        crate::complete_shell::simple_output(st.items)
                    } else if c.1 == 7 {
                        crate::complete_shell::zsh_output(st.items, st.shell, full_lit)
                    } else if c.1 == 8 {
                        crate::complete_shell::bash_output(st.items, st.shell, full_lit)
                    } else {
                        crate::complete_shell::fish_output(st.items, st.shell, full_lit)
                    },
                )
            }
        },
    }
}

/// The completion text of an item.
fn comp_word_exec(a: &Arg) -> (r: Option<String>)
    ensures
        opt_chars(r) == comp_word(a@),
{
    match a {
        Arg::Short(_, _, o) => if o.len() == 0 {
            None
        } else {
            crate::text::bytes_str(o.as_slice())
        },
        Arg::Long(_, _, o) | Arg::Word(o) | Arg::PosWord(o) | Arg::Ambiguity(_, o) => crate::text::bytes_str(o.as_slice()),
    }
}

impl State {
    /// Generate completion from collected heads
    ///
    /// before calling this method the parser runs in "complete" mode and collects live heads
    /// inside the completion state, this part goes over collected heads and generates
    /// possible completions from that
    pub fn check_complete(&self) -> (r: Option<String>)
        requires
            self.wf(),
            self@.comp matches Some(c) ==> known_rev(c.1) && (c.1 == 9 ==> self@.path.len() > 0),
        ensures
            opt_chars(r) == check_complete_spec(self@),
    {
        let comp = match &self.comp {
            Some(c) => c,
            None => {
                return None;
            },
        };
        let ghost items = args_view(self.items@);
        // items with a text, the last one first: the current item and the one before it
        let mut found: Vec<(usize, String)> = Vec::new();
        let mut ix = self.items.len();
        assert(items.take(ix as int) =~= items);
        while ix > 0 && found.len() < 2
            invariant
                ix <= self.items@.len(),
                items == args_view(self.items@),
                found@.len() <= 2,
                found@.map_values(|f: (usize, String)| (items[f.0 as int], f.1@)) + comp_words(items.take(ix as int))
                    == comp_words(items),
                forall|j: int| 0 <= j < found@.len() ==> found@[j].0 < self.items@.len(),
            decreases ix,
        {
            ix = ix - 1;
            let ghost f0 = found@;
            assert(items.take(ix + 1).drop_last() =~= items.take(ix as int));
            assert(items.take(ix + 1).last() == items[ix as int]);
            if let Some(w) = comp_word_exec(&self.items[ix]) {
                found.push((ix, w));
                assert(found@.map_values(|f: (usize, String)| (items[f.0 as int], f.1@)) =~= f0.map_values(
                    |f: (usize, String)| (items[f.0 as int], f.1@),
                ).push((items[ix as int], comp_word(items[ix as int])->0)));
            }
        }
        let ghost ws = comp_words(items);
        let ghost fv = found@.map_values(|f: (usize, String)| (items[f.0 as int], f.1@));
        assert(fv.len() == found@.len());
        if found.len() == 0 {
            proof {
                if ix > 0 {
                    assert(false);
                }
                assert(items.take(0) =~= Seq::<ArgView>::empty());
            }
            return None;
        }
        assert(ws[0] == fv[0]);
        let cur_ix = found[0].0;
        let lit = found[0].1.clone();
        let cur = &self.items[cur_ix];
        let pre: Option<usize> = if found.len() > 1 {
            assert(ws[1] == fv[1]);
            Some(found[1].0)
        } else {
            proof {
                if ix > 0 {
                    assert(false);
                }
                assert(items.take(0) =~= Seq::<ArgView>::empty());
                assert(ws =~= fv);
            }
            None
        };
        let (pos_only, full_lit) = match pre {
            Some(p) => match &self.items[p] {
                Arg::Short(_, true, _) | Arg::Long(_, true, _) => (false, found[1].1.clone()),
                Arg::PosWord(_) => (true, lit.clone()),
                _ => (false, lit.clone()),
            },
            None => (false, lit.clone()),
        };
        let is_named = match cur {
            Arg::Short(_, _, _) | Arg::Long(_, _, _) => true,
            _ => false,
        };
        let prefix = match pre {
            Some(p) => match &self.items[p] {
                Arg::Short(s, true, _) => crate::complete_gen::Prefix::Short(*s),
                Arg::Long(l, true, _) => crate::complete_gen::Prefix::Long(l.clone()),
                _ => crate::complete_gen::Prefix::NA,
            },
            None => crate::complete_gen::Prefix::NA,
        };
        let (items_c, shell) = comp.complete(lit.as_str(), pos_only, is_named, &prefix);
        assert(crate::complete_shell::views(items_c@) =~= items_c@.map_values(|s: crate::complete_gen::ShowComp| s@));
        let rev = comp.revision();
        let out = if rev == 0 {
            crate::complete_shell::render_test(&items_c, &shell, full_lit.as_str())
        } else if rev == 1 {
            crate::complete_shell::render_simple(&items_c)
        } else if rev == 7 {
            crate::complete_shell::render_zsh(&items_c, &shell, full_lit.as_str())
        } else if rev == 8 {
            crate::complete_shell::render_bash(&items_c, &shell, full_lit.as_str())
        } else {
            crate::complete_shell::render_fish(&items_c, &shell, full_lit.as_str(), self.path[0].as_str())
        };
        Some(out)
    }
}

} // verus!

verus! {

/// The text a help message shows next to a completion: the leading text of its first line.
pub open spec fn help_text(help: Option<crate::buffer::Doc>) -> Option<Seq<char>> {
    match help {
        Some(d) => if d.tokens().len() == 0 {
            None
        } else {
            Some(
                d.payload().take(
                    crate::buffer::text_len(
                        d.tokens().take(crate::buffer::leading_text(d.tokens()) as int),
                    ) as int,
                ),
            )
        },
        None => None,
    }
}

fn help_completion(help: &Option<crate::buffer::Doc>) -> (r: Option<String>)
    requires
        help matches Some(d) ==> d.wf(),
    ensures
        crate::complete_gen::opt_view(r) == help_text(*help),
{
    match help {
        Some(d) => d.to_completion(),
        None => None,
    }
}

/// The hint put into `group` when one is given.
pub open spec fn grouped_opt(c: Comp, group: Option<String>) -> Comp {
    match group {
        Some(g) => with_group(c, g),
        None => c,
    }
}

impl State {
    /// Clear collected completions if enabled
    pub fn clear_comps(&mut self)
        requires
            old(self).wf(),
        ensures
            final(self).wf(),
            final(self)@ == (StateView {
                comp: match old(self)@.comp {
                    Some(c) => Some((Seq::<Comp>::empty(), c.1, c.2)),
                    None => None,
                },
                ..old(self)@
            }),
    {
        if let Some(comp) = &mut self.comp {
            let _ = comp.drain_comps();
        }
    }

    /// Insert a literal value with some description for completion
    ///
    /// In practice it's "--"
    pub fn push_pos_sep(&mut self)
        requires
            old(self).wf(),
        ensures
            final(self).wf(),
            final(self)@ == (StateView { comp: final(self)@.comp, ..old(self)@ }),
            match old(self)@.comp {
                Some(v) => final(self)@.comp matches Some(w) && w.1 == v.1 && w.2 == v.2
                    && w.0.len() == v.0.len() + 1 && w.0.take(v.0.len() as int) == v.0
                    && (w.0.last() matches Comp::Value { extra, body, is_argument }
                    && extra@ == (crate::complete_gen::ExtraView {
                        depth: old(self)@.path.len(),
                        group: None,
                        help: Some("Positional only items after this token"@),
                    }) && body@ == "--"@ && !is_argument),
                None => final(self)@.comp is None,
            },
    {
        let depth = self.path.len();
        if let Some(comp) = &mut self.comp {
            let body = crate::text::chars_string(&str_chars("--"));
            let help = crate::text::chars_string(&str_chars("Positional only items after this token"));
            comp.push_value(body, Some(help), None, depth, false);
            assert(comp.comps().take(comp.comps().len() - 1) =~= old(self).comp->0.comps());
        }
    }

    /// Add a new completion hint for command, if needed
    pub fn push_command(&mut self, name: &'static str, short: Option<char>, help: &Option<crate::buffer::Doc>)
        requires
            old(self).wf(),
            help matches Some(d) ==> d.wf(),
        ensures
            final(self).wf(),
            final(self)@ == (StateView { comp: final(self)@.comp, ..old(self)@ }),
            match old(self)@.comp {
                Some(v) => final(self)@.comp matches Some(w) && w.1 == v.1 && w.2 == v.2
                    && w.0.len() == v.0.len() + 1 && w.0.take(v.0.len() as int) == v.0
                    && (w.0.last() matches Comp::Command { extra, name: n, short: s } && n@ == name@
                    && s == short && extra@ == (crate::complete_gen::ExtraView {
                        depth: old(self)@.path.len(),
                        group: None,
                        help: help_text(*help),
                    })),
                None => final(self)@.comp is None,
            },
    {
        let depth = self.path.len();
        if let Some(comp) = &mut self.comp {
            let extra = crate::complete_gen::CompExtra { depth, group: None, help: help_completion(help) };
            let c = Comp::Command { extra, name: crate::text::chars_string(&str_chars(name)), short };
            let ghost cv = c;
            comp.push_comp(c);
            assert(comp.comps().take(comp.comps().len() - 1) =~= old(self).comp->0.comps());
            assert(comp.comps().last() == cv);
        }
    }

    /// Add a new completion hint for metadata, if needed
    ///
    /// `is_argument` is set to true when we are trying to parse the value and false if
    /// when meta
    pub fn push_metavar(&mut self, meta: &'static str, help: &Option<crate::buffer::Doc>, is_argument: bool)
        requires
            old(self).wf(),
            help matches Some(d) ==> d.wf(),
        ensures
            final(self).wf(),
            final(self)@ == (StateView { comp: final(self)@.comp, ..old(self)@ }),
            match old(self)@.comp {
                Some(v) => final(self)@.comp matches Some(w) && w.1 == v.1 && w.2 == v.2
                    && w.0.len() == v.0.len() + 1 && w.0.take(v.0.len() as int) == v.0
                    && (w.0.last() matches Comp::Metavariable { extra, meta: m, is_argument: a } && m@ == meta@
                    && a == is_argument && extra@ == (crate::complete_gen::ExtraView {
                        depth: old(self)@.path.len(),
                        group: None,
                        help: help_text(*help),
                    })),
                None => final(self)@.comp is None,
            },
    {
        let depth = self.path.len();
        if let Some(comp) = &mut self.comp {
            let extra = crate::complete_gen::CompExtra { depth, group: None, help: help_completion(help) };
            let c = Comp::Metavariable { extra, meta: crate::text::chars_string(&str_chars(meta)), is_argument };
            let ghost cv = c;
            comp.push_comp(c);
            assert(comp.comps().take(comp.comps().len() - 1) =~= old(self).comp->0.comps());
            assert(comp.comps().last() == cv);
        }
    }
}

} // verus!

verus! {

/// Consuming an item twice is consuming it once: a consumed item is no longer present.
pub proof fn law_remove_idempotent(v: StateView, i: int)
    requires
        0 <= i < v.states.len(),
    ensures
        removed(removed(v, i), i) == removed(v, i),
{
}

/// Consuming a present item of the scope leaves one item less in the scope; consuming
/// anything else changes nothing.
pub proof fn law_remove_count(v: StateView, i: int)
    requires
        0 <= v.start <= v.end <= v.states.len(),
        0 <= i < v.states.len(),
    ensures
        count_present(removed(v, i).states, v.start, v.end) + (if in_scope(v, i) {
            1nat
        } else {
            0nat
        }) == count_present(v.states, v.start, v.end),
{
    if in_scope(v, i) {
        lemma_count_update(v.states, v.start, v.end, i, ItemState::Parsed);
    }
}

/// After `--` every item is strictly positional, `--` included, and only positional items
/// follow once `--` was seen.
pub proof fn law_positional_after_double_dash(
    oss: Seq<Seq<u8>>,
    flags: Seq<char>,
    args: Seq<char>,
    name: Option<Seq<char>>,
    rev: Option<usize>,
)
    ensures
        scan_all(oss, flags, args, name, rev).pos_only <==> scan_all(oss, flags, args, name, rev).double_dash is Some,
        scan_all(oss, flags, args, name, rev).double_dash matches Some(ix) ==> ix < scan_all(oss, flags, args, name, rev).items.len()
            && forall|j: int| ix <= j < scan_all(oss, flags, args, name, rev).items.len()
                ==> #[trigger] scan_all(oss, flags, args, name, rev).items[j] is PosWord,
    decreases oss.len(),
{
    if oss.len() > 0 {
        law_positional_after_double_dash(oss.drop_last(), flags, args, name, rev);
        let s = scan_all(oss.drop_last(), flags, args, name, rev);
        let t = scan_all(oss, flags, args, name, rev);
        if !scan_stopped(s) && !s.pos_only {
            let (sc, r) = scan_spec(s.revision, name, oss.last());
            if sc is Kept {
                match split_spec(oss.last()) {
                    Some((ArgType::Short, short, None)) => {
                        assert(t.double_dash is None);
                    },
                    _ => {},
                }
            }
        }
    }
}

} // verus!

verus! {

impl State {
    /// The item at a position
    pub fn item_at(&self, ix: usize) -> (r: &Arg)
        requires
            self.wf(),
            ix < self@.items.len(),
        ensures
            r@ == self@.items[ix as int],
    {
        &self.items[ix]
    }

    /// Number of items
    pub fn item_count(&self) -> (r: usize)
        requires
            self.wf(),
        ensures
            r == self@.items.len(),
    {
        self.items.len()
    }

    /// Name of the outermost command, if the program has one
    pub fn first_path(&self) -> (r: Option<&String>)
        ensures
            match r {
                Some(s) => self@.path.len() > 0 && s@ == self@.path[0],
                None => self@.path.len() == 0,
            },
    {
        if self.path.len() > 0 {
            Some(&self.path[0])
        } else {
            None
        }
    }
}

} // verus!
