//! How a parse error becomes the message shown to the user: a better message is picked for a
//! few cases, then the message is written as a document with the offending items marked.

use crate::arg::{arg_text, Arg, ArgView};
use crate::args::{any_arg, first_in_scope, is_present, State, StateView};
use crate::buffer::{styled, Block, Doc, Style, Token};
use crate::complete_gen::{preferred_name, spec_preferred_name, ShortLong};
use crate::error::{Error, Message, MissingItem, ParseFailure, Suggestion, Variant};
use crate::item::Item;
use std::ops::Range;
use crate::text::{bytes_str, lossy_utf8, utf8_decode, utf8_lossy};
use vstd::prelude::*;

verus! {

/// A piece of a document: text in a style, or a block boundary
pub enum Piece {
    Text(Seq<char>, Style),
    Tok(Token),
}

/// The text and the tokens of a document written piece by piece.
pub open spec fn doc_of(ps: Seq<Piece>) -> (Seq<char>, Seq<Token>)
    decreases ps.len(),
{
    if ps.len() == 0 {
        (Seq::empty(), Seq::empty())
    } else {
        let d = doc_of(ps.drop_last());
        match ps.last() {
            Piece::Text(s, st) => (d.0 + s, styled(d.1, s.len(), st)),
            Piece::Tok(t) => (d.0, d.1.push(t)),
        }
    }
}

/// Writing more pieces never shortens the text.
pub proof fn lemma_doc_prefix(ps: Seq<Piece>, k: int)
    requires
        0 <= k <= ps.len(),
    ensures
        doc_of(ps.take(k)).0.len() <= doc_of(ps).0.len(),
    decreases ps.len() - k,
{
    if k < ps.len() {
        lemma_doc_prefix(ps, k + 1);
        assert(ps.take(k + 1).drop_last() =~= ps.take(k));
    } else {
        assert(ps.take(k) =~= ps);
    }
}

/// Plain text
pub open spec fn tx(s: Seq<char>) -> Piece {
    Piece::Text(s, Style::Text)
}

/// Text to type literally
pub open spec fn lit(s: Seq<char>) -> Piece {
    Piece::Text(s, Style::Literal)
}

/// Invalid input
pub open spec fn inv(s: Seq<char>) -> Piece {
    Piece::Text(s, Style::Invalid)
}

/// A metavariable
pub open spec fn mvar(s: Seq<char>) -> Piece {
    Piece::Text(s, Style::Metavar)
}

/// Start of a reference to a term
pub open spec fn open_ref() -> Piece {
    Piece::Tok(Token::BlockStart(Block::TermRef))
}

/// End of a reference to a term
pub open spec fn close_ref() -> Piece {
    Piece::Tok(Token::BlockEnd(Block::TermRef))
}

fn put_text(doc: &mut Doc, s: &str, style: Style, Ghost(f): Ghost<Seq<Piece>>, Ghost(k): Ghost<int>)
    requires
        old(doc).wf(),
        0 <= k < f.len(),
        f[k] == Piece::Text(s@, style),
        (old(doc).payload(), old(doc).tokens()) == doc_of(f.take(k)),
        doc_of(f).0.len() <= usize::MAX,
    ensures
        final(doc).wf(),
        (final(doc).payload(), final(doc).tokens()) == doc_of(f.take(k + 1)),
{
    proof {
        lemma_doc_prefix(f, k + 1);
        assert(f.take(k + 1).drop_last() =~= f.take(k));
    }
    doc.write_str(s, style);
}

fn put_char(doc: &mut Doc, c: char, style: Style, Ghost(f): Ghost<Seq<Piece>>, Ghost(k): Ghost<int>)
    requires
        old(doc).wf(),
        0 <= k < f.len(),
        f[k] == Piece::Text(seq![c], style),
        (old(doc).payload(), old(doc).tokens()) == doc_of(f.take(k)),
        doc_of(f).0.len() <= usize::MAX,
    ensures
        final(doc).wf(),
        (final(doc).payload(), final(doc).tokens()) == doc_of(f.take(k + 1)),
{
    proof {
        lemma_doc_prefix(f, k + 1);
        assert(f.take(k + 1).drop_last() =~= f.take(k));
        assert(old(doc).payload().push(c) =~= old(doc).payload() + seq![c]);
    }
    doc.write_char(c, style);
}

fn put_tok(doc: &mut Doc, t: Token, Ghost(f): Ghost<Seq<Piece>>, Ghost(k): Ghost<int>)
    requires
        old(doc).wf(),
        0 <= k < f.len(),
        f[k] == Piece::Tok(t),
        !(t is Text),
        (old(doc).payload(), old(doc).tokens()) == doc_of(f.take(k)),
    ensures
        final(doc).wf(),
        (final(doc).payload(), final(doc).tokens()) == doc_of(f.take(k + 1)),
{
    proof {
        assert(f.take(k + 1).drop_last() =~= f.take(k));
    }
    doc.token(t);
}

/// The first present item of the scope, when it lost a conflict: its position and that of
/// the item that won.
pub open spec fn conflict_of(v: StateView) -> Option<(usize, usize)> {
    match first_in_scope(v, v.start, any_arg()) {
        Some(ix) => match v.states[ix] {
            crate::args::ItemState::Conflict(other) => Some((ix as usize, other)),
            _ => None,
        },
        None => None,
    }
}

/// Nearest position before `j` of a short flag with the name `c`.
pub open spec fn last_short_before(items: Seq<ArgView>, j: int, c: char) -> Option<int>
    decreases j,
{
    if j <= 0 {
        None
    } else if items[j - 1] matches ArgView::Short(s, _, _) && s == c {
        Some(j - 1)
    } else {
        last_short_before(items, j - 1, c)
    }
}

/// Nearest position before `j` of a long flag with the name `l`.
pub open spec fn last_long_before(items: Seq<ArgView>, j: int, l: Seq<char>) -> Option<int>
    decreases j,
{
    if j <= 0 {
        None
    } else if items[j - 1] matches ArgView::Long(s, _, _) && s == l {
        Some(j - 1)
    } else {
        last_long_before(items, j - 1, l)
    }
}

/// Where a flag that is not expected was given before, if it is a flag.
pub open spec fn only_once_spec(items: Seq<ArgView>, cur: int) -> Option<int> {
    if cur == 0 || cur >= items.len() {
        None
    } else {
        match items[cur] {
            ArgView::Short(s, _, _) => last_short_before(items, cur, s),
            ArgView::Long(l, _, _) => last_long_before(items, cur, l),
            _ => None,
        }
    }
}

/// Message used when missing items are all hidden
pub const HIDDEN: &'static str = "parser requires an extra flag, argument or parameter, but its name is hidden by the author";

/// A better message for an item that is not expected: the loser of a conflict, a flag given
/// twice, or the fix the did-you-mean search found.
pub open spec fn improved(m: Message, v: StateView, sugg: Option<(usize, Suggestion)>) -> Message {
    match m {
        Message::Unconsumed(ix) => match conflict_of(v) {
            Some((loser, winner)) => Message::Conflict(winner, loser),
            None => match only_once_spec(v.items, ix as int) {
                Some(prev) => Message::OnlyOnce(prev as usize, ix),
                None => match sugg {
                    Some((j, s)) => Message::Suggestion(j, s),
                    None => m,
                },
            },
        },
        _ => m,
    }
}

/// The text of a word at a position, invalid UTF-8 replaced.
pub open spec fn textual(v: StateView, mix: Option<usize>) -> Option<Seq<char>> {
    match mix {
        Some(ix) => if ix < v.items.len() {
            match v.items[ix as int] {
                ArgView::Short(_, _, _) | ArgView::Long(_, _, _) => None,
                ArgView::Word(s) | ArgView::PosWord(s) | ArgView::Ambiguity(_, s) => Some(lossy_utf8(s)),
            }
        } else {
            None
        },
        None => None,
    }
}

/// The OS string of a flag that stands where a value was expected.
pub open spec fn flag_after(v: StateView, x: int) -> Option<Seq<u8>> {
    if crate::args::in_scope(v, x + 1) {
        match v.items[x + 1] {
            ArgView::Short(_, _, os) | ArgView::Long(_, _, os) => Some(os),
            _ => None,
        }
    } else {
        None
    }
}

/// The OS string an item comes from.
pub open spec fn item_os(a: ArgView) -> Seq<u8> {
    match a {
        ArgView::Short(_, _, os) | ArgView::Long(_, _, os) | ArgView::Word(os) | ArgView::PosWord(os) | ArgView::Ambiguity(_, os) => os,
    }
}

/// Pieces of the sentence explaining an ambiguous block of short names, after its lead.
pub open spec fn ambiguity_tail(n: Seq<char>, s: Seq<char>) -> Seq<Piece> {
    seq![
        open_ref(),
        lit("-"@),
        lit(seq![n[0]]),
        close_ref(),
        tx(" as both an option and an option-argument, try to split "@),
        open_ref(),
        lit(s),
        close_ref(),
        tx(" into individual options ("@),
        lit("-"@),
        lit(seq![n[0]]),
        lit(" -"@),
        lit(seq![n[1]]),
        lit(" .."@),
        tx(") or use "@),
        open_ref(),
        lit("-"@),
        lit(seq![n[0]]),
        lit("="@),
        lit(n.skip(1)),
        close_ref(),
        tx(" syntax to disambiguate"@),
    ]
}

/// An item named as the user would type it.
pub open spec fn item_pieces(i: Item) -> Seq<Piece> {
    match i {
        Item::Positional { metavar, strict } => if strict {
            seq![lit("-- "@), mvar(metavar@)]
        } else {
            seq![mvar(metavar@)]
        },
        Item::Command { .. } => seq![mvar("COMMAND ..."@)],
        Item::Flag { name } => seq![lit(spec_preferred_name(name))],
        Item::Argument { name, metavar } => seq![lit(spec_preferred_name(name)), tx("="@), mvar(metavar@)],
    }
}

/// An item as a reference to a term.
pub open spec fn ref_item(i: Item) -> Seq<Piece> {
    seq![open_ref()] + item_pieces(i) + seq![close_ref()]
}

/// What a parser expected, what it got, and where to look for help.
pub open spec fn expected_pieces(exp: Seq<Item>, actual: Option<usize>, v: StateView) -> Seq<Piece> {
    let list = if exp.len() == 0 {
        seq![tx("no arguments"@)]
    } else if exp.len() == 1 {
        ref_item(exp[0])
    } else if exp.len() == 2 {
        ref_item(exp[0]) + seq![tx(" or "@)] + ref_item(exp[1])
    } else {
        ref_item(exp[0]) + seq![tx(", "@)] + ref_item(exp[1]) + seq![tx(", or more"@)]
    };
    let got = match actual {
        Some(a) => seq![
            tx(", got "@),
            open_ref(),
            inv(arg_text(v.items[a as int])),
            close_ref(),
            tx(". Pass "@),
        ],
        None => seq![tx(", pass "@)],
    };
    seq![tx("expected "@)] + list + got + seq![
        open_ref(),
        lit("--help"@),
        close_ref(),
        tx(" for usage information"@),
    ]
}

/// A name a mistyped item could have meant.
pub open spec fn variant_pieces(x: Variant) -> Seq<Piece> {
    match x {
        Variant::CommandLong(n) => seq![lit(n@)],
        Variant::Flag(ShortLong::Short(s)) => seq![lit("-"@), lit(seq![s])],
        Variant::Flag(ShortLong::Long(l)) => seq![lit("--"@), lit(l@)],
        Variant::Flag(ShortLong::Both(_, l)) => seq![lit("--"@), lit(l@)],
    }
}

/// What kind of item the user typed, for a suggestion.
pub open spec fn typed_kind(a: ArgView, actual: Seq<char>) -> Seq<char> {
    if actual.len() > 0 && actual[0] == '-' {
        "flag"@
    } else {
        match a {
            ArgView::Word(_) | ArgView::PosWord(_) => "command or positional"@,
            _ => "flag"@,
        }
    }
}

/// A fix offered for the item at `ix`.
pub open spec fn suggestion_pieces(ix: usize, s: Suggestion, v: StateView) -> Seq<Piece> {
    let actual = arg_text(v.items[ix as int]);
    match s {
        Suggestion::Variant(x) => seq![
            tx("no such "@),
            tx(typed_kind(v.items[ix as int], actual)),
            tx(": "@),
            open_ref(),
            inv(actual),
            close_ref(),
            tx(", did you mean "@),
            open_ref(),
        ] + variant_pieces(x) + seq![close_ref(), tx("?"@)],
        Suggestion::MissingDash(name) => seq![
            tx("no such flag: "@),
            open_ref(),
            lit("-"@),
            lit(name@),
            close_ref(),
            tx(" (with one dash), did you mean "@),
            open_ref(),
            lit("--"@),
            lit(name@),
            close_ref(),
            tx("?"@),
        ],
        Suggestion::ExtraDash(c) => seq![
            tx("no such flag: "@),
            open_ref(),
            lit("--"@),
            lit(seq![c]),
            close_ref(),
            tx(" (with two dashes), did you mean "@),
            open_ref(),
            lit("-"@),
            lit(seq![c]),
            close_ref(),
            tx("?"@),
        ],
        Suggestion::Nested(cmd, x) => seq![
            tx(if x is CommandLong { "subcommand"@ } else { "flag"@ }),
            tx(" "@),
            open_ref(),
            lit(actual),
            close_ref(),
            tx(" is not valid in this context, did you mean to pass it to command "@),
            open_ref(),
            lit(cmd@),
            close_ref(),
            tx("?"@),
        ],
    }
}

/// Whether the first key, position then scope start, is at least the second.
pub open spec fn key_ge(a: MissingItem, b: MissingItem) -> bool {
    a.position > b.position || (a.position == b.position && a.scope.start >= b.scope.start)
}

/// Among the first `n` missing items, the last one with the largest key.
pub open spec fn best_upto(xs: Seq<MissingItem>, n: nat) -> int
    decreases n,
{
    if n <= 1 {
        0
    } else {
        let b = best_upto(xs, (n - 1) as nat);
        if key_ge(xs[n - 1], xs[b]) {
            n - 1
        } else {
            b
        }
    }
}

/// Items of the first `n` missing items searched in `scope`, subcommands after the first
/// one left out; and whether a subcommand was kept.
pub open spec fn pick(xs: Seq<MissingItem>, scope: Range<usize>, n: nat) -> (Seq<Item>, bool)
    decreases n,
{
    if n == 0 {
        (Seq::empty(), false)
    } else {
        let (p, saw) = pick(xs, scope, (n - 1) as nat);
        let it = xs[n - 1];
        let cmd = it.item is Command;
        if it.scope == scope && !(saw && cmd) {
            (p.push(it.item), saw || cmd)
        } else {
            (p, saw)
        }
    }
}

/// The first position from `lo` to before `hi` with a present item.
pub open spec fn first_present(states: Seq<crate::args::ItemState>, lo: int, hi: int) -> Option<int>
    decreases hi - lo,
{
    if lo >= hi || lo < 0 || lo >= states.len() {
        None
    } else if is_present(states[lo]) {
        Some(lo)
    } else {
        first_present(states, lo + 1, hi)
    }
}

/// The first present position is a present item of the range.
pub proof fn lemma_first_present(states: Seq<crate::args::ItemState>, lo: int, hi: int)
    ensures
        first_present(states, lo, hi) matches Some(i) ==> lo <= i < hi && 0 <= i < states.len()
            && is_present(states[i]),
    decreases hi - lo,
{
    if !(lo >= hi || lo < 0 || lo >= states.len()) && !is_present(states[lo]) {
        lemma_first_present(states, lo + 1, hi);
    }
}

/// What missing items turn into
pub enum MissingOutcome {
    /// Every missing item is hidden
    Hidden,
    /// A fix for the item at the position
    Suggest(usize, Suggestion),
    /// The items expected, and the item found instead if any
    Expect(Seq<Item>, Option<usize>),
}

/// Missing items are reported for the scope of the one that is missing furthest right (the
/// last of those when several are): the items expected there, and the first present item
/// from where it is missing, unless the did-you-mean search found a fix for it.
pub open spec fn missing_outcome(xs: Seq<MissingItem>, v: StateView, sugg: Option<(usize, Suggestion)>) -> MissingOutcome {
    if xs.len() == 0 {
        MissingOutcome::Hidden
    } else {
        let b = best_upto(xs, xs.len());
        let sc = xs[b].scope;
        let exp = pick(xs, sc, xs.len()).0;
        let lo = if xs[b].position > sc.start { xs[b].position } else { sc.start };
        match first_present(v.states, lo as int, sc.end as int) {
            Some(ix) => match sugg {
                Some((j, s)) => MissingOutcome::Suggest(j, s),
                None => MissingOutcome::Expect(exp, Some(ix as usize)),
            },
            None => MissingOutcome::Expect(exp, None),
        }
    }
}

/// The document explaining missing items.
pub open spec fn missing_pieces(xs: Seq<MissingItem>, v: StateView, sugg: Option<(usize, Suggestion)>) -> Seq<Piece> {
    match missing_outcome(xs, v, sugg) {
        MissingOutcome::Hidden => seq![tx(HIDDEN@)],
        MissingOutcome::Suggest(j, s) => suggestion_pieces(j, s, v),
        MissingOutcome::Expect(e, a) => expected_pieces(e, a, v),
    }
}

/// The document explaining a message.
pub open spec fn message_pieces(m: Message, v: StateView) -> Seq<Piece> {
    match m {
        Message::Unconsumed(ix) => seq![
            open_ref(),
            inv(arg_text(v.items[ix as int])),
            close_ref(),
            tx(" is not expected in this context"@),
        ],
        Message::NoEnv(name) => seq![
            tx("environment variable "@),
            open_ref(),
            inv(name@),
            close_ref(),
            tx(" is not set"@),
        ],
        Message::StrictPos(_, metavar) => seq![
            tx("expected "@),
            open_ref(),
            mvar(metavar@),
            close_ref(),
            tx(" to be on the right side of "@),
            open_ref(),
            lit("--"@),
            close_ref(),
        ],
        Message::NonStrictPos(_, metavar) => seq![
            tx("expected "@),
            open_ref(),
            mvar(metavar@),
            close_ref(),
            tx(" to be on the left side of "@),
            open_ref(),
            lit("--"@),
            close_ref(),
        ],
        Message::ParseSome(s) | Message::ParseFail(s) => seq![tx(s@)],
        Message::ParseFailed(mix, s) => match textual(v, mix) {
            Some(f) => seq![
                tx("couldn't parse"@),
                tx(" "@),
                open_ref(),
                inv(f),
                close_ref(),
                tx(": "@),
                tx(s@),
            ],
            None => seq![tx("couldn't parse"@), tx(": "@), tx(s@)],
        },
        Message::GuardFailed(mix, s) => match textual(v, mix) {
            Some(f) => seq![open_ref(), inv(f), close_ref(), tx(": "@), tx(s@)],
            None => seq![tx("check failed: "@), tx(s@)],
        },
        Message::NoArgument(x, metavar) => {
            let arg = arg_text(v.items[x as int]);
            match flag_after(v, x as int) {
                Some(os) => seq![
                    open_ref(),
                    lit(arg),
                    close_ref(),
                    tx(" requires an argument "@),
                    open_ref(),
                    mvar(metavar@),
                    close_ref(),
                    tx(", got a flag "@),
                    open_ref(),
                    inv(lossy_utf8(os)),
                    close_ref(),
                    tx(", try "@),
                    open_ref(),
                    lit(arg),
                    lit("="@),
                    lit(lossy_utf8(os)),
                    close_ref(),
                    tx(" to use it as an argument"@),
                ],
                None => seq![
                    open_ref(),
                    lit(arg),
                    close_ref(),
                    tx(" requires an argument "@),
                    open_ref(),
                    mvar(metavar@),
                    close_ref(),
                ],
            }
        },
        Message::PureFailed(s) => seq![tx(s@)],
        Message::Ambiguity(ix, name) => {
            let s = utf8_decode(item_os(v.items[ix as int]))->0;
            if v.path.len() > 0 {
                seq![lit(v.path[0]), tx(" supports "@)] + ambiguity_tail(name@, s)
            } else {
                seq![tx("app supports "@)] + ambiguity_tail(name@, s)
            }
        },
        Message::Conflict(winner, loser) => seq![
            open_ref(),
            lit(arg_text(v.items[loser as int])),
            close_ref(),
            tx(" cannot be used at the same time as "@),
            open_ref(),
            lit(arg_text(v.items[winner as int])),
            close_ref(),
        ],
        Message::OnlyOnce(_, loser) => seq![
            tx("argument "@),
            open_ref(),
            lit(arg_text(v.items[loser as int])),
            close_ref(),
            tx(" cannot be used multiple times in this context"@),
        ],
        Message::Suggestion(ix, s) => suggestion_pieces(ix, s, v),
        Message::Expected(exp, actual) => expected_pieces(exp@, actual, v),
        Message::Missing(_) | Message::ParseFailure(_) => Seq::empty(),
    }
}

/// The positions a message points at are items, and a block of short names has two of them
/// and its item is valid UTF-8.
pub open spec fn renderable(m: Message, v: StateView) -> bool {
    match m {
        Message::Unconsumed(ix) => ix < v.items.len(),
        Message::NoArgument(x, _) => x < v.items.len(),
        Message::Ambiguity(ix, name) => ix < v.items.len() && name@.len() >= 2 && utf8_decode(
            item_os(v.items[ix as int]),
        ) is Some,
        Message::Conflict(w, l) => w < v.items.len() && l < v.items.len(),
        Message::OnlyOnce(_, l) => l < v.items.len(),
        Message::Suggestion(ix, _) => ix < v.items.len(),
        Message::Expected(_, a) => a matches Some(ix) ==> ix < v.items.len(),
        _ => true,
    }
}

fn only_once(args: &State, cur: usize) -> (r: Option<usize>)
    requires
        args.wf(),
        cur < args@.items.len(),
    ensures
        r == match only_once_spec(args@.items, cur as int) {
            Some(p) => Some(p as usize),
            None => None,
        },
{
    if cur == 0 {
        return None;
    }
    let a = args.item_at(cur);
    let mut j = cur;
    while j > 0
        invariant
            args.wf(),
            0 < cur < args@.items.len(),
            j <= cur,
            a@ == args@.items[cur as int],
            only_once_spec(args@.items, cur as int) == match a@ {
                ArgView::Short(s, _, _) => last_short_before(args@.items, j as int, s),
                ArgView::Long(l, _, _) => last_long_before(args@.items, j as int, l),
                _ => None,
            },
        decreases j,
    {
        let b = args.item_at(j - 1);
        let hit = match (a, b) {
            (Arg::Short(s, _, _), Arg::Short(t, _, _)) => *s == *t,
            (Arg::Long(l, _, _), Arg::Long(m, _, _)) => {
                let lc = crate::text::str_chars(l.as_str());
                let mc = crate::text::str_chars(m.as_str());
                crate::text::chars_eq(&lc, &mc)
            },
            (Arg::Short(_, _, _), _) | (Arg::Long(_, _, _), _) => false,
            _ => {
                return None;
            },
        };
        if hit {
            return Some(j - 1);
        }
        j = j - 1;
    }
    None
}

fn textual_part(args: &State, mix: Option<usize>) -> (r: Option<String>)
    requires
        args.wf(),
    ensures
        crate::complete_gen::opt_view(r) == textual(args@, mix),
{
    let ix = match mix {
        Some(ix) => ix,
        None => {
            return None;
        },
    };
    if ix >= args.item_count() {
        return None;
    }
    match args.item_at(ix) {
        Arg::Short(_, _, _) | Arg::Long(_, _, _) => None,
        Arg::Word(s) | Arg::PosWord(s) | Arg::Ambiguity(_, s) => Some(utf8_lossy(s.as_slice())),
    }
}

fn item_text(args: &State, ix: usize) -> (r: String)
    requires
        args.wf(),
        ix < args@.items.len(),
    ensures
        r@ == arg_text(args@.items[ix as int]),
{
    args.item_at(ix).to_string()
}

fn char_at(s: &Vec<char>, i: usize) -> (c: char)
    requires
        i < s@.len(),
    ensures
        c == s@[i as int],
{
    s[i]
}

fn doc_unconsumed(args: &State, ix: usize, Ghost(f): Ghost<Seq<Piece>>) -> (doc: Doc)
    requires
        args.wf(),
        f == message_pieces(Message::Unconsumed(ix), args@),
        doc_of(f).0.len() <= usize::MAX,
        ix < args@.items.len(),
    ensures
        doc.wf(),
        (doc.payload(), doc.tokens()) == doc_of(f),
{
    let mut doc = Doc::new();
    assert(f.take(0) =~= Seq::<Piece>::empty());
    let open = Token::BlockStart(Block::TermRef);
    let close = Token::BlockEnd(Block::TermRef);
    let item = item_text(args, ix);
    put_tok(&mut doc, open, Ghost(f), Ghost(0));
    put_text(&mut doc, item.as_str(), Style::Invalid, Ghost(f), Ghost(1));
    put_tok(&mut doc, close, Ghost(f), Ghost(2));
    put_text(&mut doc, " is not expected in this context", Style::Text, Ghost(f), Ghost(3));
    assert(f.take(f.len() as int) =~= f);
    doc
}

fn doc_no_env(args: &State, name: &'static str, Ghost(f): Ghost<Seq<Piece>>) -> (doc: Doc)
    requires
        args.wf(),
        f == message_pieces(Message::NoEnv(name), args@),
        doc_of(f).0.len() <= usize::MAX,
    ensures
        doc.wf(),
        (doc.payload(), doc.tokens()) == doc_of(f),
{
    let mut doc = Doc::new();
    assert(f.take(0) =~= Seq::<Piece>::empty());
    let open = Token::BlockStart(Block::TermRef);
    let close = Token::BlockEnd(Block::TermRef);
    put_text(&mut doc, "environment variable ", Style::Text, Ghost(f), Ghost(0));
    put_tok(&mut doc, open, Ghost(f), Ghost(1));
    put_text(&mut doc, name, Style::Invalid, Ghost(f), Ghost(2));
    put_tok(&mut doc, close, Ghost(f), Ghost(3));
    put_text(&mut doc, " is not set", Style::Text, Ghost(f), Ghost(4));
    assert(f.take(f.len() as int) =~= f);
    doc
}

fn doc_strict_pos(args: &State, ix: usize, metavar: &'static str, Ghost(f): Ghost<Seq<Piece>>) -> (doc: Doc)
    requires
        args.wf(),
        f == message_pieces(Message::StrictPos(ix, metavar), args@),
        doc_of(f).0.len() <= usize::MAX,
    ensures
        doc.wf(),
        (doc.payload(), doc.tokens()) == doc_of(f),
{
    let mut doc = Doc::new();
    assert(f.take(0) =~= Seq::<Piece>::empty());
    let open = Token::BlockStart(Block::TermRef);
    let close = Token::BlockEnd(Block::TermRef);
    put_text(&mut doc, "expected ", Style::Text, Ghost(f), Ghost(0));
    put_tok(&mut doc, open, Ghost(f), Ghost(1));
    put_text(&mut doc, metavar, Style::Metavar, Ghost(f), Ghost(2));
    put_tok(&mut doc, close, Ghost(f), Ghost(3));
    put_text(&mut doc, " to be on the right side of ", Style::Text, Ghost(f), Ghost(4));
    put_tok(&mut doc, open, Ghost(f), Ghost(5));
    put_text(&mut doc, "--", Style::Literal, Ghost(f), Ghost(6));
    put_tok(&mut doc, close, Ghost(f), Ghost(7));
    assert(f.take(f.len() as int) =~= f);
    doc
}

fn doc_non_strict_pos(args: &State, ix: usize, metavar: &'static str, Ghost(f): Ghost<Seq<Piece>>) -> (doc: Doc)
    requires
        args.wf(),
        f == message_pieces(Message::NonStrictPos(ix, metavar), args@),
        doc_of(f).0.len() <= usize::MAX,
    ensures
        doc.wf(),
        (doc.payload(), doc.tokens()) == doc_of(f),
{
    let mut doc = Doc::new();
    assert(f.take(0) =~= Seq::<Piece>::empty());
    let open = Token::BlockStart(Block::TermRef);
    let close = Token::BlockEnd(Block::TermRef);
    put_text(&mut doc, "expected ", Style::Text, Ghost(f), Ghost(0));
    put_tok(&mut doc, open, Ghost(f), Ghost(1));
    put_text(&mut doc, metavar, Style::Metavar, Ghost(f), Ghost(2));
    put_tok(&mut doc, close, Ghost(f), Ghost(3));
    put_text(&mut doc, " to be on the left side of ", Style::Text, Ghost(f), Ghost(4));
    put_tok(&mut doc, open, Ghost(f), Ghost(5));
    put_text(&mut doc, "--", Style::Literal, Ghost(f), Ghost(6));
    put_tok(&mut doc, close, Ghost(f), Ghost(7));
    assert(f.take(f.len() as int) =~= f);
    doc
}

fn doc_parse_failed(args: &State, mix: Option<usize>, s: String, Ghost(f): Ghost<Seq<Piece>>) -> (doc: Doc)
    requires
        args.wf(),
        f == message_pieces(Message::ParseFailed(mix, s), args@),
        doc_of(f).0.len() <= usize::MAX,
    ensures
        doc.wf(),
        (doc.payload(), doc.tokens()) == doc_of(f),
{
    let mut doc = Doc::new();
    assert(f.take(0) =~= Seq::<Piece>::empty());
    let open = Token::BlockStart(Block::TermRef);
    let close = Token::BlockEnd(Block::TermRef);
    put_text(&mut doc, "couldn't parse", Style::Text, Ghost(f), Ghost(0));
    match textual_part(args, mix) {
        Some(field) => {
            put_text(&mut doc, " ", Style::Text, Ghost(f), Ghost(1));
            put_tok(&mut doc, open, Ghost(f), Ghost(2));
            put_text(&mut doc, field.as_str(), Style::Invalid, Ghost(f), Ghost(3));
            put_tok(&mut doc, close, Ghost(f), Ghost(4));
            put_text(&mut doc, ": ", Style::Text, Ghost(f), Ghost(5));
            put_text(&mut doc, s.as_str(), Style::Text, Ghost(f), Ghost(6));
        },
        None => {
            put_text(&mut doc, ": ", Style::Text, Ghost(f), Ghost(1));
            put_text(&mut doc, s.as_str(), Style::Text, Ghost(f), Ghost(2));
        },
    }
    assert(f.take(f.len() as int) =~= f);
    doc
}

fn doc_guard_failed(args: &State, mix: Option<usize>, s: &'static str, Ghost(f): Ghost<Seq<Piece>>) -> (doc: Doc)
    requires
        args.wf(),
        f == message_pieces(Message::GuardFailed(mix, s), args@),
        doc_of(f).0.len() <= usize::MAX,
    ensures
        doc.wf(),
        (doc.payload(), doc.tokens()) == doc_of(f),
{
    let mut doc = Doc::new();
    assert(f.take(0) =~= Seq::<Piece>::empty());
    let open = Token::BlockStart(Block::TermRef);
    let close = Token::BlockEnd(Block::TermRef);
    match textual_part(args, mix) {
        Some(field) => {
            put_tok(&mut doc, open, Ghost(f), Ghost(0));
            put_text(&mut doc, field.as_str(), Style::Invalid, Ghost(f), Ghost(1));
            put_tok(&mut doc, close, Ghost(f), Ghost(2));
            put_text(&mut doc, ": ", Style::Text, Ghost(f), Ghost(3));
            put_text(&mut doc, s, Style::Text, Ghost(f), Ghost(4));
        },
        None => {
            put_text(&mut doc, "check failed: ", Style::Text, Ghost(f), Ghost(0));
            put_text(&mut doc, s, Style::Text, Ghost(f), Ghost(1));
        },
    }
    assert(f.take(f.len() as int) =~= f);
    doc
}

fn doc_no_argument(args: &State, x: usize, metavar: &'static str, Ghost(f): Ghost<Seq<Piece>>) -> (doc: Doc)
    requires
        args.wf(),
        f == message_pieces(Message::NoArgument(x, metavar), args@),
        doc_of(f).0.len() <= usize::MAX,
        x < args@.items.len(),
    ensures
        doc.wf(),
        (doc.payload(), doc.tokens()) == doc_of(f),
{
    let mut doc = Doc::new();
    assert(f.take(0) =~= Seq::<Piece>::empty());
    let open = Token::BlockStart(Block::TermRef);
    let close = Token::BlockEnd(Block::TermRef);
    let arg = item_text(args, x);
    let _n = args.item_count();
    let after = match args.get(x + 1) {
        Some(Arg::Short(_, _, os)) | Some(Arg::Long(_, _, os)) => Some(utf8_lossy(os.as_slice())),
        _ => None,
    };
    match after {
        Some(os) => {
            put_tok(&mut doc, open, Ghost(f), Ghost(0));
            put_text(&mut doc, arg.as_str(), Style::Literal, Ghost(f), Ghost(1));
            put_tok(&mut doc, close, Ghost(f), Ghost(2));
            put_text(&mut doc, " requires an argument ", Style::Text, Ghost(f), Ghost(3));
            put_tok(&mut doc, open, Ghost(f), Ghost(4));
            put_text(&mut doc, metavar, Style::Metavar, Ghost(f), Ghost(5));
            put_tok(&mut doc, close, Ghost(f), Ghost(6));
            put_text(&mut doc, ", got a flag ", Style::Text, Ghost(f), Ghost(7));
            put_tok(&mut doc, open, Ghost(f), Ghost(8));
            put_text(&mut doc, os.as_str(), Style::Invalid, Ghost(f), Ghost(9));
            put_tok(&mut doc, close, Ghost(f), Ghost(10));
            put_text(&mut doc, ", try ", Style::Text, Ghost(f), Ghost(11));
            put_tok(&mut doc, open, Ghost(f), Ghost(12));
            put_text(&mut doc, arg.as_str(), Style::Literal, Ghost(f), Ghost(13));
            put_text(&mut doc, "=", Style::Literal, Ghost(f), Ghost(14));
            put_text(&mut doc, os.as_str(), Style::Literal, Ghost(f), Ghost(15));
            put_tok(&mut doc, close, Ghost(f), Ghost(16));
            put_text(&mut doc, " to use it as an argument", Style::Text, Ghost(f), Ghost(17));
        },
        None => {
            put_tok(&mut doc, open, Ghost(f), Ghost(0));
            put_text(&mut doc, arg.as_str(), Style::Literal, Ghost(f), Ghost(1));
            put_tok(&mut doc, close, Ghost(f), Ghost(2));
            put_text(&mut doc, " requires an argument ", Style::Text, Ghost(f), Ghost(3));
            put_tok(&mut doc, open, Ghost(f), Ghost(4));
            put_text(&mut doc, metavar, Style::Metavar, Ghost(f), Ghost(5));
            put_tok(&mut doc, close, Ghost(f), Ghost(6));
        },
    }
    assert(f.take(f.len() as int) =~= f);
    doc
}

fn doc_ambiguity(args: &State, ix: usize, name: String, Ghost(f): Ghost<Seq<Piece>>) -> (doc: Doc)
    requires
        args.wf(),
        f == message_pieces(Message::Ambiguity(ix, name), args@),
        doc_of(f).0.len() <= usize::MAX,
        ix < args@.items.len(),
        name@.len() >= 2,
        utf8_decode(item_os(args@.items[ix as int])) is Some,
    ensures
        doc.wf(),
        (doc.payload(), doc.tokens()) == doc_of(f),
{
    let mut doc = Doc::new();
    assert(f.take(0) =~= Seq::<Piece>::empty());
    let open = Token::BlockStart(Block::TermRef);
    let close = Token::BlockEnd(Block::TermRef);
    let chars = crate::text::str_chars(name.as_str());
    let first = char_at(&chars, 0);
    let second = char_at(&chars, 1);
    let rest_v = crate::text::chars_skip(&chars, 1);
    let rest = crate::text::chars_string(&rest_v);
    let s = match bytes_str(item_bytes_of(args.item_at(ix)).as_slice()) {
        Some(s) => s,
        None => {
    return doc;
        },
    };
    let off: usize = match args.first_path() {
        Some(p) => {
            put_text(&mut doc, p.as_str(), Style::Literal, Ghost(f), Ghost(0));
            put_text(&mut doc, " supports ", Style::Text, Ghost(f), Ghost(1));
            2
        },
        None => {
            put_text(&mut doc, "app supports ", Style::Text, Ghost(f), Ghost(0));
            1
        },
    };
    put_tok(&mut doc, open, Ghost(f), Ghost(off as int));
    put_text(&mut doc, "-", Style::Literal, Ghost(f), Ghost(off + 1));
    put_char(&mut doc, first, Style::Literal, Ghost(f), Ghost(off + 2));
    put_tok(&mut doc, close, Ghost(f), Ghost(off + 3));
    put_text(&mut doc, " as both an option and an option-argument, try to split ", Style::Text, Ghost(f), Ghost(off + 4));
    put_tok(&mut doc, open, Ghost(f), Ghost(off + 5));
    put_text(&mut doc, s.as_str(), Style::Literal, Ghost(f), Ghost(off + 6));
    put_tok(&mut doc, close, Ghost(f), Ghost(off + 7));
    put_text(&mut doc, " into individual options (", Style::Text, Ghost(f), Ghost(off + 8));
    put_text(&mut doc, "-", Style::Literal, Ghost(f), Ghost(off + 9));
    put_char(&mut doc, first, Style::Literal, Ghost(f), Ghost(off + 10));
    put_text(&mut doc, " -", Style::Literal, Ghost(f), Ghost(off + 11));
    put_char(&mut doc, second, Style::Literal, Ghost(f), Ghost(off + 12));
    put_text(&mut doc, " ..", Style::Literal, Ghost(f), Ghost(off + 13));
    put_text(&mut doc, ") or use ", Style::Text, Ghost(f), Ghost(off + 14));
    put_tok(&mut doc, open, Ghost(f), Ghost(off + 15));
    put_text(&mut doc, "-", Style::Literal, Ghost(f), Ghost(off + 16));
    put_char(&mut doc, first, Style::Literal, Ghost(f), Ghost(off + 17));
    put_text(&mut doc, "=", Style::Literal, Ghost(f), Ghost(off + 18));
    put_text(&mut doc, rest.as_str(), Style::Literal, Ghost(f), Ghost(off + 19));
    put_tok(&mut doc, close, Ghost(f), Ghost(off + 20));
    put_text(&mut doc, " syntax to disambiguate", Style::Text, Ghost(f), Ghost(off + 21));
    assert(f.take(f.len() as int) =~= f);
    doc
}

fn doc_conflict(args: &State, winner: usize, loser: usize, Ghost(f): Ghost<Seq<Piece>>) -> (doc: Doc)
    requires
        args.wf(),
        f == message_pieces(Message::Conflict(winner, loser), args@),
        doc_of(f).0.len() <= usize::MAX,
        winner < args@.items.len(),
        loser < args@.items.len(),
    ensures
        doc.wf(),
        (doc.payload(), doc.tokens()) == doc_of(f),
{
    let mut doc = Doc::new();
    assert(f.take(0) =~= Seq::<Piece>::empty());
    let open = Token::BlockStart(Block::TermRef);
    let close = Token::BlockEnd(Block::TermRef);
    let l = item_text(args, loser);
    let w = item_text(args, winner);
    put_tok(&mut doc, open, Ghost(f), Ghost(0));
    put_text(&mut doc, l.as_str(), Style::Literal, Ghost(f), Ghost(1));
    put_tok(&mut doc, close, Ghost(f), Ghost(2));
    put_text(&mut doc, " cannot be used at the same time as ", Style::Text, Ghost(f), Ghost(3));
    put_tok(&mut doc, open, Ghost(f), Ghost(4));
    put_text(&mut doc, w.as_str(), Style::Literal, Ghost(f), Ghost(5));
    put_tok(&mut doc, close, Ghost(f), Ghost(6));
    assert(f.take(f.len() as int) =~= f);
    doc
}

fn doc_only_once(args: &State, winner: usize, loser: usize, Ghost(f): Ghost<Seq<Piece>>) -> (doc: Doc)
    requires
        args.wf(),
        f == message_pieces(Message::OnlyOnce(winner, loser), args@),
        doc_of(f).0.len() <= usize::MAX,
        loser < args@.items.len(),
    ensures
        doc.wf(),
        (doc.payload(), doc.tokens()) == doc_of(f),
{
    let mut doc = Doc::new();
    assert(f.take(0) =~= Seq::<Piece>::empty());
    let open = Token::BlockStart(Block::TermRef);
    let close = Token::BlockEnd(Block::TermRef);
    let l = item_text(args, loser);
    put_text(&mut doc, "argument ", Style::Text, Ghost(f), Ghost(0));
    put_tok(&mut doc, open, Ghost(f), Ghost(1));
    put_text(&mut doc, l.as_str(), Style::Literal, Ghost(f), Ghost(2));
    put_tok(&mut doc, close, Ghost(f), Ghost(3));
    put_text(&mut doc, " cannot be used multiple times in this context", Style::Text, Ghost(f), Ghost(4));
    assert(f.take(f.len() as int) =~= f);
    doc
}

/// Writes the pieces of an item starting at piece `k`; gives how many there are.
fn put_item(doc: &mut Doc, item: &Item, Ghost(f): Ghost<Seq<Piece>>, Ghost(k): Ghost<int>) -> (n: usize)
    requires
        old(doc).wf(),
        0 <= k,
        k + item_pieces(*item).len() <= f.len(),
        f.subrange(k, k + item_pieces(*item).len()) == item_pieces(*item),
        (old(doc).payload(), old(doc).tokens()) == doc_of(f.take(k)),
        doc_of(f).0.len() <= usize::MAX,
    ensures
        n == item_pieces(*item).len(),
        final(doc).wf(),
        (final(doc).payload(), final(doc).tokens()) == doc_of(f.take(k + n)),
{
    let ghost ip = item_pieces(*item);
    match item {
        Item::Positional { metavar, strict } => {
            if *strict {
                assert(f[k] == ip[0] && f[k + 1] == ip[1]);
                put_text(doc, "-- ", Style::Literal, Ghost(f), Ghost(k));
                put_text(doc, metavar, Style::Metavar, Ghost(f), Ghost(k + 1));
                2
            } else {
                assert(f[k] == ip[0]);
                put_text(doc, metavar, Style::Metavar, Ghost(f), Ghost(k));
                1
            }
        },
        Item::Command { .. } => {
            assert(f[k] == ip[0]);
            put_text(doc, "COMMAND ...", Style::Metavar, Ghost(f), Ghost(k));
            1
        },
        Item::Flag { name } => {
            assert(f[k] == ip[0]);
            let s = preferred_name(name);
            put_text(doc, s.as_str(), Style::Literal, Ghost(f), Ghost(k));
            1
        },
        Item::Argument { name, metavar } => {
            assert(f[k] == ip[0] && f[k + 1] == ip[1] && f[k + 2] == ip[2]);
            let s = preferred_name(name);
            put_text(doc, s.as_str(), Style::Literal, Ghost(f), Ghost(k));
            put_text(doc, "=", Style::Text, Ghost(f), Ghost(k + 1));
            put_text(doc, metavar, Style::Metavar, Ghost(f), Ghost(k + 2));
            3
        },
    }
}

/// Writes an item as a reference to a term starting at piece `k`; gives how many pieces
/// that is.
fn put_ref_item(doc: &mut Doc, item: &Item, Ghost(f): Ghost<Seq<Piece>>, Ghost(k): Ghost<int>) -> (n: usize)
    requires
        old(doc).wf(),
        0 <= k,
        k + ref_item(*item).len() <= f.len(),
        f.subrange(k, k + ref_item(*item).len()) == ref_item(*item),
        (old(doc).payload(), old(doc).tokens()) == doc_of(f.take(k)),
        doc_of(f).0.len() <= usize::MAX,
    ensures
        n == ref_item(*item).len(),
        final(doc).wf(),
        (final(doc).payload(), final(doc).tokens()) == doc_of(f.take(k + n)),
{
    let ghost ip = item_pieces(*item);
    let ghost rp = ref_item(*item);
    assert(f[k] == rp[0]);
    put_tok(doc, Token::BlockStart(Block::TermRef), Ghost(f), Ghost(k));
    assert(f.subrange(k + 1, k + 1 + ip.len()) =~= ip) by {
        assert forall|i: int| 0 <= i < ip.len() implies f.subrange(k + 1, k + 1 + ip.len())[i] == ip[i] by {
            assert(f.subrange(k, k + rp.len())[i + 1] == rp[i + 1]);
        }
    }
    let n = put_item(doc, item, Ghost(f), Ghost(k + 1));
    assert(f[k + 1 + n] == rp[1 + n as int]);
    put_tok(doc, Token::BlockEnd(Block::TermRef), Ghost(f), Ghost(k + 1 + n));
    n + 2
}

/// Writes a name a mistyped item could have meant starting at piece `k`; gives how many
/// pieces that is.
fn put_variant(doc: &mut Doc, x: &Variant, Ghost(f): Ghost<Seq<Piece>>, Ghost(k): Ghost<int>) -> (n: usize)
    requires
        old(doc).wf(),
        0 <= k,
        k + variant_pieces(*x).len() <= f.len(),
        f.subrange(k, k + variant_pieces(*x).len()) == variant_pieces(*x),
        (old(doc).payload(), old(doc).tokens()) == doc_of(f.take(k)),
        doc_of(f).0.len() <= usize::MAX,
    ensures
        n == variant_pieces(*x).len(),
        final(doc).wf(),
        (final(doc).payload(), final(doc).tokens()) == doc_of(f.take(k + n)),
{
    let ghost vp = variant_pieces(*x);
    match x {
        Variant::CommandLong(name) => {
            assert(f[k] == vp[0]);
            put_text(doc, name, Style::Literal, Ghost(f), Ghost(k));
            1
        },
        Variant::Flag(ShortLong::Short(s)) => {
            assert(f[k] == vp[0] && f[k + 1] == vp[1]);
            put_text(doc, "-", Style::Literal, Ghost(f), Ghost(k));
            put_char(doc, *s, Style::Literal, Ghost(f), Ghost(k + 1));
            2
        },
        Variant::Flag(ShortLong::Long(l)) | Variant::Flag(ShortLong::Both(_, l)) => {
            assert(f[k] == vp[0] && f[k + 1] == vp[1]);
            put_text(doc, "--", Style::Literal, Ghost(f), Ghost(k));
            put_text(doc, l.as_str(), Style::Literal, Ghost(f), Ghost(k + 1));
            2
        },
    }
}

#[verifier::spinoff_prover]
#[verifier::rlimit(40)]
fn doc_expected(args: &State, exp: &Vec<Item>, actual: Option<usize>, Ghost(f): Ghost<Seq<Piece>>) -> (doc: Doc)
    requires
        args.wf(),
        f == expected_pieces(exp@, actual, args@),
        doc_of(f).0.len() <= usize::MAX,
        actual matches Some(a) ==> a < args@.items.len(),
    ensures
        doc.wf(),
        (doc.payload(), doc.tokens()) == doc_of(f),
{
    let ghost e = exp@;
    let ghost list = if e.len() == 0 {
        seq![tx("no arguments"@)]
    } else if e.len() == 1 {
        ref_item(e[0])
    } else if e.len() == 2 {
        ref_item(e[0]) + seq![tx(" or "@)] + ref_item(e[1])
    } else {
        ref_item(e[0]) + seq![tx(", "@)] + ref_item(e[1]) + seq![tx(", or more"@)]
    };
    let ghost got = match actual {
        Some(a) => seq![
            tx(", got "@),
            open_ref(),
            inv(arg_text(args@.items[a as int])),
            close_ref(),
            tx(". Pass "@),
        ],
        None => seq![tx(", pass "@)],
    };
    let ghost tail = seq![open_ref(), lit("--help"@), close_ref(), tx(" for usage information"@)];
    assert(f == seq![tx("expected "@)] + list + got + tail);
    let mut doc = Doc::new();
    assert(f.take(0) =~= Seq::<Piece>::empty());
    put_text(&mut doc, "expected ", Style::Text, Ghost(f), Ghost(0));
    let n = exp.len();
    if n == 0 {
        put_text(&mut doc, "no arguments", Style::Text, Ghost(f), Ghost(1));
    } else if n == 1 {
        assert(f.subrange(1, 1 + ref_item(e[0]).len() as int) =~= ref_item(e[0]));
        put_ref_item(&mut doc, &exp[0], Ghost(f), Ghost(1));
    } else {
        assert(f.subrange(1, 1 + ref_item(e[0]).len() as int) =~= ref_item(e[0]));
        let a = put_ref_item(&mut doc, &exp[0], Ghost(f), Ghost(1));
        if n == 2 {
            assert(f[1 + a as int] == tx(" or "@));
            put_text(&mut doc, " or ", Style::Text, Ghost(f), Ghost(1 + a as int));
            assert(f.subrange(2 + a as int, 2 + a as int + ref_item(e[1]).len() as int) =~= ref_item(e[1]));
            put_ref_item(&mut doc, &exp[1], Ghost(f), Ghost(2 + a as int));
        } else {
            assert(f[1 + a as int] == tx(", "@));
            put_text(&mut doc, ", ", Style::Text, Ghost(f), Ghost(1 + a as int));
            assert(f.subrange(2 + a as int, 2 + a as int + ref_item(e[1]).len() as int) =~= ref_item(e[1]));
            let b = put_ref_item(&mut doc, &exp[1], Ghost(f), Ghost(2 + a as int));
            assert(f[2 + a + b] == tx(", or more"@));
            put_text(&mut doc, ", or more", Style::Text, Ghost(f), Ghost(2 + a + b));
        }
    }
    let ghost k: int = 1 + list.len() as int;
    assert(f.take(k) =~= f.take(k));
    let open = Token::BlockStart(Block::TermRef);
    let close = Token::BlockEnd(Block::TermRef);
    let ghost k2: int = k + got.len() as int;
    match actual {
        Some(x) => {
            let s = item_text(args, x);
            assert(f[k] == got[0] && f[k + 1] == got[1] && f[k + 2] == got[2] && f[k + 3] == got[3]
                && f[k + 4] == got[4]);
            put_text(&mut doc, ", got ", Style::Text, Ghost(f), Ghost(k));
            put_tok(&mut doc, open, Ghost(f), Ghost(k + 1));
            put_text(&mut doc, s.as_str(), Style::Invalid, Ghost(f), Ghost(k + 2));
            put_tok(&mut doc, close, Ghost(f), Ghost(k + 3));
            put_text(&mut doc, ". Pass ", Style::Text, Ghost(f), Ghost(k + 4));
        },
        None => {
            assert(f[k] == got[0]);
            put_text(&mut doc, ", pass ", Style::Text, Ghost(f), Ghost(k));
        },
    }
    assert(f[k2] == tail[0] && f[k2 + 1] == tail[1] && f[k2 + 2] == tail[2] && f[k2 + 3] == tail[3]);
    put_tok(&mut doc, open, Ghost(f), Ghost(k2));
    put_text(&mut doc, "--help", Style::Literal, Ghost(f), Ghost(k2 + 1));
    put_tok(&mut doc, close, Ghost(f), Ghost(k2 + 2));
    put_text(&mut doc, " for usage information", Style::Text, Ghost(f), Ghost(k2 + 3));
    assert(f.take(f.len() as int) =~= f);
    doc
}

fn typed_kind_exec(args: &State, ix: usize, actual: &String) -> (r: &'static str)
    requires
        args.wf(),
        ix < args@.items.len(),
    ensures
        r@ == typed_kind(args@.items[ix as int], actual@),
{
    let cs = crate::text::str_chars(actual.as_str());
    if cs.len() > 0 && cs[0] == '-' {
        return "flag";
    }
    match args.item_at(ix) {
        Arg::Word(_) | Arg::PosWord(_) => "command or positional",
        _ => "flag",
    }
}

fn doc_suggestion(args: &State, ix: usize, s: &Suggestion, Ghost(f): Ghost<Seq<Piece>>) -> (doc: Doc)
    requires
        args.wf(),
        f == suggestion_pieces(ix, *s, args@),
        doc_of(f).0.len() <= usize::MAX,
        ix < args@.items.len(),
    ensures
        doc.wf(),
        (doc.payload(), doc.tokens()) == doc_of(f),
{
    let mut doc = Doc::new();
    assert(f.take(0) =~= Seq::<Piece>::empty());
    let open = Token::BlockStart(Block::TermRef);
    let close = Token::BlockEnd(Block::TermRef);
    let actual = item_text(args, ix);
    match s {
        Suggestion::Variant(x) => {
            let kind = typed_kind_exec(args, ix, &actual);
            let ghost vp = variant_pieces(*x);
            put_text(&mut doc, "no such ", Style::Text, Ghost(f), Ghost(0));
            put_text(&mut doc, kind, Style::Text, Ghost(f), Ghost(1));
            put_text(&mut doc, ": ", Style::Text, Ghost(f), Ghost(2));
            put_tok(&mut doc, open, Ghost(f), Ghost(3));
            put_text(&mut doc, actual.as_str(), Style::Invalid, Ghost(f), Ghost(4));
            put_tok(&mut doc, close, Ghost(f), Ghost(5));
            put_text(&mut doc, ", did you mean ", Style::Text, Ghost(f), Ghost(6));
            put_tok(&mut doc, open, Ghost(f), Ghost(7));
            assert(f.subrange(8, 8 + vp.len() as int) =~= vp);
            let n = put_variant(&mut doc, x, Ghost(f), Ghost(8));
            assert(f[8 + n as int] == close_ref() && f[9 + n as int] == tx("?"@));
            put_tok(&mut doc, close, Ghost(f), Ghost(8 + n as int));
            put_text(&mut doc, "?", Style::Text, Ghost(f), Ghost(9 + n as int));
        },
        Suggestion::MissingDash(name) => {
            put_text(&mut doc, "no such flag: ", Style::Text, Ghost(f), Ghost(0));
            put_tok(&mut doc, open, Ghost(f), Ghost(1));
            put_text(&mut doc, "-", Style::Literal, Ghost(f), Ghost(2));
            put_text(&mut doc, name.as_str(), Style::Literal, Ghost(f), Ghost(3));
            put_tok(&mut doc, close, Ghost(f), Ghost(4));
            put_text(&mut doc, " (with one dash), did you mean ", Style::Text, Ghost(f), Ghost(5));
            put_tok(&mut doc, open, Ghost(f), Ghost(6));
            put_text(&mut doc, "--", Style::Literal, Ghost(f), Ghost(7));
            put_text(&mut doc, name.as_str(), Style::Literal, Ghost(f), Ghost(8));
            put_tok(&mut doc, close, Ghost(f), Ghost(9));
            put_text(&mut doc, "?", Style::Text, Ghost(f), Ghost(10));
        },
        Suggestion::ExtraDash(c) => {
            put_text(&mut doc, "no such flag: ", Style::Text, Ghost(f), Ghost(0));
            put_tok(&mut doc, open, Ghost(f), Ghost(1));
            put_text(&mut doc, "--", Style::Literal, Ghost(f), Ghost(2));
            put_char(&mut doc, *c, Style::Literal, Ghost(f), Ghost(3));
            put_tok(&mut doc, close, Ghost(f), Ghost(4));
            put_text(&mut doc, " (with two dashes), did you mean ", Style::Text, Ghost(f), Ghost(5));
            put_tok(&mut doc, open, Ghost(f), Ghost(6));
            put_text(&mut doc, "-", Style::Literal, Ghost(f), Ghost(7));
            put_char(&mut doc, *c, Style::Literal, Ghost(f), Ghost(8));
            put_tok(&mut doc, close, Ghost(f), Ghost(9));
            put_text(&mut doc, "?", Style::Text, Ghost(f), Ghost(10));
        },
        Suggestion::Nested(cmd, x) => {
            let ty = match x {
                Variant::CommandLong(_) => "subcommand",
                Variant::Flag(_) => "flag",
            };
            put_text(&mut doc, ty, Style::Text, Ghost(f), Ghost(0));
            put_text(&mut doc, " ", Style::Text, Ghost(f), Ghost(1));
            put_tok(&mut doc, open, Ghost(f), Ghost(2));
            put_text(&mut doc, actual.as_str(), Style::Literal, Ghost(f), Ghost(3));
            put_tok(&mut doc, close, Ghost(f), Ghost(4));
            put_text(
                &mut doc,
                " is not valid in this context, did you mean to pass it to command ",
                Style::Text,
                Ghost(f),
                Ghost(5),
            );
            put_tok(&mut doc, open, Ghost(f), Ghost(6));
            put_text(&mut doc, cmd.as_str(), Style::Literal, Ghost(f), Ghost(7));
            put_tok(&mut doc, close, Ghost(f), Ghost(8));
            put_text(&mut doc, "?", Style::Text, Ghost(f), Ghost(9));
        },
    }
    assert(f.take(f.len() as int) =~= f);
    doc
}

/// The message for missing items: expected items in the scope of the one missing furthest
/// right, with the item found there instead, or the fix the did-you-mean search found for
/// that item; a message of its own when no item is given (they are all hidden)
///
/// `suggestion` is what the did-you-mean search finds for `args` narrowed to that scope.
pub fn summarize_missing(items: &Vec<MissingItem>, args: &State, suggestion: Option<(usize, Suggestion)>) -> (r: Message)
    requires
        args.wf(),
    ensures
        match missing_outcome(items@, args@, suggestion) {
            MissingOutcome::Hidden => r == Message::ParseSome(HIDDEN),
            MissingOutcome::Suggest(j, s) => r == Message::Suggestion(j, s),
            MissingOutcome::Expect(e, a) => r matches Message::Expected(v, b) && v@ == e && b == a,
        },
{
    let ghost xs = items@;
    let n = items.len();
    if n == 0 {
        return Message::ParseSome(HIDDEN);
    }
    let mut best: usize = 0;
    let mut i: usize = 1;
    while i < n
        invariant
            n == xs.len(),
            xs == items@,
            1 <= i <= n,
            best == best_upto(xs, i as nat),
            best < i,
        decreases n - i,
    {
        let a = &items[i];
        let b = &items[best];
        if a.position > b.position || (a.position == b.position && a.scope.start >= b.scope.start) {
            best = i;
        }
        i = i + 1;
    }
    let sc_start = items[best].scope.start;
    let sc_end = items[best].scope.end;
    let ghost sc = xs[best as int].scope;
    let mut expected: Vec<Item> = Vec::new();
    let mut saw = false;
    let mut j: usize = 0;
    while j < n
        invariant
            n == xs.len(),
            xs == items@,
            j <= n,
            sc_start == sc.start && sc_end == sc.end,
            (expected@, saw) == pick(xs, sc, j as nat),
        decreases n - j,
    {
        let it = &items[j];
        let cmd = it.item.is_command();
        if it.scope.start == sc_start && it.scope.end == sc_end && !(saw && cmd) {
            assert(it.scope == sc);
            expected.push(it.item.duplicate());
            saw = saw || cmd;
        } else {
            assert(it.scope.start == sc_start && it.scope.end == sc_end ==> it.scope == sc);
        }
        j = j + 1;
    }
    let pos = items[best].position;
    let lo = if pos > sc_start { pos } else { sc_start };
    let mut k = lo;
    let mut found: Option<usize> = None;
    while k < sc_end
        invariant
            args.wf(),
            lo <= k,
            found is Some ==> k >= sc_end,
            found is None ==> first_present(args@.states, lo as int, sc_end as int) == first_present(
                args@.states,
                k as int,
                sc_end as int,
            ),
            found matches Some(x) ==> first_present(args@.states, lo as int, sc_end as int) == Some(x as int),
        decreases sc_end - k,
    {
        match args.present(k) {
            None => {
                k = sc_end;
            },
            Some(true) => {
                found = Some(k);
                k = sc_end;
            },
            Some(false) => {
                k = k + 1;
            },
        }
    }
    match found {
        Some(ix) => match suggestion {
            Some((j, s)) => Message::Suggestion(j, s),
            None => Message::Expected(expected, Some(ix)),
        },
        None => Message::Expected(expected, None),
    }
}

impl Message {
    /// The failure shown for this message: the message already rendered, or an error
    /// document that names the items involved
    ///
    /// `suggestion` is what the did-you-mean search over the parser's items finds: for an
    /// item that is not expected, in `args`; for missing items, in `args` narrowed to the
    /// scope they are reported for (see [`summarize_missing`]).
    pub fn render(self, args: &State, suggestion: Option<(usize, Suggestion)>) -> (r: ParseFailure)
        requires
            args.wf(),
            renderable(self, args@),
            self matches Message::Missing(xs) ==> (missing_outcome(xs@, args@, suggestion) matches MissingOutcome::Suggest(j, _) ==> j < args@.items.len())
                && doc_of(missing_pieces(xs@, args@, suggestion)).0.len() <= usize::MAX,
            !(self is Missing) ==> renderable(improved(self, args@, suggestion), args@) && doc_of(
                message_pieces(improved(self, args@, suggestion), args@),
            ).0.len() <= usize::MAX,
        ensures
            match self {
                Message::Missing(xs) => r matches ParseFailure::Stderr(d) && d.wf() && (d.payload(), d.tokens())
                    == doc_of(missing_pieces(xs@, args@, suggestion)),
                _ => match improved(self, args@, suggestion) {
                    Message::ParseFailure(f) => r == f,
                    m => r matches ParseFailure::Stderr(d) && d.wf() && (d.payload(), d.tokens())
                        == doc_of(message_pieces(m, args@)),
                },
            },
    {
        let ghost v = args@;
        let ghost sugg = suggestion;
        let ghost target = if self is Missing {
            missing_pieces(self->Missing_0@, v, sugg)
        } else {
            message_pieces(improved(self, v, sugg), v)
        };
        // try to come up with a better error message for a few cases
        let msg = match self {
            Message::Unconsumed(ix) => {
                if let Some((loser, winner)) = args.conflict() {
                    Message::Conflict(winner, loser)
                } else if let Some(prev) = only_once(args, ix) {
                    Message::OnlyOnce(prev, ix)
                } else {
                    match suggestion {
                        Some((j, s)) => Message::Suggestion(j, s),
                        None => Message::Unconsumed(ix),
                    }
                }
            },
            Message::Missing(xs) => {
                proof {
                    args.lemma_remaining();
                    let ys = xs@;
                    if ys.len() > 0 {
                        let b = best_upto(ys, ys.len());
                        let sc = ys[b].scope;
                        let lo = if ys[b].position > sc.start { ys[b].position } else { sc.start };
                        lemma_first_present(v.states, lo as int, sc.end as int);
                    }
                }
                summarize_missing(&xs, args, suggestion)
            },
            other => other,
        };
        assert(!(msg is Missing));
        assert(!(msg is ParseFailure) ==> message_pieces(msg, v) == target);
        assert(!(self is Missing) ==> msg == improved(self, v, sugg));
        let ghost f = message_pieces(msg, v);
        let doc = match msg {
            // already rendered
            Message::ParseFailure(failure) => {
                return failure;
            },
            Message::Missing(_) => Doc::new(),
            // Error: --foo is not expected in this context
            Message::Unconsumed(ix) => doc_unconsumed(args, ix, Ghost(f)),
            // Error: environment variable FOO is not set
            Message::NoEnv(name) => doc_no_env(args, name, Ghost(f)),
            // Error: FOO expected to be on the right side of --
            Message::StrictPos(ix, metavar) => doc_strict_pos(args, ix, metavar, Ghost(f)),
            // Error: FOO expected to be on the left side of --
            Message::NonStrictPos(ix, metavar) => doc_non_strict_pos(args, ix, metavar, Ghost(f)),
            // Error: <message from some or fail>
            Message::ParseSome(s) | Message::ParseFail(s) => {
                let mut doc = Doc::new();
                assert(f.take(0) =~= Seq::<Piece>::empty());
                put_text(&mut doc, s, Style::Text, Ghost(f), Ghost(0));
                assert(f.take(1) =~= f);
                doc
            },
            // Error: couldn't parse FIELD: <FromStr message>
            Message::ParseFailed(mix, s) => doc_parse_failed(args, mix, s, Ghost(f)),
            // Error: ( FIELD:  | check failed: ) <message from guard>
            Message::GuardFailed(mix, s) => doc_guard_failed(args, mix, s, Ghost(f)),
            // Error: --foo requires an argument FOO, got a flag --bar, try --foo=-bar to use it
            // as an argument
            // Error: --foo requires an argument FOO
            Message::NoArgument(x, metavar) => doc_no_argument(args, x, metavar, Ghost(f)),
            // Error: <message from pure_with>
            Message::PureFailed(s) => {
                let mut doc = Doc::new();
                assert(f.take(0) =~= Seq::<Piece>::empty());
                put_text(&mut doc, s.as_str(), Style::Text, Ghost(f), Ghost(0));
                assert(f.take(1) =~= f);
                doc
            },
            // Error: app supports -f as both an option and an option-argument, try to split
            // -foo into invididual options (-f -o ..) or use -f=oo syntax to disambiguate
            Message::Ambiguity(ix, name) => doc_ambiguity(args, ix, name, Ghost(f)),
            // Error: --intel cannot be used at the same time as --att
            Message::Conflict(winner, loser) => doc_conflict(args, winner, loser, Ghost(f)),
            // Error: argument FOO cannot be used multiple times in this context
            Message::OnlyOnce(winner, loser) => doc_only_once(args, winner, loser, Ghost(f)),
            // Error: no such flag: --fo, did you mean --foo?
            Message::Suggestion(ix, s) => doc_suggestion(args, ix, &s, Ghost(f)),
            // Error: expected --foo, got --bar. Pass --help for usage information
            Message::Expected(exp, actual) => doc_expected(args, &exp, actual, Ghost(f)),
        };
        ParseFailure::Stderr(doc)
    }
}

/// A copy of the OS string an item comes from.
fn item_bytes_of(a: &Arg) -> (r: Vec<u8>)
    ensures
        r@ == item_os(a@),
{
    match a {
        Arg::Short(_, _, os) | Arg::Long(_, _, os) | Arg::Word(os) | Arg::PosWord(os) | Arg::Ambiguity(_, os) => {
            let r = crate::text::copy_bytes(os.as_slice(), 0, os.len());
            assert(os@.subrange(0, os@.len() as int) =~= os@);
            r
        },
    }
}

} // verus!
