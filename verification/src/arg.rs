//! A command line item after preprocessing: short and long flags with their names, plain
//! words and strictly positional words, and how an OS string is split into those parts.
//!
//! An OS string is held as its bytes. Dashes and the equals sign are single bytes, so the
//! parts are found by looking at bytes; only a flag's name has to be valid UTF-8.

use crate::text::{
    bytes_str, chars_string, copy_bytes, lossy_utf8, push_range, push_str_chars, str_bytes,
    str_chars, utf8_decode, utf8_encode, utf8_lossy,
};
use vstd::prelude::*;

verus! {

/// Byte of `-`
pub const DASH: u8 = 45;

/// Byte of `=`
pub const EQUALS: u8 = 61;

/// Preprocessed command line argument
///
/// The bytes in Short/Long are the original command line item, used for errors
#[derive(Debug, Clone, Eq, PartialEq)]
pub enum Arg {
    /// ambiguity between group of short options and a short option with an argument
    /// `-abc` can be either equivalent of `-a -b -c` or `-a=bc`
    ///
    /// The bytes are always valid utf8 here
    Ambiguity(Vec<char>, Vec<u8>),
    /// short flag: `-f`
    ///
    /// bool indicates if following item is also part of this Short
    Short(char, bool, Vec<u8>),
    /// long flag: `--flag`
    Long(String, bool, Vec<u8>),
    /// separate word that can be command, positional or an argument to a flag
    ///
    /// Can start with `-` or `--`, doesn't have to be valid utf8
    Word(Vec<u8>),
    /// separate word that goes after `--`, strictly positional
    ///
    /// Can start with `-` or `--`, doesn't have to be valid utf8
    PosWord(Vec<u8>),
}

/// Mathematical form of an [`Arg`]
pub enum ArgView {
    Ambiguity(Seq<char>, Seq<u8>),
    Short(char, bool, Seq<u8>),
    Long(Seq<char>, bool, Seq<u8>),
    Word(Seq<u8>),
    PosWord(Seq<u8>),
}

impl View for Arg {
    type V = ArgView;

    open spec fn view(&self) -> ArgView {
        match self {
            Arg::Ambiguity(cs, os) => ArgView::Ambiguity(cs@, os@),
            Arg::Short(c, adj, os) => ArgView::Short(*c, *adj, os@),
            Arg::Long(l, adj, os) => ArgView::Long(l@, *adj, os@),
            Arg::Word(w) => ArgView::Word(w@),
            Arg::PosWord(w) => ArgView::PosWord(w@),
        }
    }
}

/// How an argument is shown: flags by their names, words by their text.
pub open spec fn arg_text(a: ArgView) -> Seq<char> {
    match a {
        ArgView::Short(c, _, _) => seq!['-', c],
        ArgView::Long(l, _, _) => "--"@ + l,
        ArgView::Ambiguity(_, w) | ArgView::Word(w) | ArgView::PosWord(w) => lossy_utf8(w),
    }
}

/// The character at a position.
fn char_of(cs: &Vec<char>, i: usize) -> (c: char)
    requires
        i < cs@.len(),
    ensures
        c == cs@[i as int],
{
    cs[i]
}

fn copy_chars(v: &Vec<char>) -> (r: Vec<char>)
    ensures
        r@ == v@,
{
    let mut r: Vec<char> = Vec::new();
    push_range(&mut r, v, 0, v.len());
    assert(v@.subrange(0, v@.len() as int) =~= v@);
    r
}

impl Arg {
    /// A copy of the argument
    pub fn duplicate(&self) -> (r: Arg)
        ensures
            r@ == self@,
    {
        match self {
            Arg::Ambiguity(cs, os) => {
                let b = copy_bytes(os.as_slice(), 0, os.len());
                assert(os@.subrange(0, os@.len() as int) =~= os@);
                Arg::Ambiguity(copy_chars(cs), b)
            },
            Arg::Short(c, adj, os) => {
                let b = copy_bytes(os.as_slice(), 0, os.len());
                assert(os@.subrange(0, os@.len() as int) =~= os@);
                Arg::Short(*c, *adj, b)
            },
            Arg::Long(l, adj, os) => {
                let b = copy_bytes(os.as_slice(), 0, os.len());
                assert(os@.subrange(0, os@.len() as int) =~= os@);
                Arg::Long(l.clone(), *adj, b)
            },
            Arg::Word(w) => {
                let b = copy_bytes(w.as_slice(), 0, w.len());
                assert(w@.subrange(0, w@.len() as int) =~= w@);
                Arg::Word(b)
            },
            Arg::PosWord(w) => {
                let b = copy_bytes(w.as_slice(), 0, w.len());
                assert(w@.subrange(0, w@.len() as int) =~= w@);
                Arg::PosWord(b)
            },
        }
    }

    /// The argument as it is shown to the user: `-f`, `--flag` or the word itself, with
    /// invalid UTF-8 replaced
    pub fn to_string(&self) -> (r: String)
        ensures
            r@ == arg_text(self@),
    {
        match self {
            Arg::Short(s, _, _) => {
                let mut v: Vec<char> = Vec::new();
                v.push('-');
                v.push(*s);
                chars_string(&v)
            },
            Arg::Long(l, _, _) => {
                let mut v: Vec<char> = Vec::new();
                push_str_chars(&mut v, "--");
                push_str_chars(&mut v, l.as_str());
                proof {
                    reveal_strlit("--");
                }
                chars_string(&v)
            },
            Arg::Ambiguity(_, w) | Arg::Word(w) | Arg::PosWord(w) => utf8_lossy(w.as_slice()),
        }
    }
}

/// Kind of a flag
#[derive(Debug, Clone, Copy, Eq, PartialEq, Structural)]
pub enum ArgType {
    Short,
    Long,
}

/// Position of the first `=` at or after `i`, the length when there is none.
pub open spec fn equals_from(b: Seq<u8>, i: int) -> int
    decreases b.len() - i,
{
    if i >= b.len() {
        b.len() as int
    } else if b[i] == EQUALS {
        i
    } else {
        equals_from(b, i + 1)
    }
}

/// The position of `=` is at or after where the search starts.
pub proof fn lemma_equals_from_bounds(b: Seq<u8>, i: int)
    requires
        0 <= i <= b.len(),
    ensures
        i <= equals_from(b, i) <= b.len(),
    decreases b.len() - i,
{
    if i < b.len() && b[i] != EQUALS {
        lemma_equals_from_bounds(b, i + 1);
    }
}

/// Mathematical form of what splitting gives
pub type SplitView = Option<(ArgType, Seq<char>, Option<ArgView>)>;

/// The view of what splitting gives.
pub open spec fn split_view(r: Option<(ArgType, String, Option<Arg>)>) -> SplitView {
    match r {
        None => None,
        Some((t, n, a)) => Some(
            (
                t,
                n@,
                match a {
                    Some(x) => Some(x@),
                    None => None,
                },
            ),
        ),
    }
}

/// An OS string split into bits: `--name=value` is a long flag, `-n=value` a short one,
/// a value is optional; the name goes up to the first `=` and must be valid UTF-8. `-`
/// alone, `--` alone or anything that does not start with a dash is no flag. The first
/// byte of a short name is part of it, whatever it is.
pub open spec fn split_spec(b: Seq<u8>) -> SplitView {
    if b.len() < 2 || b[0] != DASH {
        None
    } else {
        let long = b[1] == DASH;
        let start: int = if long {
            2
        } else {
            1
        };
        let e = equals_from(b, 2);
        if e == b.len() && e == start {
            None
        } else {
            match utf8_decode(b.subrange(start, e)) {
                None => None,
                Some(name) => Some(
                    (
                        if long {
                            ArgType::Long
                        } else {
                            ArgType::Short
                        },
                        name,
                        if e == b.len() {
                            None
                        } else {
                            Some(ArgView::Word(b.subrange(e + 1, b.len() as int)))
                        },
                    ),
                ),
            }
        }
    }
}

/// split an OS string into argument specific bits
///
/// takes a possibly non-utf8 string looking like "--name=value" and splits it into bits:
/// "--" - type, "name" - name, must be representable as utf8, "=" - optional, "value" - flag
///
/// dashes and equals sign are low codepoint values and - can look for them literally in a string.
///
/// name must be valid utf8 after conversion and must not include `=`
///
/// argument is optional and can be non valid utf8.
pub fn split_os_argument(input: &[u8]) -> (r: Option<(ArgType, String, Option<Arg>)>)
    ensures
        split_view(r) == split_spec(input@),
{
    // first item must be dash, otherwise it's positional or a flag value;
    // second item may or may not be, but should be present
    if input.len() < 2 || input[0] != DASH {
        return None;
    }
    let long = input[1] == DASH;
    let start: usize = if long {
        2
    } else {
        1
    };
    // keep collecting until = or the end of the input
    let mut e: usize = 2;
    while e < input.len() && input[e] != EQUALS
        invariant
            2 <= e <= input@.len(),
            equals_from(input@, e as int) == equals_from(input@, 2),
        decreases input.len() - e,
    {
        e = e + 1;
    }
    if e == input.len() && e == start {
        return None;
    }
    let name_bytes = copy_bytes(input, start, e);
    let name = match bytes_str(name_bytes.as_slice()) {
        Some(n) => n,
        None => {
            return None;
        },
    };
    let word = if e == input.len() {
        None
    } else {
        Some(Arg::Word(copy_bytes(input, e + 1, input.len())))
    };
    let ty = if long {
        ArgType::Long
    } else {
        ArgType::Short
    };
    Some((ty, name, word))
}

/// Position of the first `=` at or after `i`, the length when there is none.
pub open spec fn equals_char_from(s: Seq<char>, i: int) -> int
    decreases s.len() - i,
{
    if i >= s.len() {
        s.len() as int
    } else if s[i] == '=' {
        i
    } else {
        equals_char_from(s, i + 1)
    }
}

/// Splitting of a valid UTF-8 string, by characters: the same bits as [`split_spec`].
pub open spec fn split_fallback_spec(s: Seq<char>) -> SplitView {
    if s.len() < 2 || s[0] != '-' {
        None
    } else {
        let long = s[1] == '-';
        let start: int = if long {
            2
        } else {
            1
        };
        let e = equals_char_from(s, 2);
        if e == s.len() && e == start {
            None
        } else {
            Some(
                (
                    if long {
                        ArgType::Long
                    } else {
                        ArgType::Short
                    },
                    s.subrange(start, e),
                    if e == s.len() {
                        None
                    } else {
                        Some(ArgView::Word(utf8_encode(s.subrange(e + 1, s.len() as int))))
                    },
                ),
            )
        }
    }
}

/// similar to [`split_os_argument`] but only works for utf8 values
pub fn split_os_argument_fallback(input: &str) -> (r: Option<(ArgType, String, Option<Arg>)>)
    ensures
        split_view(r) == split_fallback_spec(input@),
{
    let chars = str_chars(input);
    // first character must be dash, otherwise it's positional or a flag value;
    // second character may or may not be
    if chars.len() < 2 || chars[0] != '-' {
        return None;
    }
    let long = chars[1] == '-';
    let start: usize = if long {
        2
    } else {
        1
    };
    // collect the argument's name up to '=' or until the end
    let mut e: usize = 2;
    while e < chars.len() && chars[e] != '='
        invariant
            2 <= e <= chars@.len(),
            equals_char_from(chars@, e as int) == equals_char_from(chars@, 2),
        decreases chars.len() - e,
    {
        e = e + 1;
    }
    if e == chars.len() && e == start {
        return None;
    }
    let mut name: Vec<char> = Vec::new();
    push_range(&mut name, &chars, start, e);
    let word = if e == chars.len() {
        None
    } else {
        let mut rest: Vec<char> = Vec::new();
        push_range(&mut rest, &chars, e + 1, chars.len());
        let rest_s = chars_string(&rest);
        Some(Arg::Word(str_bytes(rest_s.as_str())))
    };
    let ty = if long {
        ArgType::Long
    } else {
        ArgType::Short
    };
    Some((ty, chars_string(&name), word))
}

/// The bytes of `--`, the end of flags.
pub open spec fn is_double_dash(os: Seq<u8>) -> bool {
    os == seq![DASH, DASH]
}

pub(crate) fn double_dash(os: &Vec<u8>) -> (r: bool)
    ensures
        r == is_double_dash(os@),
{
    let r = os.len() == 2 && os[0] == DASH && os[1] == DASH;
    proof {
        if r {
            assert(os@ =~= seq![DASH, DASH]);
        }
    }
    r
}

/// Arguments an OS string becomes, and whether only positional items follow it: after `--`
/// everything is strictly positional; a short flag with more than one character is
/// ambiguous.
pub open spec fn push_spec(os: Seq<u8>, pos_only: bool) -> (Seq<ArgView>, bool) {
    if pos_only {
        (seq![ArgView::PosWord(os)], true)
    } else {
        match split_spec(os) {
            Some((ArgType::Short, short, None)) => if short.len() == 1 {
                (seq![ArgView::Short(short[0], false, os)], false)
            } else {
                (seq![ArgView::Ambiguity(short, os)], false)
            },
            Some((ArgType::Short, short, Some(arg))) => (
                seq![ArgView::Short(short[0], true, os), arg],
                false,
            ),
            Some((ArgType::Long, long, None)) => (seq![ArgView::Long(long, false, os)], false),
            Some((ArgType::Long, long, Some(arg))) => (
                seq![ArgView::Long(long, true, os), arg],
                false,
            ),
            None => if is_double_dash(os) {
                (seq![ArgView::PosWord(os)], true)
            } else {
                (seq![ArgView::Word(os)], false)
            },
        }
    }
}

/// A short flag with a value has a single byte long name.
pub open spec fn short_with_value_ok(os: Seq<u8>) -> bool {
    split_spec(os) matches Some((ArgType::Short, n, Some(_))) ==> utf8_encode(n).len() == 1
}

/// The views of a vector of arguments.
pub open spec fn args_view(v: Seq<Arg>) -> Seq<ArgView> {
    v.map_values(|a: Arg| a@)
}

fn push_arg(vec: &mut Vec<Arg>, a: Arg)
    ensures
        args_view(final(vec)@) == args_view(old(vec)@).push(a@),
{
    vec.push(a);
    assert(args_view(vec@) =~= args_view(old(vec)@).push(a@));
}

/// A group of short flags: a single flag or an ambiguity.
fn push_short(vec: &mut Vec<Arg>, short: &String, os: Vec<u8>)
    ensures
        args_view(final(vec)@) == args_view(old(vec)@) + if short@.len() == 1 {
            seq![ArgView::Short(short@[0], false, os@)]
        } else {
            seq![ArgView::Ambiguity(short@, os@)]
        },
{
    let cs = str_chars(short.as_str());
    let a = if cs.len() == 1 {
        Arg::Short(char_of(&cs, 0), false, os)
    } else {
        Arg::Ambiguity(cs, os)
    };
    let ghost va = a@;
    vec.push(a);
    assert(args_view(vec@) =~= args_view(old(vec)@) + seq![va]);
}

/// A short flag with its value.
fn push_short_value(vec: &mut Vec<Arg>, short: &String, os: Vec<u8>, arg: Arg)
    requires
        short@.len() > 0,
    ensures
        args_view(final(vec)@) == args_view(old(vec)@) + seq![ArgView::Short(short@[0], true, os@), arg@],
{
    let cs = str_chars(short.as_str());
    let c = char_of(&cs, 0);
    let ghost va = arg@;
    vec.push(Arg::Short(c, true, os));
    vec.push(arg);
    assert(args_view(vec@) =~= args_view(old(vec)@) + seq![ArgView::Short(short@[0], true, os@), va]);
}

/// Adds the arguments an OS string becomes.
pub fn push_vec(vec: &mut Vec<Arg>, os: Vec<u8>, pos_only: &mut bool)
    requires
        !*old(pos_only) ==> short_with_value_ok(os@),
    ensures
        args_view(final(vec)@) == args_view(old(vec)@) + push_spec(os@, *old(pos_only)).0,
        *final(pos_only) == push_spec(os@, *old(pos_only)).1,
{
    let ghost pv = push_spec(os@, *pos_only);
    if *pos_only {
        push_arg(vec, Arg::PosWord(os));
        assert(args_view(vec@) =~= args_view(old(vec)@) + pv.0);
        return;
    }
    let sp = split_os_argument(os.as_slice());
    let ghost spv = split_view(sp);
    assert(spv == split_spec(os@));
    match sp {
        // -f and -fbar
        Some((ArgType::Short, short, None)) => {
            push_short(vec, &short, os);
        },
        // -f=a
        Some((ArgType::Short, short, Some(arg))) => {
            push_short_value(vec, &short, os, arg);
        },
        Some((ArgType::Long, long, None)) => {
            push_arg(vec, Arg::Long(long, false, os));
        },
        Some((ArgType::Long, long, Some(arg))) => {
            push_arg(vec, Arg::Long(long, true, os));
            push_arg(vec, arg);
        },
        None => {
            *pos_only = double_dash(&os);
            if *pos_only {
                push_arg(vec, Arg::PosWord(os));
            } else {
                push_arg(vec, Arg::Word(os));
            }
        },
    }
    assert(args_view(vec@) =~= args_view(old(vec)@) + pv.0);
}

} // verus!

verus! {

/// The encoding of an ASCII character is its own byte; every byte of the encoding of any
/// other character has its high bit set.
proof fn lemma_scalar_bytes(c: char)
    ensures
        (c as u32) < 0x80 ==> vstd::utf8::encode_scalar(c as u32) == seq![(c as u32) as u8],
        (c as u32) >= 0x80 ==> forall|k: int| 0 <= k < vstd::utf8::encode_scalar(c as u32).len()
            ==> #[trigger] vstd::utf8::encode_scalar(c as u32)[k] >= 0x80,
        vstd::utf8::encode_scalar(c as u32).len() >= 1,
{
    let v = c as u32;
    vstd::utf8::char_is_scalar(c);
    if v < 0x80 {
        assert(v & 0x7F == v) by (bit_vector)
            requires
                v < 0x80,
        ;
    } else {
        let a = ((v >> 6) & 0x1F) as u8;
        let b = ((v >> 12) & 0x0F) as u8;
        let d = ((v >> 18) & 0x7) as u8;
        let e = (v & 0x3F) as u8;
        let f = ((v >> 6) & 0x3F) as u8;
        let g = ((v >> 12) & 0x3F) as u8;
        assert(0xC0u8 | a >= 0x80) by (bit_vector);
        assert(0xE0u8 | b >= 0x80) by (bit_vector);
        assert(0xF0u8 | d >= 0x80) by (bit_vector);
        assert(0x80u8 | e >= 0x80) by (bit_vector);
        assert(0x80u8 | f >= 0x80) by (bit_vector);
        assert(0x80u8 | g >= 0x80) by (bit_vector);
    }
}

} // verus!

verus! {

/// UTF-8 encoding of a concatenation.
proof fn lemma_encode_concat(a: Seq<char>, b: Seq<char>)
    ensures
        utf8_encode(a + b) == utf8_encode(a) + utf8_encode(b),
    decreases a.len(),
{
    if a.len() == 0 {
        assert(a + b =~= b);
        assert(utf8_encode(a) =~= Seq::<u8>::empty());
    } else {
        lemma_encode_concat(a.drop_first(), b);
        assert((a + b).drop_first() =~= a.drop_first() + b);
        assert((a + b)[0] == a[0]);
    }
}

/// A text of at least one character has at least one byte; more characters, more bytes.
proof fn lemma_encode_nonempty(a: Seq<char>)
    ensures
        a.len() > 0 ==> utf8_encode(a).len() > 0,
        utf8_encode(a).len() >= a.len(),
    decreases a.len(),
{
    if a.len() > 0 {
        lemma_scalar_bytes(a[0]);
        lemma_encode_nonempty(a.drop_first());
    }
}

/// Decoding what was encoded gives the text back.
proof fn lemma_decode_encoded(a: Seq<char>)
    ensures
        utf8_decode(utf8_encode(a)) == Some(a),
{
    vstd::utf8::encode_utf8_valid_utf8(a);
    vstd::utf8::encode_utf8_decode_utf8(a);
}

/// Looking for `=` after a prefix is looking for it in the rest.
proof fn lemma_equals_shift(x: Seq<u8>, y: Seq<u8>, i: int)
    requires
        0 <= i <= y.len(),
    ensures
        equals_from(x + y, x.len() + i) == x.len() + equals_from(y, i),
    decreases y.len() - i,
{
    if i < y.len() {
        assert((x + y)[x.len() + i] == y[i]);
        if y[i] != EQUALS {
            lemma_equals_shift(x, y, i + 1);
        }
    }
}

/// Bytes other than `=` are passed over.
proof fn lemma_equals_skip(b: Seq<u8>, q: int, r: int)
    requires
        0 <= q <= r <= b.len(),
        forall|i: int| q <= i < r ==> b[i] != EQUALS,
    ensures
        equals_from(b, q) == equals_from(b, r),
    decreases r - q,
{
    if q < r {
        lemma_equals_skip(b, q + 1, r);
    }
}

/// Looking for `=` after a prefix is looking for it in the rest, by characters.
proof fn lemma_equals_char_shift(x: Seq<char>, y: Seq<char>, i: int)
    requires
        0 <= i <= y.len(),
    ensures
        equals_char_from(x + y, x.len() + i) == x.len() + equals_char_from(y, i),
    decreases y.len() - i,
{
    if i < y.len() {
        assert((x + y)[x.len() + i] == y[i]);
        if y[i] != '=' {
            lemma_equals_char_shift(x, y, i + 1);
        }
    }
}

/// The encoding of a single character.
proof fn lemma_encode_single(c: char)
    ensures
        utf8_encode(seq![c]) == vstd::utf8::encode_scalar(c as u32),
{
    assert(seq![c].drop_first() =~= Seq::<char>::empty());
    assert(utf8_encode(Seq::<char>::empty()) =~= Seq::<u8>::empty());
    assert(vstd::utf8::encode_scalar(c as u32) + Seq::<u8>::empty() =~= vstd::utf8::encode_scalar(c as u32));
}

/// The byte `=` is the encoding of `=` and of nothing else.
proof fn lemma_scalar_equals(c: char)
    ensures
        c == '=' ==> vstd::utf8::encode_scalar(c as u32) == seq![EQUALS],
        c != '=' ==> forall|k: int| 0 <= k < vstd::utf8::encode_scalar(c as u32).len()
            ==> #[trigger] vstd::utf8::encode_scalar(c as u32)[k] != EQUALS,
{
    lemma_scalar_bytes(c);
    vstd::utf8::char_u32_cast(c, c as u32);
    vstd::utf8::char_u32_cast('=', '=' as u32);
}

/// The byte `-` is the encoding of `-` and of nothing else.
proof fn lemma_scalar_dash(c: char)
    ensures
        c == '-' ==> vstd::utf8::encode_scalar(c as u32) == seq![DASH],
        c != '-' ==> vstd::utf8::encode_scalar(c as u32)[0] != DASH,
{
    lemma_scalar_bytes(c);
    vstd::utf8::char_u32_cast(c, c as u32);
    vstd::utf8::char_u32_cast('-', '-' as u32);
}

/// The first `=` of an encoded text is the encoding of its first `=`, and what follows it
/// encodes what follows that character.
proof fn lemma_equals_encoded(u: Seq<char>)
    ensures
        0 <= equals_char_from(u, 0) <= u.len(),
        equals_from(utf8_encode(u), 0) == utf8_encode(u.take(equals_char_from(u, 0))).len(),
        equals_char_from(u, 0) < u.len() ==> utf8_encode(u).subrange(
            equals_from(utf8_encode(u), 0) + 1,
            utf8_encode(u).len() as int,
        ) == utf8_encode(u.skip(equals_char_from(u, 0) + 1)),
    decreases u.len(),
{
    if u.len() == 0 {
        assert(u.take(0) =~= u);
        assert(utf8_encode(u) =~= Seq::<u8>::empty());
    } else {
        let c = u[0];
        let rest = u.drop_first();
        let es = vstd::utf8::encode_scalar(c as u32);
        lemma_scalar_bytes(c);
        lemma_scalar_equals(c);
        assert(utf8_encode(u) == es + utf8_encode(rest));
        assert(u.take(0) =~= Seq::<char>::empty());
        assert(utf8_encode(Seq::<char>::empty()) =~= Seq::<u8>::empty());
        if c == '=' {
            assert(utf8_encode(u)[0] == EQUALS);
            assert(u.skip(1) =~= rest);
            assert(utf8_encode(u).subrange(1, utf8_encode(u).len() as int) =~= utf8_encode(rest));
        } else {
            lemma_equals_encoded(rest);
            let k1 = equals_char_from(rest, 0);
            let e1 = equals_from(utf8_encode(rest), 0);
            assert forall|i: int| 0 <= i < es.len() implies utf8_encode(u)[i] != EQUALS by {
                assert(utf8_encode(u)[i] == es[i]);
            }
            lemma_equals_skip(utf8_encode(u), 0, es.len() as int);
            lemma_equals_shift(es, utf8_encode(rest), 0);
            assert(u =~= seq![c] + rest);
            lemma_equals_char_shift(seq![c], rest, 0);
            assert(equals_char_from(u, 0) == equals_char_from(u, 1));
            assert(u.take(1 + k1) =~= seq![c] + rest.take(k1));
            lemma_encode_concat(seq![c], rest.take(k1));
            lemma_encode_single(c);
            if k1 < rest.len() {
                assert(rest =~= rest.take(k1) + rest.skip(k1));
                lemma_encode_concat(rest.take(k1), rest.skip(k1));
                lemma_encode_nonempty(rest.skip(k1));
                assert(u.skip(1 + k1 + 1) =~= rest.skip(k1 + 1));
                assert(utf8_encode(u).subrange(es.len() + e1 + 1, utf8_encode(u).len() as int)
                    =~= utf8_encode(rest).subrange(e1 + 1, utf8_encode(rest).len() as int));
            }
        }
    }
}

} // verus!

verus! {

/// The first `=` at or after `i` is the first one the text holds from there.
proof fn lemma_equals_char_at(s: Seq<char>, i: int, m: int)
    requires
        0 <= i <= m <= s.len(),
        forall|j: int| i <= j < m ==> s[j] != '=',
        m == s.len() || s[m] == '=',
    ensures
        equals_char_from(s, i) == m,
    decreases m - i,
{
    if i < m {
        lemma_equals_char_at(s, i + 1, m);
    }
}

/// A flag written with its name and a value after `=` splits into that name and that
/// value, long with two dashes, short with one; written without `=` it has no value.
/// The name goes up to the first `=`, so the value may hold more of them.
#[verifier::spinoff_prover]
pub proof fn law_split_name_value(name: Seq<char>, value: Seq<char>, long: bool)
    requires
        name.len() > 0,
        !name.contains('='),
        !long ==> name[0] != '-',
    ensures
        ({
            let dashes = if long { seq!['-', '-'] } else { seq!['-'] };
            let ty = if long { ArgType::Long } else { ArgType::Short };
            &&& split_spec(utf8_encode(dashes + name + seq!['='] + value)) == Some(
                (ty, name, Some(ArgView::Word(utf8_encode(value)))),
            )
            &&& split_spec(utf8_encode(dashes + name)) == Some((ty, name, None::<ArgView>))
        }),
{
    let dashes = if long { seq!['-', '-'] } else { seq!['-'] };
    let start: int = if long { 2 } else { 1 };
    let s = dashes + name + seq!['='] + value;
    let t = dashes + name;
    law_split_fallback_agrees(s);
    law_split_fallback_agrees(t);
    let m = start + name.len();
    assert forall|j: int| 2 <= j < m implies s[j] != '=' && t[j] != '=' by {
        assert(s[j] == name[j - start]);
        assert(t[j] == name[j - start]);
        if name[j - start] == '=' {
            assert(name.contains('='));
        }
    }
    if !long {
        assert(s[1] == name[0]);
        assert(t[1] == name[0]);
    }
    assert(s[m] == '=');
    lemma_equals_char_at(s, 2, m);
    lemma_equals_char_at(t, 2, m);
    assert(s.subrange(start, m) =~= name);
    assert(t.subrange(start, m) =~= name);
    assert(s.subrange(m + 1, s.len() as int) =~= value);
}

/// Where the first `=` falls, relative to the end of the encoding: there is one exactly when
/// the text has one, and it is at the start exactly when the text starts with it.
proof fn lemma_equals_place(u: Seq<char>)
    ensures
        (equals_from(utf8_encode(u), 0) == utf8_encode(u).len()) == (equals_char_from(u, 0) == u.len()),
        (equals_from(utf8_encode(u), 0) == 0) == (equals_char_from(u, 0) == 0),
        utf8_encode(u).subrange(0, equals_from(utf8_encode(u), 0)) == utf8_encode(
            u.take(equals_char_from(u, 0)),
        ),
{
    lemma_equals_encoded(u);
    let k = equals_char_from(u, 0);
    assert(u =~= u.take(k) + u.skip(k));
    lemma_encode_concat(u.take(k), u.skip(k));
    lemma_encode_nonempty(u.skip(k));
    lemma_encode_nonempty(u.take(k));
    assert(utf8_encode(u).subrange(0, utf8_encode(u.take(k)).len() as int) =~= utf8_encode(u.take(k)));
}

/// Splitting the UTF-8 bytes of a text gives what splitting the text by characters gives.
pub proof fn law_split_fallback_agrees(s: Seq<char>)
    ensures
        split_spec(utf8_encode(s)) == split_fallback_spec(s),
{
    let b = utf8_encode(s);
    lemma_encode_nonempty(s);
    if s.len() == 0 {
        return;
    }
    let c0 = s[0];
    let t = s.drop_first();
    let e0 = vstd::utf8::encode_scalar(c0 as u32);
    lemma_scalar_bytes(c0);
    lemma_scalar_dash(c0);
    assert(b == e0 + utf8_encode(t));
    assert(b[0] == e0[0]);
    if c0 != '-' {
        return;
    }
    if s.len() == 1 {
        assert(t =~= Seq::<char>::empty());
        assert(utf8_encode(t) =~= Seq::<u8>::empty());
        return;
    }
    let c1 = s[1];
    let u = s.skip(2);
    let e1 = vstd::utf8::encode_scalar(c1 as u32);
    lemma_scalar_bytes(c1);
    lemma_scalar_dash(c1);
    lemma_scalar_equals(c1);
    assert(t[0] == c1);
    assert(t.drop_first() =~= u);
    assert(utf8_encode(t) == e1 + utf8_encode(u));
    let eu = utf8_encode(u);
    assert(b =~= seq![DASH] + e1 + eu);
    assert(b[1] == e1[0]);
    lemma_equals_place(u);
    lemma_equals_encoded(u);
    let k = equals_char_from(u, 0);
    let ee = equals_from(eu, 0);
    lemma_equals_from_bounds(eu, 0);
    if c1 == '-' {
        assert(b =~= seq![DASH, DASH] + eu);
        lemma_equals_shift(seq![DASH, DASH], eu, 0);
        assert(s =~= seq!['-', '-'] + u);
        lemma_equals_char_shift(seq!['-', '-'], u, 0);
        let e = equals_from(b, 2);
        assert(e == 2 + ee);
        assert(equals_char_from(s, 2) == 2 + k);
        assert(b.subrange(2, e) =~= eu.subrange(0, ee));
        assert(s.subrange(2, 2 + k) =~= u.take(k));
        lemma_decode_encoded(u.take(k));
        if k < u.len() {
            assert(b.subrange(e + 1, b.len() as int) =~= eu.subrange(ee + 1, eu.len() as int));
            assert(s.subrange(2 + k + 1, s.len() as int) =~= u.skip(k + 1));
        }
    } else {
        let p = seq![DASH] + e1;
        assert(b =~= p + eu);
        assert forall|i: int| 2 <= i < p.len() implies b[i] != EQUALS by {
            assert(b[i] == e1[i - 1]);
        }
        lemma_equals_skip(b, 2, p.len() as int);
        lemma_equals_shift(p, eu, 0);
        assert(s =~= seq!['-', c1] + u);
        lemma_equals_char_shift(seq!['-', c1], u, 0);
        let e = equals_from(b, 2);
        assert(e == p.len() + ee);
        assert(equals_char_from(s, 2) == 2 + k);
        assert(b.subrange(1, e) =~= e1 + eu.subrange(0, ee));
        assert(s.subrange(1, 2 + k) =~= seq![c1] + u.take(k));
        lemma_encode_concat(seq![c1], u.take(k));
        lemma_encode_single(c1);
        lemma_decode_encoded(s.subrange(1, 2 + k));
        if k < u.len() {
            assert(b.subrange(e + 1, b.len() as int) =~= eu.subrange(ee + 1, eu.len() as int));
            assert(s.subrange(2 + k + 1, s.len() as int) =~= u.skip(k + 1));
        }
    }
}

} // verus!
