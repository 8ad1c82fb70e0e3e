//! Outcomes of unsuccessful parsing: the internal messages parsers fail with, how two of them
//! combine, and the final failure that is shown to the user.

use crate::buffer::{Doc, Style};
use crate::complete_gen::ShortLong;
use crate::console::{console_of, paint, Color, MAX_WIDTH};
use crate::item::Item;
use crate::text::{chars_string, push_chars, push_str_chars, str_chars};
use std::ops::Range;
use vstd::prelude::*;

verus! {

/// Unsuccessful command line parsing outcome, internal representation
#[derive(Debug)]
pub struct Error(pub Message);

/// Why a parser failed
#[derive(Debug)]
pub enum Message {
    // those can be caught ---------------------------------------------------------------
    /// Tried to consume an env variable with no fallback, variable was not set
    NoEnv(&'static str),
    /// User specified an error message on some
    ParseSome(&'static str),
    /// User asked for parser to fail explicitly
    ParseFail(&'static str),
    /// pure_with failed to parse a value
    PureFailed(String),
    /// Expected one of those values
    ///
    /// Used internally to generate better error messages
    Missing(Vec<MissingItem>),
    // those cannot be caught-------------------------------------------------------------
    /// Parsing failed and this is the final output
    ParseFailure(ParseFailure),
    /// Tried to consume a strict positional argument, value was present but was not strictly
    /// positional; the metavariable of the argument is given
    StrictPos(usize, &'static str),
    /// Tried to consume a non-strict positional argument, but the value was strict
    NonStrictPos(usize, &'static str),
    /// Parser provided by user failed to parse a value
    ParseFailed(Option<usize>, String),
    /// Parser provided by user failed to validate a value
    GuardFailed(Option<usize>, &'static str),
    /// Argument requires a value but something else was passed,
    /// required: --foo <BAR>
    /// given: --foo --bar
    ///        --foo -- bar
    ///        --foo
    NoArgument(usize, &'static str),
    /// Parser is expected to consume all the things from the command line
    /// this item will contain an index of the unconsumed value
    Unconsumed(usize),
    /// argument is ambiguous - parser can accept it as both a set of flags and a short flag with no =
    Ambiguity(usize, String),
    /// Suggested fixes for typos or missing input
    Suggestion(usize, Suggestion),
    /// Two arguments are mutually exclusive
    /// --release --dev
    Conflict(usize, usize),
    /// Expected one or more items in the scope, got something else if any
    Expected(Vec<Item>, Option<usize>),
    /// Parameter is accepted but only once
    OnlyOnce(usize, usize),
}

/// A name that a mistyped item could have meant
#[derive(Debug)]
pub enum Variant {
    /// A subcommand
    CommandLong(&'static str),
    /// A flag
    Flag(ShortLong),
}

/// A fix for a mistyped or misplaced item
#[derive(Debug)]
pub enum Suggestion {
    /// The item is close to this name
    Variant(Variant),
    /// A long flag written with one dash
    MissingDash(String),
    /// A short flag written with two dashes
    ExtraDash(char),
    /// The item belongs to the named subcommand
    Nested(String, Variant),
}

/// Missing item in a context
#[derive(Debug)]
pub struct MissingItem {
    /// Item that is missing
    pub item: Item,
    /// Position it is missing from - exact for positionals, earliest possible for flags
    pub position: usize,
    /// Range where search was performed, important for combinators that narrow the search scope
    /// such as adjacent
    pub scope: Range<usize>,
}

impl Clone for MissingItem {
    fn clone(&self) -> (r: Self)
        ensures
            r == *self,
    {
        MissingItem {
            item: self.item.duplicate(),
            position: self.position,
            scope: Range { start: self.scope.start, end: self.scope.end },
        }
    }
}

/// Messages a parser combinator may recover from; the rest end parsing.
pub open spec fn catchable(m: &Message) -> bool {
    match m {
        Message::NoEnv(_) | Message::ParseSome(_) | Message::ParseFail(_) | Message::Missing(_)
        | Message::PureFailed(_) | Message::NonStrictPos(_, _) => true,
        _ => false,
    }
}

impl Message {
    /// Whether a combinator may recover from this message
    pub fn can_catch(&self) -> (r: bool)
        ensures
            r == catchable(self),
    {
        match self {
            Message::NoEnv(_)
            | Message::ParseSome(_)
            | Message::ParseFail(_)
            | Message::Missing(_)
            | Message::PureFailed(_)
            | Message::NonStrictPos(_, _) => true,
            Message::StrictPos(_, _)
            | Message::ParseFailed(_, _)
            | Message::GuardFailed(_, _)
            | Message::Unconsumed(_)
            | Message::Ambiguity(_, _)
            | Message::Suggestion(_, _)
            | Message::Expected(_, _)
            | Message::Conflict(_, _)
            | Message::ParseFailure(_)
            | Message::OnlyOnce(_, _)
            | Message::NoArgument(_, _) => false,
        }
    }

    /// Message of two alternatives that both failed: a final failure (help output) takes
    /// priority, missing items are put together, otherwise the earliest message that cannot
    /// be caught wins
    pub fn combine_with(self, other: Self) -> (r: Self)
        ensures
            combined(self, other, r),
    {
        match (self, other) {
            // help output takes priority
            (a @ Message::ParseFailure(_), _) => a,
            (_, b @ Message::ParseFailure(_)) => b,
            // combine missing elements
            (Message::Missing(mut a), Message::Missing(mut b)) => {
                a.append(&mut b);
                Message::Missing(a)
            },
            // otherwise earliest wins
            (a, b) => {
                if a.can_catch() {
                    b
                } else {
                    a
                }
            },
        }
    }
}

/// `r` is what combining `a` with `b` gives.
pub open spec fn combined(a: Message, b: Message, r: Message) -> bool {
    if a is ParseFailure {
        r == a
    } else if b is ParseFailure {
        r == b
    } else if a is Missing && b is Missing {
        r matches Message::Missing(zs) && zs@ == a->Missing_0@ + b->Missing_0@
    } else if catchable(&a) {
        r == b
    } else {
        r == a
    }
}

impl Error {
    /// Failure of two alternatives, see [`Message::combine_with`]
    pub fn combine_with(self, other: Self) -> (r: Self)
        ensures
            combined(self.0, other.0, r.0),
    {
        Error(self.0.combine_with(other.0))
    }
}

/// A failure that is final is kept by any combination, whichever side it comes from: the one
/// on the left when both are final.
pub proof fn law_final_failure_wins(a: Message, b: Message, r: Message)
    requires
        combined(a, b, r),
        a is ParseFailure || b is ParseFailure,
    ensures
        r is ParseFailure,
        a is ParseFailure ==> r == a,
        !(a is ParseFailure) ==> r == b,
{
}

/// A message that cannot be caught is never replaced by a later one that is not final.
pub proof fn law_uncatchable_sticks(a: Message, b: Message, r: Message)
    requires
        combined(a, b, r),
        !catchable(&a),
        !(b is ParseFailure),
    ensures
        r == a,
{
}

/// Unsuccessful command line parsing outcome, use it for unit tests
///
/// `Stdout` contains formatted output, `Completion` should be printed to stdout unchanged -
/// shell completion mechanism relies on that. In both cases application should exit with
/// error code of 0. `Stderr` indicates a genuine parsing error which should be printed to
/// stderr and the app should exit with error code of 1.
#[derive(Clone, Debug)]
pub enum ParseFailure {
    /// Print this to stdout and exit with success code
    Stdout(Doc, bool),
    /// This also goes to stdout with exit code of 0,
    /// this cannot be Doc because completion needs more control about rendering
    Completion(String),
    /// Print this to stderr and exit with failure code
    Stderr(Doc),
}

/// Monochrome rendering of a document, as [`Doc::monochrome`] produces it.
pub open spec fn mono_text(doc: Doc, full: bool) -> Seq<char> {
    console_of(doc.tokens(), doc.payload(), full, Color::Monochrome, MAX_WIDTH).res
}

/// A document can be rendered with these settings.
pub open spec fn renders(doc: Doc, full: bool, color: Color, max_width: usize) -> bool {
    doc.wf() && !console_of(doc.tokens(), doc.payload(), full, color, max_width).fail
}

/// Text of a failure when printed: whether it goes to stderr, and the characters written.
pub open spec fn message_of(f: ParseFailure, max_width: usize, color: Color) -> (bool, Seq<char>) {
    match f {
        ParseFailure::Stdout(doc, full) => (
            false,
            console_of(doc.tokens(), doc.payload(), full, color, max_width).res.push('\n'),
        ),
        ParseFailure::Completion(s) => (false, s@),
        ParseFailure::Stderr(doc) => (
            true,
            paint(color, Style::Invalid, "Error: "@) + console_of(
                doc.tokens(),
                doc.payload(),
                true,
                color,
                max_width,
            ).res.push('\n'),
        ),
    }
}

/// The failure can be printed with these settings.
pub open spec fn printable(f: ParseFailure, max_width: usize, color: Color) -> bool {
    match f {
        ParseFailure::Stdout(doc, full) => renders(doc, full, color, max_width),
        ParseFailure::Completion(_) => true,
        ParseFailure::Stderr(doc) => renders(doc, true, color, max_width),
    }
}

impl ParseFailure {
    /// Returns the contained `stderr` values - for unit tests
    pub fn unwrap_stderr(self) -> (s: String)
        requires
            self matches ParseFailure::Stderr(doc) && renders(doc, true, Color::Monochrome, MAX_WIDTH),
        ensures
            self matches ParseFailure::Stderr(doc) && s@ == mono_text(doc, true),
    {
        match self {
            Self::Stderr(err) => err.monochrome(true),
            _ => String::new(),
        }
    }

    /// Returns the contained `stdout` values - for unit tests
    pub fn unwrap_stdout(self) -> (s: String)
        requires
            !(self is Stderr),
            self matches ParseFailure::Stdout(doc, full) ==> renders(doc, full, Color::Monochrome, MAX_WIDTH),
        ensures
            self matches ParseFailure::Stdout(doc, full) ==> s@ == mono_text(doc, full),
            self matches ParseFailure::Completion(c) ==> s@ == c@,
    {
        match self {
            Self::Stdout(err, full) => err.monochrome(full),
            Self::Completion(s) => s,
            Self::Stderr(..) => String::new(),
        }
    }

    /// Returns the exit code for the failure
    pub fn exit_code(self) -> (code: i32)
        ensures
            code == exit_code_of(self),
    {
        match self {
            Self::Stdout(..) | Self::Completion(..) => 0,
            Self::Stderr(..) => 1,
        }
    }

    /// The message to print for the failure with the given color mode: `true` when it goes to
    /// stderr, and the text
    pub fn message(&self, max_width: usize, color: Color) -> (r: (bool, String))
        requires
            printable(*self, max_width, color),
        ensures
            (r.0, r.1@) == message_of(*self, max_width, color),
    {
        match self {
            ParseFailure::Stdout(msg, full) => {
                let text = msg.render_console(*full, color, max_width);
                let mut v = str_chars(text.as_str());
                v.push('\n');
                (false, chars_string(&v))
            },
            ParseFailure::Completion(s) => (false, s.clone()),
            ParseFailure::Stderr(msg) => {
                let mut error = String::new();
                color.push_str(Style::Invalid, &mut error, "Error: ");
                let text = msg.render_console(true, color, max_width);
                let mut v = str_chars(error.as_str());
                push_str_chars(&mut v, text.as_str());
                v.push('\n');
                (true, chars_string(&v))
            },
        }
    }

    /// The message to print for the failure, colored if the terminal supports it: `true` when
    /// it goes to stderr, and the text
    pub fn print_mesage(&self, max_width: usize) -> (r: (bool, String))
        requires
            printable(*self, max_width, Color::Dull),
            printable(*self, max_width, Color::Monochrome),
        ensures
            (r.0, r.1@) == message_of(*self, max_width, Color::Dull) || (r.0, r.1@) == message_of(
                *self,
                max_width,
                Color::Monochrome,
            ),
    {
        let color = Color::default();
        self.message(max_width, color)
    }
}

/// Exit code of a failure.
pub open spec fn exit_code_of(f: ParseFailure) -> i32 {
    if f is Stderr {
        1
    } else {
        0
    }
}

/// A failure goes to stderr exactly when the application exits with code 1: output and
/// completions go to stdout with code 0.
pub proof fn law_stderr_iff_failing_exit(f: ParseFailure, max_width: usize, color: Color)
    ensures
        message_of(f, max_width, color).0 == (exit_code_of(f) == 1),
        exit_code_of(f) == 0 || exit_code_of(f) == 1,
{
}

} // verus!
