//! Items a parser consumes, as error messages name them.

use crate::complete_gen::ShortLong;
use vstd::prelude::*;

verus! {

/// A command line item a parser expects: what an error message shows of it
#[derive(Debug)]
pub enum Item {
    /// Positional item, `FILE`; a strict one must come after `--`
    Positional { metavar: &'static str, strict: bool },
    /// Subcommand with its name and an optional short alias
    Command { name: &'static str, short: Option<char> },
    /// Flag, `-v` or `--verbose`
    Flag { name: ShortLong },
    /// Named argument with a metavariable for its value, `--file=FILE`
    Argument { name: ShortLong, metavar: &'static str },
}

/// A copy of a name.
pub fn copy_shortlong(n: &ShortLong) -> (r: ShortLong)
    ensures
        r == *n,
{
    match n {
        ShortLong::Short(c) => ShortLong::Short(*c),
        ShortLong::Long(l) => ShortLong::Long(l.clone()),
        ShortLong::Both(c, l) => ShortLong::Both(*c, l.clone()),
    }
}

impl Item {
    /// A copy of the item
    pub fn duplicate(&self) -> (r: Item)
        ensures
            r == *self,
    {
        match self {
            Item::Positional { metavar, strict } => Item::Positional { metavar, strict: *strict },
            Item::Command { name, short } => Item::Command { name, short: *short },
            Item::Flag { name } => Item::Flag { name: copy_shortlong(name) },
            Item::Argument { name, metavar } => Item::Argument { name: copy_shortlong(name), metavar },
        }
    }

    /// Whether the item is a subcommand
    pub fn is_command(&self) -> (r: bool)
        ensures
            r == (*self is Command),
    {
        matches!(self, Item::Command { .. })
    }
}

} // verus!
