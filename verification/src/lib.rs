use vstd::prelude::*;

pub mod arg;
pub mod args;
pub mod buffer;
pub mod complete_gen;
pub mod complete_run;
pub mod complete_shell;
pub mod config;
pub mod console;
pub mod error;
pub mod failure;
pub mod html;
pub mod info;
pub mod item;
pub mod manpage;
pub mod md_eval;
pub mod monoid;
pub mod params;
pub mod roff;
pub mod satis;
pub mod splitter;
pub mod text;

verus! {
} // verus!
