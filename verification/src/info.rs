//! Information attached to a ready to run parser: version, description, header, footer and
//! a custom usage line.

use vstd::prelude::*;

verus! {

/// Information about the parser
#[derive(Debug, Clone)]
pub struct Info {
    /// version field, printed for `--version`
    pub version: Option<&'static str>,
    /// Custom description field, printed above the usage line
    pub descr: Option<&'static str>,
    /// Custom header field, printed between the usage line and the list of options
    pub header: Option<&'static str>,
    /// Custom footer field, printed after the list of options
    pub footer: Option<&'static str>,
    /// Custom usage field, replaces the generated usage line
    pub usage: Option<&'static str>,
}

impl Default for Info {
    fn default() -> (r: Info)
        ensures
            r.version is None,
            r.descr is None,
            r.header is None,
            r.footer is None,
            r.usage is None,
    {
        Info { version: None, descr: None, header: None, footer: None, usage: None }
    }
}

} // verus!
