//! Arguments that drive shell completion: a request for the completion script of a shell,
//! and the output revision a running completion asks for.

use crate::complete_gen::Complete;
use crate::md_eval::types::{parse_usize, parse_usize_exec};
use crate::text::{bytes_str, chars_string, push_str_chars, starts_with, str_chars, utf8_decode};
use vstd::prelude::*;

verus! {

/// Shell whose completion script is asked for
#[derive(Debug, Clone, Copy, Eq, PartialEq, Structural)]
pub enum CompleterStyle {
    Zsh,
    Bash,
    Fish,
    Elvish,
}

/// Bash script text before the program name
pub const BASH_HEAD: &'static str = r#"_bpaf_dynamic_completion()
{
    line="$1 --bpaf-complete-rev=8 ${COMP_WORDS[@]:1}"
    if [[ ${COMP_WORDS[-1]} == "" ]]; then
        line="${line} \"\""
    fi
    source <( eval ${line})
}
complete -o nosort -F _bpaf_dynamic_completion "#;

/// Zsh script text after the program name
pub const ZSH_TAIL: &'static str = r#"
local line
line="${words[1]} --bpaf-complete-rev=7 ${words[@]:1}"
if [[ ${words[-1]} == "" ]]; then
    line="${line} \"\""
fi
source <(eval ${line})

"#;

/// Fish script text before the program name
pub const FISH_HEAD: &'static str = r#"function _bpaf_dynamic_completion
    set -l current (commandline --tokenize --current-process)
    set -l tmpline --bpaf-complete-rev=9 $current[2..]
    if test (commandline --current-process) != (string trim (commandline --current-process))
        set tmpline $tmpline ""
    end
    eval $current[1] \"$tmpline\"
end

complete --no-files --command "#;

/// Fish script text after the program name
pub const FISH_TAIL: &'static str = r#" --arguments '(_bpaf_dynamic_completion)'

"#;

/// Elvish script text before the first use of the program name
pub const ELVISH_HEAD: &'static str = "set edit:completion:arg-completer[";

/// Elvish script text between the two uses of the program name
pub const ELVISH_MID: &'static str = "] = { |@args| var args = $args[1..];
     var @lines = ( ";

/// Elvish script text after the program name
pub const ELVISH_TAIL: &'static str = r#" --bpaf-complete-rev=1 $@args );
     use str;
     for line $lines {
         var @arg = (str:split "\t" $line)
         try {
             edit:complex-candidate $arg[0] &display=( printf "%-19s %s" $arg[0] $arg[1] )
         } catch {
             edit:complex-candidate $line
         }
     }
}
"#;

/// The completion script for a shell that makes it ask the program `name` for completions,
/// with the line break it is printed with.
pub open spec fn completer_text(style: CompleterStyle, name: Seq<char>) -> Seq<char> {
    match style {
        CompleterStyle::Bash => BASH_HEAD@ + name + "\n"@,
        CompleterStyle::Zsh => "#compdef "@ + name + ZSH_TAIL@,
        CompleterStyle::Fish => FISH_HEAD@ + name + FISH_TAIL@,
        CompleterStyle::Elvish => ELVISH_HEAD@ + name + ELVISH_MID@ + name + ELVISH_TAIL@,
    }
}

/// The completion script for a shell, to be printed as it is
pub fn completer_script(style: CompleterStyle, name: &str) -> (r: String)
    ensures
        r@ == completer_text(style, name@),
{
    let mut v: Vec<char> = Vec::new();
    match style {
        CompleterStyle::Bash => {
            push_str_chars(&mut v, BASH_HEAD);
            push_str_chars(&mut v, name);
            push_str_chars(&mut v, "\n");
        },
        CompleterStyle::Zsh => {
            push_str_chars(&mut v, "#compdef ");
            push_str_chars(&mut v, name);
            push_str_chars(&mut v, ZSH_TAIL);
        },
        CompleterStyle::Fish => {
            push_str_chars(&mut v, FISH_HEAD);
            push_str_chars(&mut v, name);
            push_str_chars(&mut v, FISH_TAIL);
        },
        CompleterStyle::Elvish => {
            push_str_chars(&mut v, ELVISH_HEAD);
            push_str_chars(&mut v, name);
            push_str_chars(&mut v, ELVISH_MID);
            push_str_chars(&mut v, name);
            push_str_chars(&mut v, ELVISH_TAIL);
        },
    }
    chars_string(&v)
}

/// Flag that asks for the completion script of a shell, if it is one.
pub open spec fn style_flag(s: Seq<char>) -> Option<CompleterStyle> {
    if s == "--bpaf-complete-style-zsh"@ {
        Some(CompleterStyle::Zsh)
    } else if s == "--bpaf-complete-style-bash"@ {
        Some(CompleterStyle::Bash)
    } else if s == "--bpaf-complete-style-fish"@ {
        Some(CompleterStyle::Fish)
    } else if s == "--bpaf-complete-style-elvish"@ {
        Some(CompleterStyle::Elvish)
    } else {
        None
    }
}

/// Prefix of the flag that sets the output revision of completions
pub const REV_FLAG: &'static str = "--bpaf-complete-rev=";

/// What an argument means to the completion machinery
#[derive(Debug, Clone, Copy, Eq, PartialEq, Structural)]
pub enum Scanned {
    /// An ordinary argument
    Kept,
    /// A revision flag, consumed
    Consumed,
    /// A request to print the completion script of a shell and stop
    Dump(CompleterStyle),
}

/// What an argument means, and the revision after it: a request for a completion script
/// counts only for a program with a name; a revision flag is consumed whether or not its
/// number reads.
pub open spec fn scan_spec(revision: Option<usize>, name: Option<Seq<char>>, arg: Seq<u8>) -> (
    Scanned,
    Option<usize>,
) {
    match utf8_decode(arg) {
        None => (Scanned::Kept, revision),
        Some(s) => if name is Some && style_flag(s) is Some {
            (Scanned::Dump(style_flag(s)->0), revision)
        } else if starts_with(s, REV_FLAG@) {
            (
                Scanned::Consumed,
                match parse_usize(s.skip(REV_FLAG@.len() as int)) {
                    Some(v) => Some(v),
                    None => revision,
                },
            )
        } else {
            (Scanned::Kept, revision)
        },
    }
}

fn chars_are(v: &Vec<char>, s: &str) -> (r: bool)
    ensures
        r == (v@ == s@),
{
    let w = str_chars(s);
    crate::text::chars_eq(v, &w)
}

fn style_flag_exec(v: &Vec<char>) -> (r: Option<CompleterStyle>)
    ensures
        r == style_flag(v@),
{
    if chars_are(v, "--bpaf-complete-style-zsh") {
        Some(CompleterStyle::Zsh)
    } else if chars_are(v, "--bpaf-complete-style-bash") {
        Some(CompleterStyle::Bash)
    } else if chars_are(v, "--bpaf-complete-style-fish") {
        Some(CompleterStyle::Fish)
    } else if chars_are(v, "--bpaf-complete-style-elvish") {
        Some(CompleterStyle::Elvish)
    } else {
        None
    }
}

/// Looks at the arguments for the ones that drive completion
#[derive(Debug)]
pub struct ArgScanner<'a> {
    pub revision: Option<usize>,
    pub name: Option<&'a str>,
}

/// The characters of an optional name.
pub open spec fn name_view(n: Option<&str>) -> Option<Seq<char>> {
    match n {
        Some(s) => Some(s@),
        None => None,
    }
}

impl ArgScanner<'_> {
    /// What the next argument means to completion; a revision flag sets the revision
    pub fn check_next(&mut self, arg: &[u8]) -> (r: Scanned)
        ensures
            (r, final(self).revision) == scan_spec(old(self).revision, name_view(old(self).name), arg@),
            final(self).name == old(self).name,
    {
        let s = match bytes_str(arg) {
            Some(s) => s,
            None => {
                return Scanned::Kept;
            },
        };
        let v = str_chars(s.as_str());
        // this only works when there's a name
        if self.name.is_some() {
            if let Some(style) = style_flag_exec(&v) {
                return Scanned::Dump(style);
            }
        }
        let prefix = str_chars(REV_FLAG);
        if crate::text::chars_prefix(&prefix, &v) {
            let rest = crate::text::chars_skip(&v, prefix.len());
            let rest_s = chars_string(&rest);
            if let Some(ver) = parse_usize_exec(rest_s.as_str()) {
                self.revision = Some(ver);
            }
            return Scanned::Consumed;
        }
        Scanned::Kept
    }

    /// Completion state for the revision that was asked for, if any
    pub fn done(&self) -> (r: Option<Complete>)
        ensures
            r is Some <==> self.revision is Some,
            r matches Some(c) ==> c.comps() == Seq::<crate::complete_gen::Comp>::empty()
                && Some(c.rev()) == self.revision && !c.pos_ahead_blocked(),
    {
        match self.revision {
            Some(rev) => Some(Complete::new(rev)),
            None => None,
        }
    }
}

} // verus!
