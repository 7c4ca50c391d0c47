//! The command line's settings and actions.
use vstd::prelude::*;
use crate::config::structs::{LogLevel, Network, level_named};
use crate::text::{chars_of, owned, string_of};

verus! {

/// What the command line asks for, besides running a command in the sandbox.
#[derive(Debug, Clone)]
pub enum Action {
    Config { keys: Option<Vec<String>> },
    List { patterns: Option<Vec<String>> },
    Status { patterns: Option<Vec<String>> },
    Diff { patterns: Option<Vec<String>> },
    Accept { patterns: Option<Vec<String>> },
    Reject { patterns: Option<Vec<String>> },
    Sync,
    Stop { all: bool, patterns: Option<Vec<String>> },
    Delete { yes: bool, patterns: Option<Vec<String>> },
}

/// The settings given on the command line.
#[derive(Debug, Clone)]
pub struct Args {
    pub log_level: Option<LogLevel>,
    pub name: Option<String>,
    pub new: bool,
    pub last: bool,
    pub storage_dir: Option<String>,
    pub net: Option<Network>,
    pub bind: Option<Vec<String>>,
    pub mask: Option<Vec<String>>,
    pub no_default_binds: bool,
    pub json: bool,
    pub no_config: bool,
    pub ignored: bool,
    pub action: Option<Action>,
    pub sandboxed_command: Option<Vec<String>>,
}

/// The message given for a log level that does not parse.
pub open spec fn level_parse_message() -> Seq<char> {
    "attempted to convert a string that doesn't match an existing log level"@
}

/// Reads a `--log-level` value.
pub fn parse_log_level(s: &str) -> (r: Result<LogLevel, String>)
    ensures
        match level_named(s@) {
            Some(l) => r == Ok::<LogLevel, String>(l),
            None => r matches Err(m) && m@ == level_parse_message(),
        },
{
    match LogLevel::from_str(s) {
        Some(l) => Ok(l),
        None => Err(owned("attempted to convert a string that doesn't match an existing log level")),
    }
}

/// Whether the first trailing argument looks like an unknown option: it starts with `-`
/// and is not `--`.
pub open spec fn looks_like_option(s: Seq<char>) -> bool {
    s.len() > 0 && s[0] == '-' && s != "--"@
}

/// Checks a trailing argument of the sandboxed command; `position` counts the trailing
/// arguments seen so far, this one included. Only the first may not look like an
/// option, since an unknown option would otherwise be taken for the command.
pub fn validate_command(position: usize, s: &str) -> (r: Result<String, String>)
    ensures
        (position == 1 && looks_like_option(s@)) ==> (r matches Err(m) && m@ == "Unknown option"@),
        !(position == 1 && looks_like_option(s@)) ==> (r matches Ok(v) && v@ == s@),
{
    let c = chars_of(s);
    let dashdash = chars_of("--");
    let is_dashdash = crate::text::chars_eq(&c, &dashdash);
    if position == 1 && c.len() > 0 && c[0] == '-' && !is_dashdash {
        Err(owned("Unknown option"))
    } else {
        Ok(string_of(&c))
    }
}

} // verus!
