//! The configuration's types.
use vstd::prelude::*;
use crate::text::{chars_of, string_of, push_str, str_eq, owned, opt_view, opt_str_views};
use crate::config::sources::Sources;

verus! {

/// How a path is made available inside the sandbox.
#[derive(Debug, Clone, Copy, PartialEq, Eq, Structural, Hash)]
pub enum BindMountOptions {
    ReadWrite,
    ReadOnly,
    Mask,
}

/// The error message for an unknown bind mount option.
pub open spec fn unknown_option_message(s: Seq<char>) -> Seq<char> {
    "Unknown bind mount option: '"@ + s + "'. Valid options are: rw, ro, mask"@
}

/// The bind mount option that a word names: empty or `rw`, `ro`, `mask`.
pub open spec fn option_named(s: Seq<char>) -> Option<BindMountOptions> {
    if s == ""@ || s == "rw"@ {
        Some(BindMountOptions::ReadWrite)
    } else if s == "ro"@ {
        Some(BindMountOptions::ReadOnly)
    } else if s == "mask"@ {
        Some(BindMountOptions::Mask)
    } else {
        None
    }
}

impl BindMountOptions {
    /// Reads a bind mount option: empty or `rw`, `ro`, `mask`.
    pub fn from_str(s: &str) -> (r: Result<BindMountOptions, String>)
        ensures
            match option_named(s@) {
                Some(o) => r == Ok::<BindMountOptions, String>(o),
                None => r matches Err(m) && m@ == unknown_option_message(s@),
            },
    {
        if str_eq(s, "") || str_eq(s, "rw") {
            Ok(BindMountOptions::ReadWrite)
        } else if str_eq(s, "ro") {
            Ok(BindMountOptions::ReadOnly)
        } else if str_eq(s, "mask") {
            Ok(BindMountOptions::Mask)
        } else {
            let mut m = chars_of("Unknown bind mount option: '");
            push_str(&mut m, s);
            push_str(&mut m, "'. Valid options are: rw, ro, mask");
            Err(string_of(&m))
        }
    }
}

/// A path made available inside the sandbox, as given by its argument
/// `source[:target[:options]]`.
#[derive(Debug, Clone, PartialEq, Eq, Hash)]
pub struct BindMount {
    pub source: String,
    pub target: String,
    pub options: BindMountOptions,
    pub argument: String,
}

impl BindMount {
    /// The bind mount as the user wrote it.
    pub fn to_string(&self) -> (r: String)
        ensures
            r@ == self.argument@,
    {
        owned(self.argument.as_str())
    }
}

/// Whether the sandbox has its own network or shares the host's.
#[derive(Debug, Clone, Copy, PartialEq, Eq, Structural)]
pub enum Network {
    NoNetwork,
    Host,
}

/// The lowercase form of a string, as `str::to_lowercase` gives it.
pub uninterp spec fn lowercase(s: Seq<char>) -> Seq<char>;

/// Calls `str::to_lowercase`, which maps each character to its Unicode lowercase form.
#[verifier::external_body]
pub(crate) fn to_lowercase(s: &str) -> (r: String)
    ensures
        r@ == lowercase(s@),
{
    s.to_lowercase()
}

/// The network that a word names, in any case.
pub open spec fn network_named(s: Seq<char>) -> Option<Network> {
    if lowercase(s) == "none"@ {
        Some(Network::NoNetwork)
    } else if lowercase(s) == "host"@ {
        Some(Network::Host)
    } else {
        None
    }
}

/// The error message for an unknown network type.
pub open spec fn invalid_network_message(s: Seq<char>) -> Seq<char> {
    "Invalid network type: "@ + s
}

/// The name of a network type.
pub open spec fn network_name(n: Network) -> Seq<char> {
    match n {
        Network::NoNetwork => "none"@,
        Network::Host => "host"@,
    }
}

impl Network {
    /// Reads a network type, `none` or `host` in any case.
    pub fn from_str(s: &str) -> (r: Result<Network, String>)
        ensures
            match network_named(s@) {
                Some(n) => r == Ok::<Network, String>(n),
                None => r matches Err(m) && m@ == invalid_network_message(s@),
            },
    {
        let lower = to_lowercase(s);
        if str_eq(lower.as_str(), "none") {
            Ok(Network::NoNetwork)
        } else if str_eq(lower.as_str(), "host") {
            Ok(Network::Host)
        } else {
            let mut m = chars_of("Invalid network type: ");
            push_str(&mut m, s);
            Err(string_of(&m))
        }
    }

    /// The name of the network type: `none` or `host`.
    pub fn to_string(&self) -> (r: String)
        ensures
            r@ == network_name(*self),
    {
        match self {
            Network::NoNetwork => owned("none"),
            Network::Host => owned("host"),
        }
    }
}

/// How much is logged, from nothing to everything.
#[derive(Debug, Clone, Copy, PartialEq, Eq, Structural)]
pub enum LogLevel {
    Off,
    Error,
    Warn,
    Info,
    Debug,
    Trace,
}

/// Folds an ASCII upper case letter to lower case; other characters stay.
pub open spec fn ascii_fold(c: char) -> int {
    if 'A' <= c && c <= 'Z' {
        (c as int) + 32
    } else {
        c as int
    }
}

/// Whether two strings are equal when ASCII letters are compared without case.
pub open spec fn eq_ignore_ascii_case(a: Seq<char>, b: Seq<char>) -> bool {
    a.len() == b.len() && forall|i: int| 0 <= i < a.len() ==> ascii_fold(a[i]) == ascii_fold(b[i])
}

/// The log level that a word names, with ASCII letters in any case.
pub open spec fn level_named(s: Seq<char>) -> Option<LogLevel> {
    if eq_ignore_ascii_case(s, "OFF"@) {
        Some(LogLevel::Off)
    } else if eq_ignore_ascii_case(s, "ERROR"@) {
        Some(LogLevel::Error)
    } else if eq_ignore_ascii_case(s, "WARN"@) {
        Some(LogLevel::Warn)
    } else if eq_ignore_ascii_case(s, "INFO"@) {
        Some(LogLevel::Info)
    } else if eq_ignore_ascii_case(s, "DEBUG"@) {
        Some(LogLevel::Debug)
    } else if eq_ignore_ascii_case(s, "TRACE"@) {
        Some(LogLevel::Trace)
    } else {
        None
    }
}

/// The name of a log level.
pub open spec fn level_name(l: LogLevel) -> Seq<char> {
    match l {
        LogLevel::Off => "OFF"@,
        LogLevel::Error => "ERROR"@,
        LogLevel::Warn => "WARN"@,
        LogLevel::Info => "INFO"@,
        LogLevel::Debug => "DEBUG"@,
        LogLevel::Trace => "TRACE"@,
    }
}

/// Calls `<log::LevelFilter as FromStr>::from_str`, which compares the word, ignoring ASCII
/// case, with `OFF`, `ERROR`, `WARN`, `INFO`, `DEBUG` and `TRACE`, and gives the level
/// of the first that is equal.
#[verifier::external_body]
pub(crate) fn parse_level_filter(s: &str) -> (r: Option<LogLevel>)
    ensures
        r == level_named(s@),
{
    match <log::LevelFilter as std::str::FromStr>::from_str(s) {
        Ok(log::LevelFilter::Off) => Some(LogLevel::Off),
        Ok(log::LevelFilter::Error) => Some(LogLevel::Error),
        Ok(log::LevelFilter::Warn) => Some(LogLevel::Warn),
        Ok(log::LevelFilter::Info) => Some(LogLevel::Info),
        Ok(log::LevelFilter::Debug) => Some(LogLevel::Debug),
        Ok(log::LevelFilter::Trace) => Some(LogLevel::Trace),
        Err(_) => None,
    }
}

impl LogLevel {
    /// Reads a log level name, with ASCII letters in any case.
    pub fn from_str(s: &str) -> (r: Option<LogLevel>)
        ensures
            r == level_named(s@),
    {
        parse_level_filter(s)
    }

    /// The upper case name of the level.
    pub fn as_str(&self) -> (r: String)
        ensures
            r@ == level_name(*self),
    {
        match self {
            LogLevel::Off => owned("OFF"),
            LogLevel::Error => owned("ERROR"),
            LogLevel::Warn => owned("WARN"),
            LogLevel::Info => owned("INFO"),
            LogLevel::Debug => owned("DEBUG"),
            LogLevel::Trace => owned("TRACE"),
        }
    }
}

/// Settings that a configuration file, the environment or the command line may give;
/// unset ones are `None`.
#[derive(Debug, Clone)]
pub struct PartialConfig {
    pub log_level: Option<LogLevel>,
    pub name: Option<String>,
    pub storage_dir: Option<String>,
    pub net: Option<Network>,
    pub ignored: Option<bool>,
    pub bind_mounts: Option<Vec<String>>,
    pub no_default_binds: Option<bool>,
}

/// The settings of a partial configuration, strings taken by their characters.
pub struct PartialConfigView {
    pub log_level: Option<LogLevel>,
    pub name: Option<Seq<char>>,
    pub storage_dir: Option<Seq<char>>,
    pub net: Option<Network>,
    pub ignored: Option<bool>,
    pub bind_mounts: Option<Seq<Seq<char>>>,
    pub no_default_binds: Option<bool>,
}

impl View for PartialConfig {
    type V = PartialConfigView;

    open spec fn view(&self) -> PartialConfigView {
        PartialConfigView {
            log_level: self.log_level,
            name: opt_view(self.name),
            storage_dir: opt_view(self.storage_dir),
            net: self.net,
            ignored: self.ignored,
            bind_mounts: opt_str_views(self.bind_mounts),
            no_default_binds: self.no_default_binds,
        }
    }
}

impl Default for PartialConfig {
    fn default() -> (r: PartialConfig)
        ensures
            r.log_level is None,
            r.name is None,
            r.storage_dir is None,
            r.net is None,
            r.ignored is None,
            r.bind_mounts is None,
            r.no_default_binds is None,
    {
        PartialConfig {
            log_level: None,
            name: None,
            storage_dir: None,
            net: None,
            ignored: None,
            bind_mounts: None,
            no_default_binds: None,
        }
    }
}

/// The configuration in force, every setting resolved.
#[derive(Debug, Clone)]
pub struct Config {
    pub log_level: LogLevel,
    pub name: String,
    pub storage_dir: String,
    pub sandbox_dir: String,
    pub upper_cwd: String,
    pub overlay_cwd: String,
    pub net: Network,
    pub sources: Sources,
    pub ignored: bool,
    pub bind_mounts: Vec<BindMount>,
    pub no_default_binds: bool,
    pub config_files: Vec<String>,
}

} // verus!
