//! What the logger does with each message: lines are held back until the configured
//! level is known, then those at or above it are written.
use vstd::prelude::*;
use crate::text::{chars_of, string_of, owned, push_str};
use crate::config::structs::LogLevel;

verus! {

/// How much a level lets through: off lets nothing through, trace everything.
pub open spec fn level_rank(l: LogLevel) -> int {
    match l {
        LogLevel::Off => 0,
        LogLevel::Error => 1,
        LogLevel::Warn => 2,
        LogLevel::Info => 3,
        LogLevel::Debug => 4,
        LogLevel::Trace => 5,
    }
}

fn rank_of(l: LogLevel) -> (r: u8)
    ensures
        r == level_rank(l),
{
    match l {
        LogLevel::Off => 0,
        LogLevel::Error => 1,
        LogLevel::Warn => 2,
        LogLevel::Info => 3,
        LogLevel::Debug => 4,
        LogLevel::Trace => 5,
    }
}

/// Whether a message of level `message` passes the filter `filter`.
pub open spec fn passes(message: LogLevel, filter: LogLevel) -> bool {
    level_rank(message) <= level_rank(filter)
}

/// The logger's state: the level let through, the messages held back with their levels,
/// and whether messages are still held back.
pub struct LogState {
    pub level: LogLevel,
    pub deferred: Vec<(LogLevel, String)>,
    pub defer_output: bool,
}

/// The messages of `held` that pass `filter`, in order.
pub open spec fn passing(held: Seq<(LogLevel, String)>, filter: LogLevel) -> Seq<Seq<char>>
    decreases held.len(),
{
    if held.len() == 0 {
        seq![]
    } else {
        let before = passing(held.drop_last(), filter);
        if passes(held.last().0, filter) {
            before.push(held.last().1@)
        } else {
            before
        }
    }
}

/// How a level is shown at the start of a log line: its name, padded to five characters.
pub open spec fn level_label(l: LogLevel) -> Seq<char> {
    match l {
        LogLevel::Off => "OFF"@,
        LogLevel::Error => "ERROR"@,
        LogLevel::Warn => "WARN "@,
        LogLevel::Info => "INFO "@,
        LogLevel::Debug => "DEBUG"@,
        LogLevel::Trace => "TRACE"@,
    }
}

/// How a level is shown at the start of a log line.
pub fn level_label_of(l: LogLevel) -> (r: String)
    ensures
        r@ == level_label(l),
{
    match l {
        LogLevel::Off => owned("OFF"),
        LogLevel::Error => owned("ERROR"),
        LogLevel::Warn => owned("WARN "),
        LogLevel::Info => owned("INFO "),
        LogLevel::Debug => owned("DEBUG"),
        LogLevel::Trace => owned("TRACE"),
    }
}

/// A log line: `[<level>] <target>: <message>`, the level as `label` shows it.
pub open spec fn log_line(label: Seq<char>, target: Seq<char>, message: Seq<char>) -> Seq<char> {
    "["@ + label + "] "@ + target + ": "@ + message
}

/// A log line.
pub fn log_line_of(label: &str, target: &str, message: &str) -> (r: String)
    ensures
        r@ == log_line(label@, target@, message@),
{
    let mut m = chars_of("[");
    push_str(&mut m, label);
    push_str(&mut m, "] ");
    push_str(&mut m, target);
    push_str(&mut m, ": ");
    push_str(&mut m, message);
    string_of(&m)
}

impl LogState {
    /// A logger that lets `level` through and holds messages back until told to write
    /// them.
    pub fn new(level: LogLevel) -> (r: LogState)
        ensures
            r.level == level,
            r.deferred@.len() == 0,
            r.defer_output,
    {
        LogState { level, deferred: Vec::new(), defer_output: true }
    }

    /// Changes the level let through.
    pub fn set_level(&mut self, level: LogLevel)
        ensures
            final(self).level == level,
            final(self).deferred@ == old(self).deferred@,
            final(self).defer_output == old(self).defer_output,
    {
        self.level = level;
    }

    /// Whether a message of `level` is let through.
    pub fn enabled(&self, level: LogLevel) -> (r: bool)
        ensures
            r == passes(level, self.level),
    {
        rank_of(level) <= rank_of(self.level)
    }

    /// Takes a message: while messages are held back it is kept (whatever its level),
    /// otherwise it is given back to be written where its level is let through.
    pub fn log(&mut self, level: LogLevel, line: String) -> (r: Option<String>)
        ensures
            old(self).defer_output ==> r is None && final(self).deferred@ == old(self).deferred@.push((level, line)),
            !old(self).defer_output ==> final(self).deferred@ == old(self).deferred@ && (if passes(level, old(self).level) {
                r == Some(line)
            } else {
                r is None
            }),
            final(self).level == old(self).level,
            final(self).defer_output == old(self).defer_output,
    {
        if self.defer_output {
            self.deferred.push((level, line));
            None
        } else if rank_of(level) <= rank_of(self.level) {
            Some(line)
        } else {
            None
        }
    }

    /// Stops holding messages back and gives the held ones that the level lets through,
    /// in order.
    pub fn print_deferred(&mut self) -> (r: Vec<String>)
        ensures
            r@.map_values(|s: String| s@) == passing(old(self).deferred@, old(self).level),
            final(self).deferred@.len() == 0,
            !final(self).defer_output,
            final(self).level == old(self).level,
    {
        let mut held: Vec<(LogLevel, String)> = Vec::new();
        std::mem::swap(&mut held, &mut self.deferred);
        let ghost all = held@;
        let mut out: Vec<String> = Vec::new();
        let mut i: usize = 0;
        while i < held.len()
            invariant
                i <= held.len(),
                all == held@,
                out@.map_values(|s: String| s@) == passing(all.take(i as int), self.level),
            decreases held.len() - i,
        {
            assert(all.take(i + 1).drop_last() =~= all.take(i as int));
            assert(all.take(i + 1).last() == all[i as int]);
            if rank_of(held[i].0) <= rank_of(self.level) {
                let ghost before = out@;
                out.push(owned(held[i].1.as_str()));
                assert(out@.map_values(|s: String| s@) =~= before.map_values(|s: String| s@).push(held@[i as int].1@));
            }
            i = i + 1;
        }
        assert(all.take(held.len() as int) =~= all);
        self.defer_output = false;
        out
    }
}

} // verus!
