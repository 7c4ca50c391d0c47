//! Running a command inside a sandbox: which namespaces are joined, what the command
//! is handed, and how its end is passed on.
use vstd::prelude::*;
use crate::text::{chars_of, string_of, push_str, str_views};
use crate::sandbox::sandbox_struct::{
    CLONE_NEWNS, CLONE_NEWPID, CLONE_NEWIPC, CLONE_NEWNET, CLONE_NEWCGROUP, CLONE_NEWUTS,
};

verus! {

/// The namespaces a command joins: those of the sandbox's first process.
pub open spec fn exec_namespaces() -> u64 {
    CLONE_NEWNS | CLONE_NEWPID | CLONE_NEWIPC | CLONE_NEWNET | CLONE_NEWCGROUP | CLONE_NEWUTS
}

/// The namespaces a command joins.
pub fn exec_namespace_flags() -> (r: u64)
    ensures
        r == exec_namespaces(),
{
    CLONE_NEWNS | CLONE_NEWPID | CLONE_NEWIPC | CLONE_NEWNET | CLONE_NEWCGROUP | CLONE_NEWUTS
}

/// The environment entries handed to the command: `key=value` for each variable, with
/// `SANDBOX` and `SANDBOX_STORAGE_DIR` set to the sandbox's name and data directory.
pub open spec fn environment_entry(key: Seq<char>, value: Seq<char>) -> Seq<char> {
    key + "="@ + value
}

/// An environment entry `key=value`.
pub fn environment_entry_of(key: &str, value: &str) -> (r: String)
    ensures
        r@ == environment_entry(key@, value@),
{
    let mut m = chars_of(key);
    push_str(&mut m, "=");
    push_str(&mut m, value);
    string_of(&m)
}

/// How a command's process ended, as waiting for it reports.
#[derive(Debug, Clone, Copy, PartialEq, Eq, Structural)]
pub enum WaitEvent {
    /// It exited with this code.
    Exited(i32),
    /// A signal with this number ended it.
    Signaled(i32),
    /// Anything else: it is still running, or stopped.
    Other,
}

/// What the waiting process does next.
#[derive(Debug, Clone, Copy, PartialEq, Eq, Structural)]
pub enum WaitAction {
    /// Exit with the command's code.
    Exit(i32),
    /// Send itself the signal that ended the command, so its caller sees it too.
    RaiseSignal(i32),
    /// Keep waiting.
    KeepWaiting,
}

/// What the waiting process does once waiting reports `e`.
pub open spec fn after_wait(e: WaitEvent) -> WaitAction {
    match e {
        WaitEvent::Exited(c) => WaitAction::Exit(c),
        WaitEvent::Signaled(s) => WaitAction::RaiseSignal(s),
        WaitEvent::Other => WaitAction::KeepWaiting,
    }
}

/// What the waiting process does once waiting reports `e`.
pub fn on_wait(e: WaitEvent) -> (r: WaitAction)
    ensures
        r == after_wait(e),
{
    match e {
        WaitEvent::Exited(c) => WaitAction::Exit(c),
        WaitEvent::Signaled(s) => WaitAction::RaiseSignal(s),
        WaitEvent::Other => WaitAction::KeepWaiting,
    }
}

/// Words joined with single spaces.
pub open spec fn space_joined(words: Seq<Seq<char>>) -> Seq<char>
    decreases words.len(),
{
    if words.len() == 0 {
        seq![]
    } else if words.len() == 1 {
        words[0]
    } else {
        space_joined(words.drop_last()) + " "@ + words.last()
    }
}

/// The message when a command cannot be started: the command line, the directory it
/// was to run in, and the reason.
pub open spec fn exec_failure(command: Seq<Seq<char>>, cwd: Seq<char>, reason: Seq<char>) -> Seq<char> {
    "Failed to execute command "@ + space_joined(command) + " [cwd="@ + cwd + "]: "@ + reason
}

/// The message when a command cannot be started.
pub fn exec_failure_message(command: &Vec<String>, cwd: &str, reason: &str) -> (r: String)
    ensures
        r@ == exec_failure(str_views(command@), cwd@, reason@),
{
    let ghost cv = str_views(command@);
    let mut line: Vec<char> = Vec::new();
    let mut i: usize = 0;
    while i < command.len()
        invariant
            i <= command.len(),
            cv == str_views(command@),
            line@ == space_joined(cv.take(i as int)),
        decreases command.len() - i,
    {
        assert(cv.take(i + 1).drop_last() =~= cv.take(i as int));
        assert(cv[i as int] == command@[i as int]@);
        if i > 0 {
            line.push(' ');
        }
        push_str(&mut line, command[i].as_str());
        proof {
            reveal_strlit(" ");
            if i == 0 {
                assert(line@ =~= cv.take(1)[0]);
            } else {
                assert(line@ =~= space_joined(cv.take(i as int)) + " "@ + cv[i as int]);
            }
        }
        i = i + 1;
    }
    assert(cv.take(command.len() as int) =~= cv);
    let mut m = chars_of("Failed to execute command ");
    crate::text::push_all(&mut m, &line);
    push_str(&mut m, " [cwd=");
    push_str(&mut m, cwd);
    push_str(&mut m, "]: ");
    push_str(&mut m, reason);
    string_of(&m)
}

} // verus!
