//! Deleting sandboxes: how each one is shown before asking, and reading the answer.
use vstd::prelude::*;
use crate::text::{chars_of, trim, trimmed};

verus! {

/// The color a sandbox is shown in before it is deleted.
#[derive(Debug, Clone, Copy, PartialEq, Eq, Structural)]
pub enum DeleteColor {
    /// It holds changes that would be lost.
    Red,
    /// It is running and holds no changes.
    Green,
    /// It is stopped and holds no changes.
    White,
}

/// The color a sandbox is shown in: red where it holds changes that are not ignored,
/// else green while it runs and white when stopped.
pub open spec fn delete_color_of(not_ignored: usize, stopped: bool) -> DeleteColor {
    if not_ignored > 0 {
        DeleteColor::Red
    } else if !stopped {
        DeleteColor::Green
    } else {
        DeleteColor::White
    }
}

/// The color a sandbox is shown in before it is deleted.
pub fn delete_color(not_ignored: usize, stopped: bool) -> (r: DeleteColor)
    ensures
        r == delete_color_of(not_ignored, stopped),
{
    if not_ignored > 0 {
        DeleteColor::Red
    } else if !stopped {
        DeleteColor::Green
    } else {
        DeleteColor::White
    }
}

/// Whether an answer confirms: `y` in either case, with surrounding whitespace ignored.
pub open spec fn confirms(answer: Seq<char>) -> bool {
    let t = trimmed(answer);
    t.len() == 1 && (t[0] == 'y' || t[0] == 'Y')
}

/// Whether the answer to the confirmation question is yes.
pub fn is_confirmed(answer: &str) -> (r: bool)
    ensures
        r == confirms(answer@),
{
    let t = trim(&chars_of(answer));
    t.len() == 1 && (t[0] == 'y' || t[0] == 'Y')
}

} // verus!
