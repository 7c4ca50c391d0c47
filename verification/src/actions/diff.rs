//! Showing a sandbox's changes as differences: what each change is compared against,
//! and how the upper layer's paths are named in the output.
use vstd::prelude::*;
use crate::text::{chars_of, string_of, owned, push_str, push_all};
use crate::sandbox::changes::change_entries::{ChangeEntry, EntryOperation};
use crate::sandbox::changes::file_details::{file_type, S_IFREG};

verus! {

/// What the difference of one change shows.
#[derive(Debug, Clone)]
pub enum DiffStep {
    /// Nothing to show.
    Skip,
    /// A line saying that a path was moved.
    Moved(String),
    /// The output of `diff` between two files.
    Compare { left: String, right: String },
}

/// The view of a diff step.
pub enum DiffView {
    Skip,
    Moved(Seq<char>),
    Compare(Seq<char>, Seq<char>),
}

/// The view of a diff step.
pub open spec fn diff_view(d: DiffStep) -> DiffView {
    match d {
        DiffStep::Skip => DiffView::Skip,
        DiffStep::Moved(m) => DiffView::Moved(m@),
        DiffStep::Compare { left, right } => DiffView::Compare(left@, right@),
    }
}

/// Whether a change can be shown: a rename names where it comes from, and a write or
/// removal whose destination is not a regular file has a staged file.
pub open spec fn diffable(c: ChangeEntry, destination_is_file: bool) -> bool {
    match c.operation {
        EntryOperation::Rename => c.source is Some,
        EntryOperation::Error(_) => true,
        _ => destination_is_file || c.staged is Some,
    }
}

/// What the difference of a change shows, given whether its destination is a regular
/// file and whether it exists: a moved line for a rename; nothing for an error, or for a
/// write or removal where neither the destination nor the staged path is a regular file;
/// else the destination (or `/dev/null` where it is missing) against the staged file for
/// a write, or against `/dev/null` for a removal.
pub open spec fn diff_step_of(c: ChangeEntry, destination_is_file: bool, destination_exists: bool) -> DiffView {
    match c.operation {
        EntryOperation::Rename => DiffView::Moved(
            "### Moved "@ + c.source->0.path@ + " to "@ + c.destination@,
        ),
        EntryOperation::Error(_) => DiffView::Skip,
        _ => if !destination_is_file && file_type(c.staged->0.stat.st_mode) != S_IFREG {
            DiffView::Skip
        } else {
            let left = if destination_exists {
                c.destination@
            } else {
                "/dev/null"@
            };
            let right = match c.operation {
                EntryOperation::Write(_) => c.staged->0.path@,
                _ => "/dev/null"@,
            };
            DiffView::Compare(left, right)
        },
    }
}

/// What the difference of a change shows.
pub fn diff_step(c: &ChangeEntry, destination_is_file: bool, destination_exists: bool) -> (r: DiffStep)
    requires
        diffable(*c, destination_is_file),
        c.operation is Write ==> c.staged is Some,
    ensures
        diff_view(r) == diff_step_of(*c, destination_is_file, destination_exists),
{
    match c.operation {
        EntryOperation::Rename => {
            let src = match &c.source {
                Some(s) => s,
                None => {
                    return DiffStep::Skip;
                },
            };
            let mut m = chars_of("### Moved ");
            push_str(&mut m, src.path.as_str());
            push_str(&mut m, " to ");
            push_str(&mut m, c.destination.as_str());
            DiffStep::Moved(string_of(&m))
        },
        EntryOperation::Error(_) => DiffStep::Skip,
        _ => {
            if !destination_is_file {
                let staged_is_file = match &c.staged {
                    Some(st) => st.is_file(),
                    None => false,
                };
                if !staged_is_file {
                    return DiffStep::Skip;
                }
            }
            let left = if destination_exists {
                owned(c.destination.as_str())
            } else {
                owned("/dev/null")
            };
            let right = match c.operation {
                EntryOperation::Write(_) => match &c.staged {
                    Some(st) => owned(st.path.as_str()),
                    None => owned("/dev/null"),
                },
                _ => owned("/dev/null"),
            };
            DiffStep::Compare { left, right }
        },
    }
}

/// What a comparison compares: where the destination exists it is on the left, and
/// `/dev/null` is on the left only where it does not; on the right is the staged file
/// for a write and `/dev/null` for a removal. A write or removal whose destination is a
/// regular file is always compared, and a rename is shown as a move from its source to
/// its destination.
pub proof fn lemma_diff_compares_destination(c: ChangeEntry, destination_is_file: bool, destination_exists: bool)
    ensures
        diff_step_of(c, destination_is_file, destination_exists) matches DiffView::Compare(left, right) ==> {
            &&& (destination_exists ==> left == c.destination@)
            &&& (!destination_exists ==> left == "/dev/null"@)
            &&& (c.operation is Write ==> right == c.staged->0.path@)
            &&& (c.operation == EntryOperation::Remove ==> right == "/dev/null"@)
        },
        (c.operation is Write || c.operation == EntryOperation::Remove) && destination_is_file ==> diff_step_of(
            c,
            destination_is_file,
            destination_exists,
        ) is Compare,
        c.operation == EntryOperation::Rename ==> diff_step_of(c, destination_is_file, destination_exists)
            == DiffView::Moved("### Moved "@ + c.source->0.path@ + " to "@ + c.destination@),
        c.operation is Error ==> diff_step_of(c, destination_is_file, destination_exists) == DiffView::Skip,
{
}

/// `s` with each occurrence of `from`, taken from left to right without overlap, replaced
/// by `to` (`str::replace`); an empty `from` puts `to` between all characters and at both
/// ends.
pub open spec fn replaced(s: Seq<char>, from: Seq<char>, to: Seq<char>) -> Seq<char>
    decreases s.len(),
{
    if from.len() == 0 {
        if s.len() == 0 {
            to
        } else {
            to + seq![s[0]] + replaced(s.skip(1), from, to)
        }
    } else if s.len() == 0 {
        seq![]
    } else if from.is_prefix_of(s) {
        to + replaced(s.skip(from.len() as int), from, to)
    } else {
        seq![s[0]] + replaced(s.skip(1), from, to)
    }
}

/// Whether `from` occurs in `s` at `i`.
fn occurs_at(s: &Vec<char>, from: &Vec<char>, i: usize) -> (r: bool)
    requires
        i <= s.len(),
    ensures
        r == from@.is_prefix_of(s@.skip(i as int)),
{
    if from.len() > s.len() - i {
        return false;
    }
    let mut k: usize = 0;
    while k < from.len()
        invariant
            k <= from.len(),
            i + from.len() <= s.len(),
            forall|j: int| 0 <= j < k ==> from@[j] == s@[i + j],
        decreases from.len() - k,
    {
        if from[k] != s[i + k] {
            assert(s@.skip(i as int)[k as int] == s@[i + k]);
            return false;
        }
        k = k + 1;
    }
    assert forall|j: int| 0 <= j < from@.len() implies from@[j] == s@.skip(i as int)[j] by {
        assert(s@.skip(i as int)[j] == s@[i + j]);
    }
    true
}

/// `s` with each occurrence of `from` replaced by `to`.
pub fn replace_all(s: &str, from: &str, to: &str) -> (r: String)
    ensures
        r@ == replaced(s@, from@, to@),
{
    let c = chars_of(s);
    let f = chars_of(from);
    let t = chars_of(to);
    let mut out: Vec<char> = Vec::new();
    let mut i: usize = 0;
    assert(c@.skip(0) =~= c@);
    assert(out@ + replaced(c@.skip(0), f@, t@) =~= replaced(s@, from@, to@));
    while i < c.len()
        invariant
            i <= c.len(),
            c@ == s@,
            f@ == from@,
            t@ == to@,
            out@ + replaced(c@.skip(i as int), f@, t@) == replaced(s@, from@, to@),
        decreases c.len() - i,
    {
        let ghost rest = c@.skip(i as int);
        if f.len() > 0 && occurs_at(&c, &f, i) {
            push_all(&mut out, &t);
            proof {
                assert(rest.skip(f@.len() as int) =~= c@.skip(i + f.len()));
            }
            i = i + f.len();
        } else {
            if f.len() == 0 {
                push_all(&mut out, &t);
            }
            out.push(c[i]);
            proof {
                assert(rest.skip(1) =~= c@.skip(i + 1));
                assert(rest[0] == c@[i as int]);
            }
            i = i + 1;
        }
        proof {
            assert(out@ + replaced(c@.skip(i as int), f@, t@) =~= replaced(s@, from@, to@)) by {
                assert(forall|a: Seq<char>, b: Seq<char>, d: Seq<char>| (a + b) + d =~= a + (b + d));
            }
        }
    }
    if f.len() == 0 {
        push_all(&mut out, &t);
    }
    proof {
        assert(c@.skip(c.len() as int) =~= Seq::<char>::empty());
    }
    assert(out@ =~= replaced(s@, from@, to@));
    string_of(&out)
}

} // verus!
