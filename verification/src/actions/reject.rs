//! Rejecting a sandbox's changes: which staged paths of the upper layer are removed.
use vstd::prelude::*;
use crate::text::owned;
use crate::paths::components;
use crate::sandbox::changes::change_entries::ChangeEntry;
use crate::sandbox::changes::file_details::{file_type, S_IFDIR};

verus! {

/// The staged paths to remove for changes in the order given, each with whether it is a
/// directory: a staged path equal to the one just before it is removed once (a removal
/// and a write can share one).
pub open spec fn reject_targets(s: Seq<ChangeEntry>) -> (Seq<(Seq<char>, bool)>, Option<Seq<char>>)
    decreases s.len(),
{
    if s.len() == 0 {
        (seq![], None)
    } else {
        let (done, last) = reject_targets(s.drop_last());
        match s.last().staged {
            None => (done, last),
            Some(st) => match last {
                Some(l) if components(l) == components(st.path@) => (done, last),
                _ => (done.push((st.path@, file_type(st.stat.st_mode) == S_IFDIR)), Some(st.path@)),
            },
        }
    }
}

/// The staged paths to remove when rejecting changes, in order.
pub fn reject_paths(changes: &Vec<ChangeEntry>) -> (r: Vec<(String, bool)>)
    ensures
        r@.map_values(|t: (String, bool)| (t.0@, t.1)) == reject_targets(changes@).0,
{
    let mut out: Vec<(String, bool)> = Vec::new();
    let mut last: Option<String> = None;
    let mut i: usize = 0;
    while i < changes.len()
        invariant
            i <= changes.len(),
            (out@.map_values(|t: (String, bool)| (t.0@, t.1)), crate::text::opt_view(last))
                == reject_targets(changes@.take(i as int)),
        decreases changes.len() - i,
    {
        assert(changes@.take(i + 1).drop_last() =~= changes@.take(i as int));
        assert(changes@.take(i + 1).last() == changes@[i as int]);
        if let Some(st) = &changes[i].staged {
            let repeat = match &last {
                Some(l) => crate::paths::same_path(l.as_str(), st.path.as_str()),
                None => false,
            };
            if !repeat {
                let ghost before = out@;
                out.push((owned(st.path.as_str()), st.is_dir()));
                assert(out@.map_values(|t: (String, bool)| (t.0@, t.1)) =~= before.map_values(
                    |t: (String, bool)| (t.0@, t.1),
                ).push((st.path@, file_type(st.stat.st_mode) == S_IFDIR)));
                last = Some(owned(st.path.as_str()));
            }
        }
        i = i + 1;
    }
    assert(changes@.take(changes.len() as int) =~= changes@);
    out
}

} // verus!
