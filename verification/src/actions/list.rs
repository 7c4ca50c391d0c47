//! Finding sandboxes in a storage directory, picking them out by pattern, and listing
//! them as running or stopped.
use vstd::prelude::*;
use crate::text::{chars_of, string_of, owned, push_str, str_views, has_suffix, slice_chars};
use crate::glob::{glob_match, glob_matches};

verus! {

/// The sandbox whose lock file has the name `file_name`: the name without `.lock`, or
/// none where the name does not end in `.lock`.
pub open spec fn lock_owner(file_name: Seq<char>) -> Option<Seq<char>> {
    if ".lock"@.is_suffix_of(file_name) {
        Some(file_name.take(file_name.len() - 5))
    } else {
        None
    }
}

/// The sandbox whose lock file has the name `file_name`.
pub fn sandbox_name_from_lock(file_name: &str) -> (r: Option<String>)
    ensures
        match lock_owner(file_name@) {
            Some(n) => r matches Some(s) && s@ == n,
            None => r is None,
        },
{
    let f = chars_of(file_name);
    let suffix = chars_of(".lock");
    proof {
        reveal_strlit(".lock");
    }
    if has_suffix(&f, &suffix) {
        let n = slice_chars(&f, 0, f.len() - 5);
        assert(n@ =~= file_name@.take(file_name@.len() - 5));
        Some(string_of(&n))
    } else {
        None
    }
}

/// The glob that a pattern becomes: it matches names that hold the pattern anywhere.
pub open spec fn anywhere_glob(p: Seq<char>) -> Seq<char> {
    "*"@ + p + "*"@
}

/// Whether a sandbox name is picked by patterns: every name where there are none, else
/// the names that hold one of them.
pub open spec fn picked_by(name: Seq<char>, patterns: Seq<Seq<char>>) -> bool {
    patterns.len() == 0 || exists|i: int| 0 <= i < patterns.len() && glob_matches(
        anywhere_glob(#[trigger] patterns[i]),
        name,
    )
}

/// Whether a sandbox name is picked by patterns.
pub fn matches_patterns(name: &str, patterns: &Vec<String>) -> (r: bool)
    ensures
        r == picked_by(name@, str_views(patterns@)),
{
    if patterns.len() == 0 {
        return true;
    }
    let ghost pv = str_views(patterns@);
    let mut i: usize = 0;
    while i < patterns.len()
        invariant
            i <= patterns.len(),
            pv == str_views(patterns@),
            forall|j: int| 0 <= j < i ==> !glob_matches(anywhere_glob(#[trigger] pv[j]), name@),
        decreases patterns.len() - i,
    {
        let mut g = chars_of("*");
        push_str(&mut g, patterns[i].as_str());
        push_str(&mut g, "*");
        let glob = string_of(&g);
        assert(pv[i as int] == patterns@[i as int]@);
        assert(glob@ == anywhere_glob(pv[i as int]));
        if glob_match(glob.as_str(), name) {
            return true;
        }
        i = i + 1;
    }
    false
}

/// The lines of a listing, each with whether it is shown dimmed: the running sandboxes
/// under a heading, a blank line where both lists have sandboxes, then the stopped ones
/// under a heading, dimmed.
pub open spec fn listing(running: Seq<Seq<char>>, stopped: Seq<Seq<char>>) -> Seq<(Seq<char>, bool)> {
    let first = if running.len() > 0 {
        seq![("Running sandboxes:"@, false)] + running.map_values(|n: Seq<char>| (n, false))
    } else {
        seq![]
    };
    let gap = if running.len() > 0 && stopped.len() > 0 {
        seq![(seq![], false)]
    } else {
        seq![]
    };
    let second = if stopped.len() > 0 {
        seq![("Stopped sandboxes:"@, true)] + stopped.map_values(|n: Seq<char>| (n, true))
    } else {
        seq![]
    };
    first + gap + second
}

fn push_names(out: &mut Vec<(String, bool)>, names: &Vec<String>, dimmed: bool)
    ensures
        final(out)@.map_values(|l: (String, bool)| (l.0@, l.1)) == old(out)@.map_values(
            |l: (String, bool)| (l.0@, l.1),
        ) + str_views(names@).map_values(|n: Seq<char>| (n, dimmed)),
{
    let ghost start = out@.map_values(|l: (String, bool)| (l.0@, l.1));
    let ghost nv = str_views(names@).map_values(|n: Seq<char>| (n, dimmed));
    let mut i: usize = 0;
    while i < names.len()
        invariant
            i <= names.len(),
            nv == str_views(names@).map_values(|n: Seq<char>| (n, dimmed)),
            out@.map_values(|l: (String, bool)| (l.0@, l.1)) == start + nv.take(i as int),
        decreases names.len() - i,
    {
        let ghost before = out@;
        out.push((owned(names[i].as_str()), dimmed));
        assert(out@.map_values(|l: (String, bool)| (l.0@, l.1)) =~= before.map_values(
            |l: (String, bool)| (l.0@, l.1),
        ).push((names@[i as int]@, dimmed)));
        assert(nv.take(i + 1) =~= nv.take(i as int).push(nv[i as int]));
        i = i + 1;
    }
    assert(nv.take(names.len() as int) =~= nv);
}

/// The lines of a listing of running and stopped sandboxes.
pub fn listing_lines(running: &Vec<String>, stopped: &Vec<String>) -> (r: Vec<(String, bool)>)
    ensures
        r@.map_values(|l: (String, bool)| (l.0@, l.1)) == listing(str_views(running@), str_views(stopped@)),
{
    let mut out: Vec<(String, bool)> = Vec::new();
    let ghost empty = out@.map_values(|l: (String, bool)| (l.0@, l.1));
    assert(empty =~= Seq::<(Seq<char>, bool)>::empty());
    if running.len() > 0 {
        out.push((owned("Running sandboxes:"), false));
        assert(out@.map_values(|l: (String, bool)| (l.0@, l.1)) =~= seq![("Running sandboxes:"@, false)]);
        push_names(&mut out, running, false);
    }
    let ghost after_first = out@.map_values(|l: (String, bool)| (l.0@, l.1));
    if running.len() > 0 && stopped.len() > 0 {
        let blank = owned("");
        proof {
            reveal_strlit("");
            assert(blank@ =~= Seq::<char>::empty());
        }
        let ghost before = out@;
        out.push((blank, false));
        assert(out@.map_values(|l: (String, bool)| (l.0@, l.1)) =~= before.map_values(
            |l: (String, bool)| (l.0@, l.1),
        ).push((Seq::<char>::empty(), false)));
    }
    let ghost after_gap = out@.map_values(|l: (String, bool)| (l.0@, l.1));
    if stopped.len() > 0 {
        let ghost before = out@;
        out.push((owned("Stopped sandboxes:"), true));
        assert(out@.map_values(|l: (String, bool)| (l.0@, l.1)) =~= before.map_values(
            |l: (String, bool)| (l.0@, l.1),
        ).push(("Stopped sandboxes:"@, true)));
        push_names(&mut out, stopped, true);
    }
    proof {
        reveal_strlit("");
        let first = if running.len() > 0 {
            seq![("Running sandboxes:"@, false)] + str_views(running@).map_values(|n: Seq<char>| (n, false))
        } else {
            seq![]
        };
        assert(after_first =~= first);
        let gap: Seq<(Seq<char>, bool)> = if running.len() > 0 && stopped.len() > 0 {
            seq![(seq![], false)]
        } else {
            seq![]
        };
        assert(after_gap =~= first + gap);
        assert(out@.map_values(|l: (String, bool)| (l.0@, l.1)) =~= listing(str_views(running@), str_views(stopped@)));
    }
    out
}

} // verus!
