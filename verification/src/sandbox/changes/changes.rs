//! Reading ignore files, deciding which upper-layer paths are ignored, and turning what
//! the upper layer holds into changes.
use vstd::prelude::*;
use crate::text::{
    chars_of, string_of, owned, push_str, push_all, trim, trimmed, has_prefix, has_suffix,
    has_char, copy_chars, slice_chars, str_views, str_eq,
};
use crate::paths::{
    components, components_of, views, prefix_path, prefix_path_of, root_component, parent,
    file_name, file_name_of, join, join_chars, path_join, rebuild,
};
use crate::util::{kept_components, find_mount_point};
use crate::sandbox::sandbox_struct::{Sandbox, path_exists};
use crate::sandbox::changes::file_details::{
    FileDetails, FileStat, details_view, opt_details_view, file_type, stat_error_prefix, redirect_read_error, S_IFMT,
    S_IFREG, S_IFDIR, S_IFLNK,
};
use crate::sandbox::changes::change_entries::{
    ChangeEntry, ChangeEntries, EntryOperation, SetType, ChangeError, EntryView, entry_view,
    entry_views, copy_details, copy_opt_details,
};

verus! {

/// One rule of an ignore file: a glob, and whether it re-includes what it matches.
#[derive(Debug, Clone)]
pub struct IgnorePattern {
    pub negate: bool,
    pub pattern: String,
}

/// The view of an ignore rule.
pub open spec fn pattern_view(p: IgnorePattern) -> (bool, Seq<char>) {
    (p.negate, p.pattern@)
}

/// The views of a list of ignore rules.
pub open spec fn pattern_views(s: Seq<IgnorePattern>) -> Seq<(bool, Seq<char>)> {
    s.map_values(|p: IgnorePattern| pattern_view(p))
}

/// A line without the carriage return that ends it, if any.
pub open spec fn strip_cr(line: Seq<char>) -> Seq<char> {
    if line.len() > 0 && line.last() == '\r' {
        line.drop_last()
    } else {
        line
    }
}

/// Reads text from left to right: the lines finished so far and the line being read.
pub open spec fn lines_scan(s: Seq<char>) -> (Seq<Seq<char>>, Seq<char>)
    decreases s.len(),
{
    if s.len() == 0 {
        (seq![], seq![])
    } else {
        let (done, cur) = lines_scan(s.drop_last());
        if s.last() == '\n' {
            (done.push(strip_cr(cur)), seq![])
        } else {
            (done, cur.push(s.last()))
        }
    }
}

/// The lines of a text (`str::lines`): split at `\n`, a `\r` before it dropped, no line
/// after a final `\n`.
pub open spec fn text_lines(s: Seq<char>) -> Seq<Seq<char>> {
    let (done, cur) = lines_scan(s);
    if cur.len() > 0 {
        done.push(cur)
    } else {
        done
    }
}

/// `s` with each run of `/` made a single `/`.
pub open spec fn collapse_slashes(s: Seq<char>) -> Seq<char>
    decreases s.len(),
{
    if s.len() == 0 {
        s
    } else {
        let c = collapse_slashes(s.drop_last());
        if s.last() == '/' && c.len() > 0 && c.last() == '/' {
            c
        } else {
            c.push(s.last())
        }
    }
}

/// `s` without the `/` characters that end it.
pub open spec fn trim_end_slashes(s: Seq<char>) -> Seq<char>
    decreases s.len(),
{
    if s.len() > 0 && s.last() == '/' {
        trim_end_slashes(s.drop_last())
    } else {
        s
    }
}

/// The line after undoing an escaped trailing space: a line ending in `\ ` keeps that
/// space in place of the backslash.
pub open spec fn unescaped_line(line: Seq<char>) -> Seq<char> {
    let t = trimmed(line);
    if "\\ "@.is_suffix_of(line) && t.len() > 0 {
        t.drop_last() + " "@
    } else if "\\ "@.is_suffix_of(line) {
        " "@
    } else {
        t
    }
}

/// The rules that one line of an ignore file gives, in the order they are added.
pub open spec fn line_patterns(line: Seq<char>) -> Seq<(bool, Seq<char>)> {
    let unescaped = unescaped_line(line);
    if unescaped.len() == 0 || unescaped[0] == '#' {
        seq![]
    } else {
        let escaped_bang = "\\!"@.is_prefix_of(unescaped);
        let negate = !escaped_bang && unescaped[0] == '!';
        let t = if escaped_bang || negate {
            unescaped.skip(1)
        } else {
            unescaped
        };
        let t = collapse_slashes(t);
        let t = if t.len() > 0 && t[0] == '/' {
            t.skip(1)
        } else if !t.contains('/') && !"**"@.is_prefix_of(t) {
            "**/"@ + t
        } else {
            t
        };
        let only_dirs = t.len() > 0 && t.last() == '/';
        let t = if only_dirs && !"/**"@.is_suffix_of(t) {
            trim_end_slashes(t) + "/**"@
        } else {
            t
        };
        if !only_dirs && !unescaped.contains('*') && !unescaped.contains('?') {
            seq![(negate, t + "/**"@), (negate, t)]
        } else {
            seq![(negate, t)]
        }
    }
}

/// The rules that the lines give, in order.
pub open spec fn lines_patterns(lines: Seq<Seq<char>>) -> Seq<(bool, Seq<char>)>
    decreases lines.len(),
{
    if lines.len() == 0 {
        seq![]
    } else {
        lines_patterns(lines.drop_last()) + line_patterns(lines.last())
    }
}

fn collapse_slashes_of(s: &Vec<char>) -> (r: Vec<char>)
    ensures
        r@ == collapse_slashes(s@),
{
    let mut r: Vec<char> = Vec::new();
    let mut i: usize = 0;
    while i < s.len()
        invariant
            i <= s.len(),
            r@ == collapse_slashes(s@.take(i as int)),
        decreases s.len() - i,
    {
        proof {
            assert(s@.take(i + 1).drop_last() =~= s@.take(i as int));
        }
        if !(s[i] == '/' && r.len() > 0 && r[r.len() - 1] == '/') {
            r.push(s[i]);
        }
        i = i + 1;
    }
    assert(s@.take(s.len() as int) =~= s@);
    r
}

fn trim_end_slashes_of(s: &Vec<char>) -> (r: Vec<char>)
    ensures
        r@ == trim_end_slashes(s@),
{
    let mut end = s.len();
    assert(s@.take(s.len() as int) =~= s@);
    while end > 0 && s[end - 1] == '/'
        invariant
            end <= s.len(),
            trim_end_slashes(s@) == trim_end_slashes(s@.take(end as int)),
        decreases end,
    {
        proof {
            assert(s@.take(end as int).drop_last() =~= s@.take(end - 1));
        }
        end = end - 1;
    }
    assert(s@.take(s.len() as int) =~= s@);
    slice_chars(s, 0, end)
}

fn push_pattern(patterns: &mut Vec<IgnorePattern>, negate: bool, pattern: &Vec<char>)
    ensures
        pattern_views(final(patterns)@) == pattern_views(old(patterns)@).push((negate, pattern@)),
{
    let p = IgnorePattern { negate, pattern: string_of(pattern) };
    patterns.push(p);
    assert(pattern_views(patterns@) =~= pattern_views(old(patterns)@).push((negate, pattern@)));
}

fn parse_ignore_line(line: &Vec<char>, patterns: &mut Vec<IgnorePattern>)
    ensures
        pattern_views(final(patterns)@) == pattern_views(old(patterns)@) + line_patterns(line@),
{
    proof {
        reveal_strlit("\\ ");
        reveal_strlit(" ");
        reveal_strlit("\\!");
        reveal_strlit("**");
        reveal_strlit("**/");
        reveal_strlit("/**");
    }
    let t0 = trim(line);
    let backslash_space = {
        let mut e: Vec<char> = Vec::new();
        e.push('\\');
        e.push(' ');
        e
    };
    assert(backslash_space@ =~= "\\ "@);
    let unescaped = if has_suffix(line, &backslash_space) {
        let mut t = copy_chars(&t0);
        if t.len() > 0 {
            t.pop();
        }
        t.push(' ');
        proof {
            if t0.len() > 0 {
                assert(t@ =~= t0@.drop_last() + " "@);
            } else {
                assert(t@ =~= " "@);
            }
        }
        t
    } else {
        t0
    };
    assert(unescaped@ == unescaped_line(line@));
    if unescaped.len() == 0 || unescaped[0] == '#' {
        assert(pattern_views(patterns@) =~= pattern_views(old(patterns)@) + seq![]);
        return;
    }
    let escaped_bang = unescaped.len() >= 2 && unescaped[0] == '\\' && unescaped[1] == '!';
    proof {
        if escaped_bang {
            assert(unescaped@.take(2) =~= "\\!"@);
        }
        if "\\!"@.is_prefix_of(unescaped@) {
            assert(unescaped@[0] == "\\!"@[0] && unescaped@[1] == "\\!"@[1]);
        }
    }
    let negate = !escaped_bang && unescaped[0] == '!';
    let t = if escaped_bang || negate {
        slice_chars(&unescaped, 1, unescaped.len())
    } else {
        copy_chars(&unescaped)
    };
    assert((escaped_bang || negate) ==> t@ =~= unescaped@.skip(1));
    let t = collapse_slashes_of(&t);
    let star2 = chars_of("**");
    let t = if t.len() > 0 && t[0] == '/' {
        slice_chars(&t, 1, t.len())
    } else if !has_char(&t, '/') && !has_prefix(&t, &star2) {
        let mut u = chars_of("**/");
        push_all(&mut u, &t);
        u
    } else {
        t
    };
    assert(t@.len() > 0 && t@[0] == '/' ==> true);
    let only_dirs = t.len() > 0 && t[t.len() - 1] == '/';
    let slash_star2 = chars_of("/**");
    let t = if only_dirs && !has_suffix(&t, &slash_star2) {
        let mut u = trim_end_slashes_of(&t);
        push_str(&mut u, "/**");
        u
    } else {
        t
    };
    if !only_dirs && !has_char(&unescaped, '*') && !has_char(&unescaped, '?') {
        let mut with_all = copy_chars(&t);
        push_str(&mut with_all, "/**");
        push_pattern(patterns, negate, &with_all);
        push_pattern(patterns, negate, &t);
        assert(pattern_views(patterns@) =~= pattern_views(old(patterns)@) + line_patterns(line@));
    } else {
        push_pattern(patterns, negate, &t);
        assert(pattern_views(patterns@) =~= pattern_views(old(patterns)@) + line_patterns(line@));
    }
}

/// Reads the rules of an ignore file and adds them to `patterns`, in order. Each line is
/// trimmed (a trailing `\ ` keeps its space); empty lines and `#` comments give nothing;
/// `!` negates and `\!` is a literal `!`; runs of `/` count as one; a rule with a leading
/// `/` is anchored, a rule without `/` matches at any depth; a rule ending in `/` matches
/// what is below a directory; a rule without `*`, `?` or trailing `/` matches the path
/// and what is below it.
pub fn parse_ignore_content(content: &str, patterns: &mut Vec<IgnorePattern>)
    ensures
        pattern_views(final(patterns)@) == pattern_views(old(patterns)@) + lines_patterns(
            text_lines(content@),
        ),
{
    let c = chars_of(content);
    let ghost start = pattern_views(patterns@);
    let ghost mut done: Seq<Seq<char>> = seq![];
    let mut cur: Vec<char> = Vec::new();
    let mut i: usize = 0;
    while i < c.len()
        invariant
            i <= c.len(),
            c@ == content@,
            (done, cur@) == lines_scan(c@.take(i as int)),
            pattern_views(patterns@) == start + lines_patterns(done),
        decreases c.len() - i,
    {
        proof {
            assert(c@.take(i + 1).drop_last() =~= c@.take(i as int));
        }
        if c[i] == '\n' {
            let line = if cur.len() > 0 && cur[cur.len() - 1] == '\r' {
                slice_chars(&cur, 0, cur.len() - 1)
            } else {
                copy_chars(&cur)
            };
            assert(line@ =~= strip_cr(cur@));
            parse_ignore_line(&line, patterns);
            proof {
                assert(done.push(line@).drop_last() =~= done);
                done = done.push(line@);
            }
            cur = Vec::new();
        } else {
            cur.push(c[i]);
        }
        i = i + 1;
    }
    assert(c@.take(c.len() as int) =~= c@);
    if cur.len() > 0 {
        parse_ignore_line(&cur, patterns);
        assert(done.push(cur@).drop_last() =~= done);
    }
}

/// The ancestors of `path`, nearest first, as `Path::parent` gives them one after
/// another (the root of an absolute path is the last).
pub open spec fn ancestors(path: Seq<char>) -> Seq<Seq<char>> {
    let n = components(path).len() as int;
    let m = kept_components(path);
    Seq::new(if n > m { (n - m) as nat } else { 0 }, |i: int| prefix_path(path, n - 1 - i))
}

/// What a search for an opaque ancestor decides from what it read of the ancestors,
/// nearest first: `None` where an ancestor could not be read, else whether it is
/// opaque. It answers yes at the first opaque one and no at the first unreadable one
/// before that, or when none is left.
pub open spec fn opaque_verdict(readings: Seq<Option<bool>>) -> bool
    decreases readings.len(),
{
    if readings.len() == 0 {
        false
    } else {
        match readings[0] {
            None => false,
            Some(true) => true,
            Some(false) => opaque_verdict(readings.skip(1)),
        }
    }
}

/// The ancestors of `path`, nearest first.
pub fn ancestor_paths_of(path: &String) -> (r: Vec<String>)
    ensures
        str_views(r@) == ancestors(path@),
{
    let p = chars_of(path.as_str());
    let cs = components_of(&p);
    let min = kept_of(&cs);
    let ghost n = cs.len() as int;
    let mut r: Vec<String> = Vec::new();
    let mut k: usize = cs.len();
    while k > min
        invariant
            min <= k <= cs.len(),
            n == cs.len(),
            views(cs@) == components(path@),
            min == kept_components(path@),
            str_views(r@) == ancestors(path@).take(n - k),
        decreases k,
    {
        let a = string_of(&prefix_path_of(&cs, k - 1));
        let ghost before = r@;
        r.push(a);
        assert(str_views(r@) =~= str_views(before).push(a@));
        assert(ancestors(path@).take(n - k + 1) =~= ancestors(path@).take(n - k).push(ancestors(path@)[n - k]));
        k = k - 1;
    }
    assert(ancestors(path@).take(n - min) =~= ancestors(path@));
    r
}

/// What a search for an opaque ancestor decides from what it read (see `opaque_verdict`).
pub fn opaque_ancestor_from(readings: &Vec<Option<bool>>) -> (r: bool)
    ensures
        r == opaque_verdict(readings@),
{
    let mut i: usize = 0;
    assert(readings@.skip(0) =~= readings@);
    while i < readings.len()
        invariant
            i <= readings.len(),
            opaque_verdict(readings@) == opaque_verdict(readings@.skip(i as int)),
        decreases readings.len() - i,
    {
        assert(readings@.skip(i as int)[0] == readings@[i as int]);
        assert(readings@.skip(i as int).skip(1) =~= readings@.skip(i + 1));
        match readings[i] {
            None => {
                return false;
            },
            Some(true) => {
                return true;
            },
            Some(false) => {},
        }
        i = i + 1;
    }
    assert(readings@.skip(i as int).len() == 0);
    false
}

/// Whether some ancestor of `path` is an opaque directory of the upper layer. Ancestors
/// are read from the nearest up; the search stops, answering no, at the first one that
/// cannot be read. A path without a parent has no such ancestor. Which ancestors are
/// opaque is read from the disk; what is stated is that the answer is the verdict on
/// readings of the nearest ancestors, in order.
pub fn has_opaque_ancestor(path: &String) -> (r: bool)
    ensures
        parent(path@) is None ==> !r,
        exists|readings: Seq<Option<bool>>|
            readings.len() <= ancestors(path@).len() && #[trigger] opaque_verdict(readings) == r,
{
    let paths = ancestor_paths_of(path);
    proof {
        assert(str_views(paths@).len() == paths.len());
        if parent(path@) is None {
            let cs = components(path@);
            if cs.len() == 1 {
                assert(cs[0] == root_component());
            }
            assert(ancestors(path@).len() == 0);
        }
    }
    let mut readings: Vec<Option<bool>> = Vec::new();
    let mut i: usize = 0;
    while i < paths.len()
        invariant
            i <= paths.len(),
            readings.len() == i,
            str_views(paths@) == ancestors(path@),
            paths.len() == ancestors(path@).len(),
        decreases paths.len() - i,
    {
        match FileDetails::from_path(&paths[i]) {
            Ok(Some(details)) => {
                let o = details.is_opaque();
                readings.push(Some(o));
                if o {
                    return opaque_ancestor_from(&readings);
                }
            },
            _ => {
                readings.push(None);
                return opaque_ancestor_from(&readings);
            },
        }
        i = i + 1;
    }
    opaque_ancestor_from(&readings)
}

/// Calls `std::path::Path::is_dir`: whether `path` is a directory, following symbolic
/// links. It depends on the disk, so nothing is stated of it.
#[verifier::external_body]
fn path_is_dir(path: &str) -> (r: bool) {
    std::path::Path::new(path).is_dir()
}

/// Calls `walkdir::WalkDir::new(root)` and lists the paths it visits: `root` first, then
/// everything below it, without following symbolic links; entries that cannot be read
/// are skipped. What is below depends on the disk; what is stated is that a walk that
/// yields anything yields `root` itself first.
#[verifier::external_body]
fn walk_paths(root: &str) -> (r: Vec<String>)
    ensures
        r.len() > 0 ==> r@[0]@ == root@,
{
    walkdir::WalkDir::new(root)
        .into_iter()
        .flatten()
        .map(|entry| entry.path().to_string_lossy().to_string())
        .collect()
}

/// The components `below`, found under an upper-layer path, with the path's own name
/// put in front of them.
pub open spec fn prepend_name(name: Seq<char>, below: Seq<char>) -> Seq<char> {
    if below.len() == 0 {
        name
    } else {
        join(name, below)
    }
}

/// `name` put in front of `below`.
fn prepend_name_of(name: &Vec<char>, below: &Vec<char>) -> (r: Vec<char>)
    ensures
        r@ == prepend_name(name@, below@),
{
    if below.len() == 0 {
        copy_chars(name)
    } else {
        join_chars(name, below)
    }
}

/// The path `i` levels up from `p`: `p` itself, then its ancestors.
pub open spec fn level_path(p: Seq<char>, i: int) -> Seq<char> {
    if i == 0 {
        p
    } else {
        prefix_path(p, components(p).len() - i)
    }
}

/// Where the host file an upper-layer path comes from is to be looked for.
#[derive(Debug)]
pub enum SourceCandidate {
    /// This path.
    Path(String),
    /// Below the mount point holding `lower`, at `tail`.
    UnderMount { lower: String, tail: String },
}

/// The view of a source candidate.
pub enum CandidateView {
    Path(Seq<char>),
    UnderMount(Seq<char>, Seq<char>),
}

/// The view of a source candidate.
pub open spec fn candidate_view(c: SourceCandidate) -> CandidateView {
    match c {
        SourceCandidate::Path(p) => CandidateView::Path(p@),
        SourceCandidate::UnderMount { lower, tail } => CandidateView::UnderMount(lower@, tail@),
    }
}

/// What the walk up from an upper-layer path saw at each level, taken by characters:
/// `None` where the path is not there, else the redirect recorded on it.
pub open spec fn seen_views(s: Seq<Option<Option<String>>>) -> Seq<Option<Option<Seq<char>>>> {
    s.map_values(|o: Option<Option<String>>| match o {
        None => None,
        Some(r) => Some(crate::text::opt_view(r)),
    })
}

/// The components of a path after its first.
pub open spec fn after_first(cs: Seq<Seq<char>>) -> Seq<Seq<char>> {
    if cs.len() == 0 {
        cs
    } else {
        cs.skip(1)
    }
}

/// The walk up from the upper-layer path `up` (standing for the host path `low`), at
/// level `i` with the names `below` passed on the way up, given what was seen at each
/// level: it stops where the path is missing or at the mount's directory `root`, taking
/// `below` under the mount point `lower_root`; at a redirect it takes `below` under the
/// redirect's target (an absolute target is read from the mount point of the level's
/// host path, a relative one from the host path's parent); otherwise it goes up.
pub open spec fn source_walk(
    up: Seq<char>,
    root: Seq<char>,
    low: Seq<char>,
    lower_root: Seq<char>,
    seen: Seq<Option<Option<Seq<char>>>>,
    i: int,
    below: Seq<char>,
) -> Result<CandidateView, Seq<char>>
    decreases seen.len() - i,
{
    let ku = components(up).len() - i;
    let kl = components(low).len() - i;
    let cu = level_path(up, i);
    let cl = level_path(low, i);
    if i < 0 || i >= seen.len() || seen[i] is None || components(cu) == components(root) {
        Ok(CandidateView::Path(join(lower_root, below)))
    } else {
        match seen[i]->0 {
            Some(r) => {
                let c = prepend_name(r, below);
                if r.len() > 0 && r[0] == '/' {
                    Ok(CandidateView::UnderMount(cl, rebuild(after_first(components(c)))))
                } else if kl <= kept_components(low) {
                    Err("Failed to get parent for "@ + cl)
                } else {
                    Ok(CandidateView::Path(join(prefix_path(low, kl - 1), c)))
                }
            },
            None => match file_name(cu) {
                None => Err("Failed to get trailing component for "@ + cu),
                Some(name) => if ku <= kept_components(up) {
                    Err("Failed to get parent for "@ + cu)
                } else if kl <= kept_components(low) {
                    Err("Failed to get parent for "@ + cl)
                } else {
                    source_walk(up, root, low, lower_root, seen, i + 1, prepend_name(name, below))
                },
            },
        }
    }
}

/// Where the walk from `up` ends, given what was seen at each level.
pub open spec fn walk_result(
    up: Seq<char>,
    root: Seq<char>,
    low: Seq<char>,
    lower_root: Seq<char>,
    seen: Seq<Option<Option<Seq<char>>>>,
) -> Result<CandidateView, Seq<char>> {
    source_walk(up, root, low, lower_root, seen, 0, seq![])
}

fn kept_of(cs: &Vec<Vec<char>>) -> (r: usize)
    ensures
        r <= cs.len(),
        forall|p: Seq<char>| components(p) == views(cs@) ==> r == kept_components(p),
{
    let r: usize = if cs.len() > 0 && cs[0].len() == 1 && cs[0][0] == '/' {
        1
    } else {
        0
    };
    proof {
        assert forall|p: Seq<char>| components(p) == views(cs@) implies r == kept_components(p) by {
            if cs.len() > 0 {
                assert(views(cs@)[0] == cs@[0]@);
                if cs@[0]@.len() == 1 && cs@[0]@[0] == '/' {
                    assert(cs@[0]@ =~= root_component());
                }
                if cs@[0]@ == root_component() {
                    assert(cs@[0]@.len() == 1 && cs@[0]@[0] == '/');
                }
            }
        }
    }
    r
}

fn message(prefix: &str, p: &Vec<char>) -> (r: String)
    ensures
        r@ == prefix@ + p@,
{
    let mut m = chars_of(prefix);
    push_all(&mut m, p);
    string_of(&m)
}

/// The components of `c` after its first, put back together.
fn tail_of(c: &Vec<char>) -> (r: Vec<char>)
    ensures
        r@ == rebuild(after_first(components(c@))),
{
    let cc = components_of(c);
    let ghost cv = views(cc@);
    let mut rest: Vec<Vec<char>> = Vec::new();
    if cc.len() > 0 {
        let mut i: usize = 1;
        while i < cc.len()
            invariant
                1 <= i <= cc.len(),
                cv == views(cc@),
                views(rest@) == cv.subrange(1, i as int),
            decreases cc.len() - i,
        {
            let ghost before = rest@;
            rest.push(copy_chars(&cc[i]));
            assert(views(rest@) =~= views(before).push(cc@[i as int]@));
            assert(cv.subrange(1, i + 1) =~= cv.subrange(1, i as int).push(cv[i as int]));
            i = i + 1;
        }
        assert(cv.subrange(1, cv.len() as int) =~= cv.skip(1));
    } else {
        assert(views(rest@) =~= cv);
    }
    crate::paths::rebuild_of(&rest)
}

/// Where the host file that the upper-layer path `upper_path` comes from is to be looked
/// for, given what the walk up from it saw at each level (`seen`, from the path itself
/// up): see `source_walk`.
pub fn source_candidate(
    upper_path: &String,
    upper_root: &String,
    lower_path: &String,
    lower_root: &String,
    seen: &Vec<Option<Option<String>>>,
) -> (r: Result<SourceCandidate, String>)
    ensures
        match (r, walk_result(upper_path@, upper_root@, lower_path@, lower_root@, seen_views(seen@))) {
            (Ok(c), Ok(v)) => candidate_view(c) == v,
            (Err(e), Err(m)) => e@ == m,
            _ => false,
        },
{
    let ghost sv = seen_views(seen@);
    let ghost up = upper_path@;
    let ghost low = lower_path@;
    let root = chars_of(upper_root.as_str());
    let rcs = components_of(&root);
    let ucs = components_of(&chars_of(upper_path.as_str()));
    let lcs = components_of(&chars_of(lower_path.as_str()));
    let umin = kept_of(&ucs);
    let lmin = kept_of(&lcs);
    let lr = chars_of(lower_root.as_str());
    let mut below: Vec<char> = Vec::new();
    let mut i: usize = 0;
    let mut cur_upper: Vec<char> = chars_of(upper_path.as_str());
    let mut cur_lower: Vec<char> = chars_of(lower_path.as_str());
    assert(sv.len() == seen.len());
    loop
        invariant
            sv == seen_views(seen@),
            sv.len() == seen.len(),
            up == upper_path@,
            low == lower_path@,
            views(ucs@) == components(up),
            views(lcs@) == components(low),
            views(rcs@) == components(upper_root@),
            umin == kept_components(up),
            lmin == kept_components(low),
            lr@ == lower_root@,
            umin <= ucs.len(),
            lmin <= lcs.len(),
            i <= seen.len(),
            i <= ucs.len() - umin,
            i <= lcs.len() - lmin,
            cur_upper@ == level_path(up, i as int),
            cur_lower@ == level_path(low, i as int),
            walk_result(up, upper_root@, low, lower_root@, sv) == source_walk(
                up,
                upper_root@,
                low,
                lower_root@,
                sv,
                i as int,
                below@,
            ),
        decreases seen.len() - i,
    {
        let ghost w = source_walk(up, upper_root@, low, lower_root@, sv, i as int, below@);
        if i >= seen.len() {
            return Ok(SourceCandidate::Path(string_of(&join_chars(&lr, &below))));
        }
        assert(sv[i as int] == match seen@[i as int] {
            None => None::<Option<Seq<char>>>,
            Some(r) => Some(crate::text::opt_view(r)),
        });
        let red = match &seen[i] {
            None => {
                return Ok(SourceCandidate::Path(string_of(&join_chars(&lr, &below))));
            },
            Some(red) => red,
        };
        if crate::paths::same_components(&components_of(&cur_upper), &rcs) {
            return Ok(SourceCandidate::Path(string_of(&join_chars(&lr, &below))));
        }
        let ku = ucs.len() - i;
        let kl = lcs.len() - i;
        match red {
            Some(r) => {
                let rc = chars_of(r.as_str());
                let c = prepend_name_of(&rc, &below);
                if rc.len() > 0 && rc[0] == '/' {
                    let tail = tail_of(&c);
                    return Ok(SourceCandidate::UnderMount { lower: string_of(&cur_lower), tail: string_of(&tail) });
                }
                if kl <= lmin {
                    return Err(message("Failed to get parent for ", &cur_lower));
                }
                let pl = prefix_path_of(&lcs, kl - 1);
                return Ok(SourceCandidate::Path(string_of(&join_chars(&pl, &c))));
            },
            None => {
                let name = match file_name_of(&cur_upper) {
                    Some(n) => n,
                    None => {
                        return Err(message("Failed to get trailing component for ", &cur_upper));
                    },
                };
                if ku <= umin {
                    return Err(message("Failed to get parent for ", &cur_upper));
                }
                if kl <= lmin {
                    return Err(message("Failed to get parent for ", &cur_lower));
                }
                below = prepend_name_of(&name, &below);
                i = i + 1;
                cur_upper = prefix_path_of(&ucs, ku - 1);
                cur_lower = prefix_path_of(&lcs, kl - 1);
            },
        }
    }
}

/// The shape of what the walk up from `up` saw: at least one level and at most one more
/// than the ancestors `up` has; every level before the last was there and recorded no
/// redirect, so the walk went on past it.
pub open spec fn walk_seen_shape(up: Seq<char>, s: Seq<Option<Option<String>>>) -> bool {
    &&& 1 <= s.len() <= components(up).len() - kept_components(up) + 1
    &&& forall|k: int| 0 <= k < s.len() - 1 ==> #[trigger] s[k] matches Some(None)
}

/// The shape of what the walk up from `up` saw, seen as texts (see `walk_seen_shape`).
pub open spec fn walk_seen_view_shape(up: Seq<char>, s: Seq<Option<Option<Seq<char>>>>) -> bool {
    &&& 1 <= s.len() <= components(up).len() - kept_components(up) + 1
    &&& forall|k: int| 0 <= k < s.len() - 1 ==> #[trigger] s[k] matches Some(None)
}

proof fn lemma_seen_views_shape(up: Seq<char>, s: Seq<Option<Option<String>>>)
    requires
        walk_seen_shape(up, s),
    ensures
        walk_seen_view_shape(up, seen_views(s)),
{
    assert forall|k: int| 0 <= k < s.len() - 1 implies #[trigger] seen_views(s)[k] matches Some(None) by {
        assert(s[k] matches Some(None));
    }
}

/// What the walk up from the upper-layer path `upper_path` sees at each level, from the
/// path itself up, reading from the disk only as far as the walk goes: whether the path
/// is there, and, below the mount's directory `upper_root`, the redirect recorded on it.
fn observe_walk(upper_path: &String, upper_root: &String, lower_path: &String) -> (r: Result<
    Vec<Option<Option<String>>>,
    String,
>)
    ensures
        r matches Ok(s) ==> walk_seen_shape(upper_path@, s@),
{
    let root = chars_of(upper_root.as_str());
    let rcs = components_of(&root);
    let ucs = components_of(&chars_of(upper_path.as_str()));
    let lcs = components_of(&chars_of(lower_path.as_str()));
    let umin = kept_of(&ucs);
    let lmin = kept_of(&lcs);
    let mut seen: Vec<Option<Option<String>>> = Vec::new();
    let mut i: usize = 0;
    let mut cur_upper: Vec<char> = chars_of(upper_path.as_str());
    assert(views(ucs@) == components(upper_path@));
    while i < ucs.len() - umin && i < lcs.len() - lmin
        invariant
            umin <= ucs.len(),
            lmin <= lcs.len(),
            views(ucs@) == components(upper_path@),
            umin == kept_components(upper_path@),
            i <= ucs.len() - umin,
            seen.len() == i,
            forall|k: int| 0 <= k < i ==> #[trigger] seen@[k] matches Some(None),
        decreases ucs.len() - i,
    {
        let details = match FileDetails::from_path(&string_of(&cur_upper))? {
            Some(d) => d,
            None => {
                seen.push(None);
                return Ok(seen);
            },
        };
        if crate::paths::same_components(&components_of(&cur_upper), &rcs) {
            seen.push(Some(None));
            return Ok(seen);
        }
        let red = details.is_renamed()?;
        let stop = red.is_some() || file_name_of(&cur_upper).is_none();
        seen.push(Some(red));
        if stop {
            return Ok(seen);
        }
        i = i + 1;
        cur_upper = prefix_path_of(&ucs, ucs.len() - i);
    }
    let details = FileDetails::from_path(&string_of(&cur_upper))?;
    match details {
        None => seen.push(None),
        Some(d) => {
            if crate::paths::same_components(&components_of(&cur_upper), &rcs) {
                seen.push(Some(None));
            } else {
                seen.push(Some(d.is_renamed()?));
            }
        },
    }
    Ok(seen)
}

/// Whether the walk's end `w` leads to the host path `t`: the candidate path itself, or
/// the tail below a mount point of the candidate's host path.
pub open spec fn walk_leads_to(w: Result<CandidateView, Seq<char>>, t: Seq<char>) -> bool {
    match w {
        Ok(CandidateView::Path(p)) => t == p,
        Ok(CandidateView::UnderMount(lower, tail)) => below_mount_point(lower, tail, t),
        Err(_) => false,
    }
}

/// Whether `t` is `tail` below a mount point of `lower`.
pub open spec fn below_mount_point(lower: Seq<char>, tail: Seq<char>, t: Seq<char>) -> bool {
    exists|m: Seq<char>| #[trigger] mount_point_candidate(lower, m) && t == join(m, tail)
}

/// Whether `m` is the mount point of `lower` as `find_mount_point` can give it: `lower`
/// itself or one of its ancestors.
pub open spec fn mount_point_candidate(lower: Seq<char>, m: Seq<char>) -> bool {
    crate::util::path_or_ancestor(lower, m)
}

/// The host path that an upper-layer path comes from, following redirects on it or on
/// an ancestor below the mount's directory `upper_root`: the names passed on the way up
/// are put back below the redirect's target, or below the mount point `lower_root` where
/// no redirect is found. `None` where that path does not exist on the host. What the
/// walk finds at each level (whether the path is there, its redirect) and whether the
/// result exists are read from the disk; what is stated is that the result is where
/// the walk leads for what was read.
pub fn get_source_lower_path_for_upper_path(
    upper_path: &String,
    upper_root: &String,
    lower_path: &String,
    lower_root: &String,
) -> (r: Result<Option<String>, String>)
    ensures
        r matches Ok(Some(t)) ==> exists|seen: Seq<Option<Option<Seq<char>>>>|
            walk_seen_view_shape(upper_path@, seen) && walk_leads_to(
                #[trigger] walk_result(upper_path@, upper_root@, lower_path@, lower_root@, seen),
                t@,
            ),
        r matches Ok(None) ==> exists|seen: Seq<Option<Option<Seq<char>>>>|
            walk_seen_view_shape(upper_path@, seen) && #[trigger] walk_result(
                upper_path@,
                upper_root@,
                lower_path@,
                lower_root@,
                seen,
            ) is Ok,
{
    let seen = observe_walk(upper_path, upper_root, lower_path)?;
    let ghost sv = seen_views(seen@);
    proof {
        lemma_seen_views_shape(upper_path@, seen@);
    }
    let ghost w = walk_result(upper_path@, upper_root@, lower_path@, lower_root@, sv);
    let candidate = source_candidate(upper_path, upper_root, lower_path, lower_root, &seen)?;
    let target = match candidate {
        SourceCandidate::Path(p) => {
            assert(w == Ok::<CandidateView, Seq<char>>(CandidateView::Path(p@)));
            assert(walk_leads_to(w, p@));
            p
        },
        SourceCandidate::UnderMount { lower, tail } => {
            let m = find_mount_point(lower.as_str())?;
            assert(mount_point_candidate(lower@, m@));
            let t = path_join(m.as_str(), tail.as_str());
            assert(w == Ok::<CandidateView, Seq<char>>(CandidateView::UnderMount(lower@, tail@)));
            assert(mount_point_candidate(lower@, m@) && t@ == join(m@, tail@));
            assert(below_mount_point(lower@, tail@, t@));
            assert(walk_leads_to(w, t@));
            t
        },
    };
    assert(walk_leads_to(w, target@));
    if path_exists(target.as_str()) {
        let r: Result<Option<String>, String> = Ok(Some(target));
        assert(r matches Ok(Some(t)) && t == target);
        r
    } else {
        Ok(None)
    }
}

/// A path of the upper layer with what it stands for on the host.
#[derive(Debug, Clone)]
pub struct UpperEntry {
    /// The host path that the upper-layer path stands for.
    pub lower_path: String,
    /// The upper-layer path.
    pub upper_path: String,
    /// What the file system said of the upper-layer path.
    pub upper_details: FileDetails,
    /// The host path the file comes from, following redirects, where it exists.
    pub source_path: Option<String>,
    /// What the file system said of the source path.
    pub source_details: Option<FileDetails>,
}

/// What the disk says of an upper-layer entry when its changes are worked out.
#[derive(Debug, Clone)]
pub struct EntryFacts {
    /// The upper-layer path is an opaque directory.
    pub opaque: bool,
    /// The upper-layer path is a whiteout.
    pub removed: bool,
    /// The source path is a directory.
    pub source_is_dir: bool,
    /// The source path and everything below it, where it is a directory to remove.
    pub source_tree: Vec<FileDetails>,
    /// The upper-layer path read again.
    pub upper_now: FileDetails,
    /// The upper-layer path, read again, carries a redirect.
    pub renamed_now: bool,
    /// Some ancestor of the upper-layer path is an opaque directory.
    pub opaque_ancestor: bool,
}

/// The source paths that redirects move elsewhere: those of the entries flagged in
/// `renamed`, in order.
pub open spec fn moved_sources(entries: Seq<UpperEntry>, renamed: Seq<bool>) -> Seq<Seq<char>>
    decreases entries.len(),
{
    if entries.len() == 0 {
        seq![]
    } else {
        let before = moved_sources(entries.drop_last(), renamed);
        let n = entries.len() - 1;
        match entries.last().source_path {
            Some(sp) => if renamed[n] {
                before.push(sp@)
            } else {
                before
            },
            None => before,
        }
    }
}

/// Whether an entry stands for a removal on the host: a whiteout, an opaque directory, or
/// a directory that became something else.
pub open spec fn removes_source(e: UpperEntry, f: EntryFacts) -> bool {
    f.opaque || f.removed || (file_type(e.upper_details.stat.st_mode) != S_IFDIR && f.source_is_dir)
}

/// The removals that an entry gives: none where its source is moved elsewhere or it has
/// no source; for a directory, one for it and each path below it; else one for the
/// source.
pub open spec fn removal_changes(e: UpperEntry, moved: Seq<Seq<char>>, f: EntryFacts) -> Seq<EntryView> {
    match e.source_path {
        Some(sp) => if removes_source(e, f) && !moved.contains(sp@) {
            if f.source_is_dir {
                Seq::new(
                    f.source_tree@.len(),
                    |i: int|
                        (
                            f.source_tree@[i].path@,
                            EntryOperation::Remove,
                            Some(details_view(f.source_tree@[i])),
                            if f.source_tree@[i].path@ == sp@ {
                                Some(details_view(e.upper_details))
                            } else {
                                None
                            },
                            None,
                        ),
                )
            } else {
                seq![
                    (
                        sp@,
                        EntryOperation::Remove,
                        opt_details_view(e.source_details),
                        Some(details_view(e.upper_details)),
                        None,
                    ),
                ]
            }
        } else {
            seq![]
        },
        None => seq![],
    }
}

/// Whether a file type can be carried over to the host: a regular file, a directory or a
/// symbolic link.
pub open spec fn supported_type(mode: u32) -> bool {
    file_type(mode) == S_IFREG || file_type(mode) == S_IFDIR || file_type(mode) == S_IFLNK
}

/// The change that an entry that is not a whiteout gives for its host path: a rename
/// where it carries a redirect (an error where the redirect's source is missing), an
/// error for unsupported file types, else a write, which modifies where the host has the
/// file outside any opaque directory and creates otherwise.
pub open spec fn kept_changes(e: UpperEntry, f: EntryFacts) -> Seq<EntryView> {
    let source = opt_details_view(e.source_details);
    if f.removed {
        seq![]
    } else if f.renamed_now {
        if e.source_details is None {
            seq![
                (
                    e.lower_path@,
                    EntryOperation::Error(ChangeError::RedirectPathNotFound),
                    source,
                    Some(details_view(e.upper_details)),
                    None,
                ),
            ]
        } else {
            seq![(e.lower_path@, EntryOperation::Rename, source, Some(details_view(e.upper_details)), None)]
        }
    } else if !supported_type(e.upper_details.stat.st_mode) {
        seq![
            (
                e.lower_path@,
                EntryOperation::Error(ChangeError::UnsupportedFileType),
                source,
                Some(details_view(f.upper_now)),
                None,
            ),
        ]
    } else {
        let kind = if e.source_details is Some && !f.opaque_ancestor {
            SetType::Modify
        } else {
            SetType::Create
        };
        seq![(e.lower_path@, EntryOperation::Write(kind), source, Some(details_view(f.upper_now)), None)]
    }
}

/// The changes that one entry gives: its removals, then the change to its host path.
pub open spec fn entry_changes(e: UpperEntry, moved: Seq<Seq<char>>, f: EntryFacts) -> Seq<EntryView> {
    removal_changes(e, moved, f) + kept_changes(e, f)
}

/// The changes that the entries give, in order.
pub open spec fn all_changes(entries: Seq<UpperEntry>, moved: Seq<Seq<char>>, facts: Seq<EntryFacts>) -> Seq<EntryView>
    decreases entries.len(),
{
    if entries.len() == 0 {
        seq![]
    } else {
        let n = entries.len() - 1;
        all_changes(entries.drop_last(), moved, facts) + entry_changes(entries[n], moved, facts[n])
    }
}

/// Whether `p` is in `moved`.
fn is_moved(moved: &Vec<String>, p: &String) -> (r: bool)
    ensures
        r == str_views(moved@).contains(p@),
{
    let mut i: usize = 0;
    while i < moved.len()
        invariant
            i <= moved.len(),
            forall|k: int| 0 <= k < i ==> moved@[k]@ != p@,
        decreases moved.len() - i,
    {
        if str_eq(moved[i].as_str(), p.as_str()) {
            assert(str_views(moved@)[i as int] == p@);
            return true;
        }
        i = i + 1;
    }
    assert forall|k: int| 0 <= k < str_views(moved@).len() implies str_views(moved@)[k] != p@ by {
        assert(str_views(moved@)[k] == moved@[k]@);
    }
    false
}

/// The source paths that redirects move elsewhere.
pub fn moved_source_paths(entries: &Vec<UpperEntry>, renamed: &Vec<bool>) -> (r: Vec<String>)
    requires
        entries.len() == renamed.len(),
    ensures
        str_views(r@) == moved_sources(entries@, renamed@),
{
    let mut r: Vec<String> = Vec::new();
    let mut i: usize = 0;
    while i < entries.len()
        invariant
            i <= entries.len() == renamed.len(),
            str_views(r@) == moved_sources(entries@.take(i as int), renamed@),
        decreases entries.len() - i,
    {
        assert(entries@.take(i + 1).drop_last() =~= entries@.take(i as int));
        assert(entries@.take(i + 1).last() == entries@[i as int]);
        if renamed[i] {
            if let Some(sp) = &entries[i].source_path {
                let ghost before = r@;
                r.push(owned(sp.as_str()));
                assert(str_views(r@) =~= str_views(before).push(sp@));
            }
        }
        i = i + 1;
    }
    assert(entries@.take(entries.len() as int) =~= entries@);
    r
}

/// The removal of one path below a removed directory.
fn tree_removal(d: &FileDetails, source_path: &String, upper: &FileDetails) -> (r: ChangeEntry)
    ensures
        entry_view(r) == (
            d.path@,
            EntryOperation::Remove,
            Some(details_view(*d)),
            if d.path@ == source_path@ {
                Some(details_view(*upper))
            } else {
                None
            },
            None::<Seq<char>>,
        ),
{
    ChangeEntry {
        destination: owned(d.path.as_str()),
        operation: EntryOperation::Remove,
        source: Some(copy_details(d)),
        staged: if str_eq(d.path.as_str(), source_path.as_str()) {
            Some(copy_details(upper))
        } else {
            None
        },
        tmp_path: None,
    }
}

/// The changes that one entry gives, from what the disk says of it; `moved` holds the
/// source paths that redirects move elsewhere.
pub fn changes_of_entry(e: &UpperEntry, moved: &Vec<String>, f: &EntryFacts) -> (r: Vec<ChangeEntry>)
    ensures
        entry_views(r@) == entry_changes(*e, str_views(moved@), *f),
{
    let mut r: Vec<ChangeEntry> = Vec::new();
    let removes = f.opaque || f.removed || (!e.upper_details.is_dir() && f.source_is_dir);
    if let Some(sp) = &e.source_path {
        if removes && !is_moved(moved, sp) {
            if f.source_is_dir {
                let mut i: usize = 0;
                while i < f.source_tree.len()
                    invariant
                        i <= f.source_tree.len(),
                        e.source_path == Some(*sp),
                        removes_source(*e, *f),
                        !str_views(moved@).contains(sp@),
                        f.source_is_dir,
                        entry_views(r@) == removal_changes(*e, str_views(moved@), *f).take(i as int),
                        removal_changes(*e, str_views(moved@), *f).len() == f.source_tree.len(),
                    decreases f.source_tree.len() - i,
                {
                    let ghost before = r@;
                    let ghost rc = removal_changes(*e, str_views(moved@), *f);
                    let item = tree_removal(&f.source_tree[i], sp, &e.upper_details);
                    r.push(item);
                    proof {
                        let d = f.source_tree@[i as int];
                        assert(rc[i as int] == (
                            d.path@,
                            EntryOperation::Remove,
                            Some(details_view(d)),
                            if d.path@ == sp@ {
                                Some(details_view(e.upper_details))
                            } else {
                                None
                            },
                            None::<Seq<char>>,
                        ));
                        assert(entry_views(r@) =~= entry_views(before).push(entry_view(item)));
                        assert(rc.take(i + 1) =~= rc.take(i as int).push(rc[i as int]));
                    }
                    i = i + 1;
                }
            } else {
                r.push(ChangeEntry {
                    destination: owned(sp.as_str()),
                    operation: EntryOperation::Remove,
                    source: copy_opt_details(&e.source_details),
                    staged: Some(copy_details(&e.upper_details)),
                    tmp_path: None,
                });
            }
        }
    }
    assert(entry_views(r@) =~= removal_changes(*e, str_views(moved@), *f));
    let ghost removals = r@;
    if !f.removed {
        if f.renamed_now {
            let op = if e.source_details.is_none() {
                EntryOperation::Error(ChangeError::RedirectPathNotFound)
            } else {
                EntryOperation::Rename
            };
            r.push(ChangeEntry {
                destination: owned(e.lower_path.as_str()),
                operation: op,
                source: copy_opt_details(&e.source_details),
                staged: Some(copy_details(&e.upper_details)),
                tmp_path: None,
            });
        } else {
            let mode = e.upper_details.stat.st_mode & S_IFMT;
            if mode != S_IFREG && mode != S_IFDIR && mode != S_IFLNK {
                r.push(ChangeEntry {
                    destination: owned(e.lower_path.as_str()),
                    operation: EntryOperation::Error(ChangeError::UnsupportedFileType),
                    source: copy_opt_details(&e.source_details),
                    staged: Some(copy_details(&f.upper_now)),
                    tmp_path: None,
                });
            } else {
                let kind = if e.source_details.is_some() && !f.opaque_ancestor {
                    SetType::Modify
                } else {
                    SetType::Create
                };
                r.push(ChangeEntry {
                    destination: owned(e.lower_path.as_str()),
                    operation: EntryOperation::Write(kind),
                    source: copy_opt_details(&e.source_details),
                    staged: Some(copy_details(&f.upper_now)),
                    tmp_path: None,
                });
            }
        }
    }
    assert(entry_views(r@) =~= entry_views(removals) + kept_changes(*e, *f));
    r
}

/// What was read from the disk for an upper-layer entry, in the order it is read: the
/// upper-layer path again, whether the source path is a directory, the opaque and
/// whiteout markers, the paths of the walk of the source directory (where it is walked)
/// with what was read of each (up to the first that could not be read), whether the
/// upper-layer path carries a redirect, and whether an ancestor is opaque.
#[derive(Debug, Clone)]
pub struct EntryReadings {
    pub upper_now: Option<FileDetails>,
    pub source_is_dir: bool,
    pub opaque: bool,
    pub removed: bool,
    pub walked: Vec<String>,
    pub tree: Vec<Option<FileDetails>>,
    pub renamed_now: bool,
    pub opaque_ancestor: bool,
}

/// Whether the source directory of an entry is walked: the entry removes it (the upper
/// path is opaque or a whiteout, or a non-directory over a directory), no redirect moves
/// it elsewhere, and it is a directory.
pub open spec fn walks_source(e: UpperEntry, moved: Seq<Seq<char>>, opaque: bool, removed: bool, source_is_dir: bool) -> bool {
    &&& e.source_path is Some
    &&& (opaque || removed || (file_type(e.upper_details.stat.st_mode) != S_IFDIR && source_is_dir))
    &&& !moved.contains(e.source_path->0@)
    &&& source_is_dir
}

/// The view of the facts of an entry.
pub open spec fn facts_view(f: EntryFacts) -> (bool, bool, bool, Seq<(Seq<char>, FileStat)>, (Seq<char>, FileStat), bool, bool) {
    (
        f.opaque,
        f.removed,
        f.source_is_dir,
        f.source_tree@.map_values(|d: FileDetails| details_view(d)),
        details_view(f.upper_now),
        f.renamed_now,
        f.opaque_ancestor,
    )
}

/// Whether every path of the walk was read.
pub open spec fn tree_complete(rd: EntryReadings) -> bool {
    rd.tree.len() == rd.walked.len() && forall|k: int| 0 <= k < rd.tree.len() ==> (#[trigger] rd.tree@[k]) is Some
}

/// The facts of an entry that its readings give: an error where the upper-layer path is
/// gone, or where a path of the walk could not be read; the walked tree only where the
/// source is walked; the redirect only for a path that is not a whiteout; the opaque
/// ancestor only for a path that is neither a whiteout nor redirected and whose source
/// exists.
pub open spec fn facts_of(e: UpperEntry, moved: Seq<Seq<char>>, rd: EntryReadings) -> Result<
    (bool, bool, bool, Seq<(Seq<char>, FileStat)>, (Seq<char>, FileStat), bool, bool),
    Seq<char>,
> {
    match rd.upper_now {
        None => Err("Failed to get file details for upper path"@),
        Some(u) => {
            let walk = walks_source(e, moved, rd.opaque, rd.removed, rd.source_is_dir);
            if walk && !tree_complete(rd) {
                Err("File details should always exist for existing paths"@)
            } else {
                let tree = if walk {
                    rd.tree@.map_values(|o: Option<FileDetails>| details_view(o->0))
                } else {
                    seq![]
                };
                let renamed = if rd.removed {
                    false
                } else {
                    rd.renamed_now
                };
                let ancestor = if !rd.removed && !renamed && e.source_details is Some {
                    rd.opaque_ancestor
                } else {
                    false
                };
                Ok((rd.opaque, rd.removed, rd.source_is_dir, tree, details_view(u), renamed, ancestor))
            }
        },
    }
}

/// What holds of readings whatever the disk said, once the upper-layer path was read:
/// they are of the entry's upper-layer path; there is no source directory without a
/// source path; a character device counts as removed exactly when it is a whiteout; a
/// walk is made only of the source path, starting there, and each path read is the
/// walk's; and the opaque ancestor is the verdict on readings of the nearest ancestors.
pub open spec fn readings_fit(e: UpperEntry, moved: Seq<Seq<char>>, rd: EntryReadings) -> bool {
    rd.upper_now is Some ==> {
        &&& rd.upper_now->0.path@ == e.upper_path@
        &&& (e.source_path is None ==> !rd.source_is_dir)
        &&& (file_type(e.upper_details.stat.st_mode) == crate::sandbox::changes::file_details::S_IFCHR
            ==> rd.removed == crate::sandbox::changes::file_details::whiteout_device(e.upper_details.stat.st_rdev))
        &&& (walks_source(e, moved, rd.opaque, rd.removed, rd.source_is_dir) ==> {
            &&& (rd.walked.len() > 0 ==> rd.walked@[0]@ == e.source_path->0@)
            &&& rd.tree.len() <= rd.walked.len()
            &&& forall|k: int| 0 <= k < rd.tree.len() ==> ((#[trigger] rd.tree@[k]) matches Some(d) ==> d.path@ == rd.walked@[k]@)
        })
        &&& (!walks_source(e, moved, rd.opaque, rd.removed, rd.source_is_dir) ==> rd.walked.len() == 0 && rd.tree.len() == 0)
        &&& exists|readings: Seq<Option<bool>>|
            readings.len() <= ancestors(e.upper_path@).len() && #[trigger] opaque_verdict(readings) == rd.opaque_ancestor
    }
}

/// The facts of an entry as the readings of the disk give them: there are readings,
/// fitting the entry, from which they follow.
pub open spec fn facts_fit(e: UpperEntry, moved: Seq<Seq<char>>, f: EntryFacts) -> bool {
    exists|rd: EntryReadings| readings_fit(e, moved, rd) && #[trigger] facts_of(e, moved, rd) == Ok::<
        (bool, bool, bool, Seq<(Seq<char>, FileStat)>, (Seq<char>, FileStat), bool, bool),
        Seq<char>,
    >(facts_view(f))
}

fn walks_source_of(e: &UpperEntry, moved: &Vec<String>, opaque: bool, removed: bool, source_is_dir: bool) -> (r: bool)
    ensures
        r == walks_source(*e, str_views(moved@), opaque, removed, source_is_dir),
{
    match &e.source_path {
        None => false,
        Some(sp) => (opaque || removed || (!e.upper_details.is_dir() && source_is_dir)) && !is_moved(moved, sp)
            && source_is_dir,
    }
}

/// The facts of an entry from what was read of the disk (see `facts_of`).
#[verifier::loop_isolation(false)]
pub fn entry_facts_from(e: &UpperEntry, moved: &Vec<String>, rd: EntryReadings) -> (r: Result<EntryFacts, String>)
    ensures
        match (r, facts_of(*e, str_views(moved@), rd)) {
            (Ok(f), Ok(v)) => facts_view(f) == v,
            (Err(a), Err(b)) => a@ == b,
            _ => false,
        },
{
    let ghost g = rd;
    let upper_now = match rd.upper_now {
        None => {
            return Err(owned("Failed to get file details for upper path"));
        },
        Some(u) => u,
    };
    let walk = walks_source_of(e, moved, rd.opaque, rd.removed, rd.source_is_dir);
    let mut source_tree: Vec<FileDetails> = Vec::new();
    if walk {
        if rd.tree.len() != rd.walked.len() {
            return Err(owned("File details should always exist for existing paths"));
        }
        let mut i: usize = 0;
        while i < rd.tree.len()
            invariant
                i <= rd.tree.len(),
                g.tree == rd.tree,
                forall|k: int| 0 <= k < i ==> (#[trigger] rd.tree@[k]) is Some,
                source_tree@.map_values(|d: FileDetails| details_view(d)) == rd.tree@.take(i as int).map_values(
                    |o: Option<FileDetails>| details_view(o->0),
                ),
            decreases rd.tree.len() - i,
        {
            match &rd.tree[i] {
                Some(d) => {
                    assert(g.tree@[i as int] is Some);
                    let ghost before = source_tree@;
                    source_tree.push(copy_details(d));
                    assert(source_tree@.map_values(|d: FileDetails| details_view(d)) =~= before.map_values(
                        |d: FileDetails| details_view(d),
                    ).push(details_view(*d)));
                    assert(rd.tree@.take(i + 1).map_values(|o: Option<FileDetails>| details_view(o->0))
                        =~= rd.tree@.take(i as int).map_values(|o: Option<FileDetails>| details_view(o->0)).push(
                        details_view(*d),
                    ));
                },
                None => {
                    assert(g.tree@[i as int] is None);
                    assert(!tree_complete(g));
                    return Err(owned("File details should always exist for existing paths"));
                },
            }
            i = i + 1;
        }
        assert(rd.tree@.take(rd.tree.len() as int) =~= rd.tree@);
    }
    let renamed_now = if rd.removed {
        false
    } else {
        rd.renamed_now
    };
    let opaque_ancestor = if !rd.removed && !renamed_now && e.source_details.is_some() {
        rd.opaque_ancestor
    } else {
        false
    };
    let f = EntryFacts {
        opaque: rd.opaque,
        removed: rd.removed,
        source_is_dir: rd.source_is_dir,
        source_tree,
        upper_now,
        renamed_now,
        opaque_ancestor,
    };
    assert(facts_view(f).3 == (if walk { g.tree@.map_values(|o: Option<FileDetails>| details_view(o->0)) } else { seq![] }));
    Ok(f)
}

/// A message from reading the disk: it names a path whose metadata could not be read, or
/// the upper-layer path whose redirect could not be read.
pub open spec fn read_error(upper: Seq<char>, m: Seq<char>) -> bool {
    ||| exists|p: Seq<char>| #[trigger] stat_error_prefix(p).is_prefix_of(m)
    ||| redirect_read_error(upper, m)
}

/// Whether the entry `i` of `entries`, with the redirects recorded as `renamed`, fails
/// with `m` on readings `rd` that fit it.
pub open spec fn entry_failed_at(entries: Seq<UpperEntry>, i: int, renamed: Seq<bool>, rd: EntryReadings, m: Seq<char>) -> bool {
    &&& renamed.len() == entries.len()
    &&& readings_fit(entries[i], moved_sources(entries, renamed), rd)
    &&& facts_of(entries[i], moved_sources(entries, renamed), rd) == Err::<
        (bool, bool, bool, Seq<(Seq<char>, FileStat)>, (Seq<char>, FileStat), bool, bool),
        Seq<char>,
    >(m)
}

/// Whether listing the changes may fail with `m` at the entry `i` of `entries`: reading
/// its redirect failed, a read of the disk for it failed, or the readings of it, which
/// fit it, give that error.
pub open spec fn entry_error(entries: Seq<UpperEntry>, i: int, m: Seq<char>) -> bool {
    ||| redirect_read_error(entries[i].upper_details.path@, m)
    ||| read_error(entries[i].upper_path@, m)
    ||| exists|renamed: Seq<bool>, rd: EntryReadings| #[trigger] entry_failed_at(entries, i, renamed, rd, m)
}

impl Sandbox {
    /// Reads what the disk says of an upper-layer entry that is needed to work out its
    /// changes, in the order the decisions need it, and works out its facts from that
    /// (see `facts_of`); `moved` holds the source paths that redirects move elsewhere.
    #[verifier::loop_isolation(false)]
    pub fn entry_facts(&self, e: &UpperEntry, moved: &Vec<String>) -> (r: Result<EntryFacts, String>)
        ensures
            r matches Ok(f) ==> facts_fit(*e, str_views(moved@), f),
            r matches Err(m) ==> read_error(e.upper_path@, m@) || exists|rd: EntryReadings|
                readings_fit(*e, str_views(moved@), rd) && #[trigger] facts_of(*e, str_views(moved@), rd)
                    == Err::<(bool, bool, bool, Seq<(Seq<char>, FileStat)>, (Seq<char>, FileStat), bool, bool), Seq<char>>(
                    m@,
                ),
    {
        let ghost mv = str_views(moved@);
        let upper = match FileDetails::from_path(&e.upper_path) {
            Ok(u) => u,
            Err(m) => {
                assert(stat_error_prefix(e.upper_path@).is_prefix_of(m@));
                return Err(m);
            },
        };
        let upper_now = match upper {
            Some(d) => d,
            None => {
                let rd = EntryReadings {
                    upper_now: None,
                    source_is_dir: false,
                    opaque: false,
                    removed: false,
                    walked: Vec::new(),
                    tree: Vec::new(),
                    renamed_now: false,
                    opaque_ancestor: false,
                };
                let ghost g = rd;
                let r = entry_facts_from(e, moved, rd);
                assert(readings_fit(*e, mv, g));
                return r;
            },
        };
        let source_is_dir = match &e.source_path {
            Some(sp) => path_is_dir(sp.as_str()),
            None => false,
        };
        let opaque = e.upper_details.is_opaque();
        let removed = e.upper_details.is_removed();
        let walk = walks_source_of(e, moved, opaque, removed, source_is_dir);
        let mut walked: Vec<String> = Vec::new();
        let mut tree: Vec<Option<FileDetails>> = Vec::new();
        if walk {
            match &e.source_path {
                Some(sp) => {
                    walked = walk_paths(sp.as_str());
                },
                None => {},
            }
            let mut i: usize = 0;
            while i < walked.len()
                invariant
                    i <= walked.len(),
                    tree.len() == i,
                    forall|k: int| 0 <= k < i ==> ((#[trigger] tree@[k]) matches Some(d) && d.path@ == walked@[k]@),
                decreases walked.len() - i,
            {
                match FileDetails::from_path(&walked[i]) {
                    Ok(Some(d)) => {
                        tree.push(Some(d));
                    },
                    Ok(None) => {
                        tree.push(None);
                        let rd = EntryReadings {
                            upper_now: Some(upper_now),
                            source_is_dir,
                            opaque,
                            removed,
                            walked,
                            tree,
                            renamed_now: false,
                            opaque_ancestor: false,
                        };
                        let ghost g = rd;
                        let r = entry_facts_from(e, moved, rd);
                        proof {
                            let none: Seq<Option<bool>> = seq![];
                            assert(opaque_verdict(none) == false);
                            assert(!tree_complete(g)) by {
                                assert(g.tree@[i as int] is None);
                            }
                            assert(readings_fit(*e, mv, g));
                        }
                        return r;
                    },
                    Err(m) => {
                        assert(stat_error_prefix(walked@[i as int]@).is_prefix_of(m@));
                        return Err(m);
                    },
                }
                i = i + 1;
            }
        }
        let renamed_now = if removed {
            false
        } else {
            match upper_now.is_renamed() {
                Ok(x) => x.is_some(),
                Err(m) => {
                    return Err(m);
                },
            }
        };
        let opaque_ancestor = if !removed && !renamed_now && e.source_details.is_some() {
            has_opaque_ancestor(&e.upper_path)
        } else {
            false
        };
        let rd = EntryReadings {
            upper_now: Some(upper_now),
            source_is_dir,
            opaque,
            removed,
            walked,
            tree,
            renamed_now,
            opaque_ancestor,
        };
        let ghost g = rd;
        let r = entry_facts_from(e, moved, rd);
        proof {
            let none: Seq<Option<bool>> = seq![];
            assert(opaque_verdict(none) == false);
            assert(readings_fit(*e, mv, g));
        }
        r
    }

    /// The changes that the upper layer holds, from its entries: a first pass finds the
    /// source paths that redirects move elsewhere (they are renamed, not removed), a
    /// second turns each entry into its removals and the change to its host path.
    pub fn changes(&self, entries: &Vec<UpperEntry>) -> (r: Result<ChangeEntries, String>)
        ensures
            r matches Ok(c) ==> exists|renamed: Seq<bool>, facts: Seq<EntryFacts>|
                #![trigger all_changes(entries@, moved_sources(entries@, renamed), facts)]
                renamed.len() == entries.len() && facts.len() == entries.len()
                && (forall|i: int| 0 <= i < entries.len() ==> #[trigger] facts_fit(entries@[i], moved_sources(entries@, renamed), facts[i]))
                && entry_views(c.0@) == all_changes(entries@, moved_sources(entries@, renamed), facts),
            entries.len() == 0 ==> (r matches Ok(c) && c.0.len() == 0),
            r matches Err(m) ==> exists|i: int| 0 <= i < entries.len() && #[trigger] entry_error(entries@, i, m@),
    {
        let mut renamed: Vec<bool> = Vec::new();
        let mut i: usize = 0;
        while i < entries.len()
            invariant
                i <= entries.len(),
                renamed.len() == i,
            decreases entries.len() - i,
        {
            let is_renamed = match entries[i].upper_details.is_renamed() {
                Ok(o) => o.is_some(),
                Err(m) => {
                    assert(entry_error(entries@, i as int, m@));
                    let r: Result<ChangeEntries, String> = Err(m);
                    assert(r->Err_0@ == m@);
                    return r;
                },
            };
            renamed.push(is_renamed);
            i = i + 1;
        }
        let moved = moved_source_paths(entries, &renamed);
        let ghost mv = moved_sources(entries@, renamed@);
        let mut facts: Vec<EntryFacts> = Vec::new();
        let mut out: Vec<ChangeEntry> = Vec::new();
        let mut j: usize = 0;
        while j < entries.len()
            invariant
                j <= entries.len() == renamed.len(),
                facts.len() == j,
                str_views(moved@) == mv,
                mv == moved_sources(entries@, renamed@),
                entry_views(out@) == all_changes(entries@.take(j as int), mv, facts@),
                forall|i: int| 0 <= i < j ==> #[trigger] facts_fit(entries@[i], mv, facts@[i]),
            decreases entries.len() - j,
        {
            let f = match self.entry_facts(&entries[j], &moved) {
                Ok(f) => f,
                Err(m) => {
                    proof {
                        if !read_error(entries@[j as int].upper_path@, m@) {
                            let rd = choose|rd: EntryReadings|
                                readings_fit(entries@[j as int], mv, rd) && #[trigger] facts_of(entries@[j as int], mv, rd)
                                    == Err::<(bool, bool, bool, Seq<(Seq<char>, FileStat)>, (Seq<char>, FileStat), bool, bool), Seq<char>>(m@);
                            assert(entry_failed_at(entries@, j as int, renamed@, rd, m@));
                        }
                        assert(entry_error(entries@, j as int, m@));
                    }
                    let r: Result<ChangeEntries, String> = Err(m);
                    assert(r->Err_0@ == m@);
                    return r;
                },
            };
            let mut some = changes_of_entry(&entries[j], &moved, &f);
            proof {
                lemma_all_changes_prefix(entries@.take(j as int), mv, facts@, f);
                assert(entries@.take(j + 1).drop_last() =~= entries@.take(j as int));
                assert(entries@.take(j + 1)[j as int] == entries@[j as int]);
                assert(facts@.push(f)[j as int] == f);
            }
            let ghost before = out@;
            let ghost added = some@;
            out.append(&mut some);
            assert(entry_views(out@) =~= entry_views(before) + entry_views(added));
            facts.push(f);
            j = j + 1;
        }
        assert(entries@.take(entries.len() as int) =~= entries@);
        Ok(ChangeEntries(out))
    }
}

/// Appending facts for entries beyond the prefix does not change the prefix's changes.
proof fn lemma_all_changes_prefix(entries: Seq<UpperEntry>, moved: Seq<Seq<char>>, facts: Seq<EntryFacts>, f: EntryFacts)
    requires
        facts.len() >= entries.len(),
    ensures
        all_changes(entries, moved, facts.push(f)) == all_changes(entries, moved, facts),
    decreases entries.len(),
{
    if entries.len() > 0 {
        lemma_all_changes_prefix(entries.drop_last(), moved, facts, f);
        assert(facts.push(f)[entries.len() - 1] == facts[entries.len() - 1]);
    }
}

/// How many files the upper layer holds: those the ignore rules hide and the rest.
#[derive(Debug, Clone, Copy)]
pub struct CountResult {
    pub not_ignored: usize,
    pub ignored: usize,
}

/// The number of `true` values in a sequence.
pub open spec fn count_true(s: Seq<bool>) -> nat
    decreases s.len(),
{
    if s.len() == 0 {
        0
    } else {
        count_true(s.drop_last()) + if s.last() {
            1nat
        } else {
            0nat
        }
    }
}

/// Counts the files of the upper layer: `ignored[i]` tells whether the `i`-th file is
/// hidden by the ignore rules.
pub fn count_result(ignored: &Vec<bool>) -> (r: CountResult)
    ensures
        r.ignored == count_true(ignored@),
        r.not_ignored + r.ignored == ignored.len(),
{
    let mut hidden: usize = 0;
    let mut i: usize = 0;
    while i < ignored.len()
        invariant
            i <= ignored.len(),
            hidden == count_true(ignored@.take(i as int)),
            hidden <= i,
        decreases ignored.len() - i,
    {
        assert(ignored@.take(i + 1).drop_last() =~= ignored@.take(i as int));
        if ignored[i] {
            hidden = hidden + 1;
        }
        i = i + 1;
    }
    assert(ignored@.take(ignored.len() as int) =~= ignored@);
    CountResult { not_ignored: ignored.len() - hidden, ignored: hidden }
}

/// A source path that a redirect moves elsewhere is renamed, never removed: its entry
/// gives no removals.
pub proof fn lemma_moved_source_not_removed(e: UpperEntry, moved: Seq<Seq<char>>, f: EntryFacts)
    requires
        e.source_path is Some,
        moved.contains(e.source_path->0@),
    ensures
        removal_changes(e, moved, f) == Seq::<EntryView>::empty(),
{
}

/// A whiteout gives only removals: nothing is written for a path the sandbox removed.
pub proof fn lemma_whiteout_only_removes(e: UpperEntry, moved: Seq<Seq<char>>, f: EntryFacts)
    requires
        f.removed,
    ensures
        entry_changes(e, moved, f) == removal_changes(e, moved, f),
        forall|i: int| 0 <= i < entry_changes(e, moved, f).len() ==> (#[trigger] entry_changes(e, moved, f)[i]).1
            == EntryOperation::Remove,
{
    assert(entry_changes(e, moved, f) =~= removal_changes(e, moved, f));
}

/// An entry that stands for removing what the host has (a whiteout, an opaque
/// directory, or a directory that became something else), whose source path no redirect
/// moves elsewhere, removes it on the host before anything else: for a source directory
/// its changes start with one removing each path of its walked tree, in order, else with
/// one removing the source path.
pub proof fn lemma_removed_sources_are_removed(e: UpperEntry, moved: Seq<Seq<char>>, f: EntryFacts)
    requires
        e.source_path is Some,
        !moved.contains(e.source_path->0@),
        f.opaque || f.removed || (file_type(e.upper_details.stat.st_mode) != S_IFDIR && f.source_is_dir),
    ensures
        f.source_is_dir ==> entry_changes(e, moved, f).len() >= f.source_tree.len() && forall|k: int|
            0 <= k < f.source_tree.len() ==> (#[trigger] entry_changes(e, moved, f)[k]).0 == f.source_tree@[k].path@
                && entry_changes(e, moved, f)[k].1 == EntryOperation::Remove,
        !f.source_is_dir ==> entry_changes(e, moved, f).len() >= 1 && entry_changes(e, moved, f)[0].0
            == e.source_path->0@ && entry_changes(e, moved, f)[0].1 == EntryOperation::Remove,
{
    let rc = removal_changes(e, moved, f);
    assert(removes_source(e, f));
    assert(entry_changes(e, moved, f).len() == rc.len() + kept_changes(e, f).len());
    if f.source_is_dir {
        assert(rc.len() == f.source_tree@.len());
        assert forall|k: int| 0 <= k < f.source_tree.len() implies (#[trigger] entry_changes(e, moved, f)[k]).0
            == f.source_tree@[k].path@ && entry_changes(e, moved, f)[k].1 == EntryOperation::Remove by {
            assert(entry_changes(e, moved, f)[k] == rc[k]);
        }
    } else {
        assert(rc.len() == 1);
        assert(entry_changes(e, moved, f)[0] == rc[0]);
    }
}

} // verus!
