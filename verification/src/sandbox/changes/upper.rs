//! Reading the paths of the upper layer: each mount's changes sit under the base32 name
//! of its mount point, and which of them ignore rules hide.
use vstd::prelude::*;
use vstd::utf8::{valid_utf8, decode_utf8};
use crate::text::{chars_of, string_of, copy_chars, owned, str_views};
use crate::paths::{
    components, components_of, join, join_chars, rebuild, rebuild_of, strip_prefix, strip_prefix_of,
    views,
};
use crate::encoding::{base32_decode, base32_nocase_decoded, text_from_utf8};
use crate::glob::{glob_match, glob_matches};
use crate::sandbox::changes::changes::{
    IgnorePattern, pattern_views, parse_ignore_content, lines_patterns, text_lines,
};

verus! {

/// `start` with each of `cs` pushed onto it in turn (`PathBuf::push`).
pub open spec fn pushed(start: Seq<char>, cs: Seq<Seq<char>>) -> Seq<char>
    decreases cs.len(),
{
    if cs.len() == 0 {
        start
    } else {
        join(pushed(start, cs.drop_last()), cs.last())
    }
}

/// `start` with each of `cs` pushed onto it in turn.
pub fn pushed_of(start: &Vec<char>, cs: &Vec<Vec<char>>, from: usize, to: usize) -> (r: Vec<char>)
    requires
        from <= to <= cs.len(),
    ensures
        r@ == pushed(start@, views(cs@).subrange(from as int, to as int)),
{
    let ghost cv = views(cs@);
    let mut r = copy_chars(start);
    let mut i: usize = from;
    assert(cv.subrange(from as int, from as int) =~= Seq::<Seq<char>>::empty());
    while i < to
        invariant
            from <= i <= to <= cs.len(),
            cv == views(cs@),
            r@ == pushed(start@, cv.subrange(from as int, i as int)),
        decreases to - i,
    {
        r = join_chars(&r, &cs[i]);
        proof {
            let s = cv.subrange(from as int, i + 1);
            assert(s.drop_last() =~= cv.subrange(from as int, i as int));
            assert(s.last() == cs@[i as int]@);
        }
        i = i + 1;
    }
    r
}

/// Where a path of the upper layer lies: the base32 name of its mount point, that mount
/// point, the components below it, and the matching host and upper-layer paths.
pub struct UpperLocation {
    /// The base32 name under which the mount's changes are kept.
    pub base: String,
    /// The mount point that the name stands for.
    pub base_decoded: String,
    /// The components below the mount's directory.
    pub sub: Vec<String>,
    /// The host path that the upper-layer path stands for.
    pub lower_path: String,
    /// The directory that holds the mount's changes.
    pub upper_root: String,
    /// The upper-layer path itself.
    pub upper_path: String,
}

/// The view of a location: `(base, base_decoded, sub, lower_path, upper_root, upper_path)`.
pub open spec fn location_view(l: UpperLocation) -> (Seq<char>, Seq<char>, Seq<Seq<char>>, Seq<char>, Seq<char>, Seq<char>) {
    (l.base@, l.base_decoded@, str_views(l.sub@), l.lower_path@, l.upper_root@, l.upper_path@)
}

/// The mount point that a base32 name stands for, where it decodes to UTF-8 text.
pub open spec fn decoded_name(base: Seq<char>) -> Option<Seq<char>> {
    match base32_nocase_decoded(base) {
        Some(bytes) => if valid_utf8(bytes) {
            Some(decode_utf8(bytes))
        } else {
            None
        },
        None => None,
    }
}

/// Where the path `walked`, found below `upper_base`, lies: an error where `walked` is
/// not below `upper_base`; `None` for the upper base itself, a name that is not base32
/// UTF-8 text, and a mount's own directory; else its location.
pub open spec fn upper_location(upper_base: Seq<char>, walked: Seq<char>) -> Result<Option<(Seq<char>, Seq<char>, Seq<Seq<char>>, Seq<char>, Seq<char>, Seq<char>)>, ()> {
    match strip_prefix(walked, upper_base) {
        None => Err(()),
        Some(rel) => {
            let cs = components(rel);
            if cs.len() == 0 {
                Ok(None)
            } else {
                match decoded_name(cs[0]) {
                    None => Ok(None),
                    Some(d) => {
                        let sub = cs.skip(1);
                        if sub.len() == 0 {
                            Ok(None)
                        } else {
                            let upper_root = join(upper_base, cs[0]);
                            Ok(Some((cs[0], d, sub, pushed(d, sub), upper_root, pushed(upper_root, sub))))
                        }
                    },
                }
            }
        },
    }
}

/// Strings of a list of character vectors.
fn strings_of(v: &Vec<Vec<char>>, from: usize) -> (r: Vec<String>)
    requires
        from <= v.len(),
    ensures
        str_views(r@) == views(v@).skip(from as int),
{
    let mut r: Vec<String> = Vec::new();
    let mut i: usize = from;
    while i < v.len()
        invariant
            from <= i <= v.len(),
            str_views(r@) == views(v@).subrange(from as int, i as int),
        decreases v.len() - i,
    {
        let ghost before = r@;
        r.push(string_of(&v[i]));
        assert(str_views(r@) =~= str_views(before).push(v@[i as int]@));
        assert(views(v@).subrange(from as int, i + 1) =~= views(v@).subrange(from as int, i as int).push(v@[i as int]@));
        i = i + 1;
    }
    assert(views(v@).subrange(from as int, v.len() as int) =~= views(v@).skip(from as int));
    r
}

/// Where the path `walked`, found below `upper_base`, lies.
pub fn locate_upper_path(upper_base: &str, walked: &str) -> (r: Result<Option<UpperLocation>, String>)
    ensures
        match (r, upper_location(upper_base@, walked@)) {
            (Err(_), Err(_)) => true,
            (Ok(None), Ok(None)) => true,
            (Ok(Some(l)), Ok(Some(v))) => location_view(l) == v,
            _ => false,
        },
{
    let w = chars_of(walked);
    let b = chars_of(upper_base);
    let rel = match strip_prefix_of(&w, &b) {
        Some(rel) => rel,
        None => {
            return Err(owned("prefix not found"));
        },
    };
    let cs = components_of(&rel);
    if cs.len() == 0 {
        return Ok(None);
    }
    assert(views(cs@)[0] == cs@[0]@);
    let base = string_of(&cs[0]);
    let bytes = match base32_decode(base.as_str()) {
        Some(bytes) => bytes,
        None => {
            return Ok(None);
        },
    };
    let decoded = match text_from_utf8(bytes) {
        Some(d) => d,
        None => {
            return Ok(None);
        },
    };
    if cs.len() < 2 {
        assert(views(cs@).skip(1).len() == 0);
        return Ok(None);
    }
    let sub = strings_of(&cs, 1);
    let d = chars_of(decoded.as_str());
    let lower = pushed_of(&d, &cs, 1, cs.len());
    let root = join_chars(&b, &cs[0]);
    let upper = pushed_of(&root, &cs, 1, cs.len());
    assert(views(cs@).subrange(1, cs.len() as int) =~= views(cs@).skip(1));
    Ok(Some(UpperLocation {
        base,
        base_decoded: decoded,
        sub,
        lower_path: string_of(&lower),
        upper_root: string_of(&root),
        upper_path: string_of(&upper),
    }))
}

/// The globs that always hide a host path from the changes: temporary files, hidden
/// files and directories in home directories, and git metadata.
pub open spec fn builtin_ignore_patterns() -> Seq<Seq<char>> {
    seq!["/tmp/**"@, "/home/*/.*/**"@, "/home/*/.*"@, "**/.git/**"@, "**/.git"@]
}

/// The globs that always hide a host path from the changes.
pub fn built_in_ignore_patterns() -> (r: Vec<String>)
    ensures
        str_views(r@) == builtin_ignore_patterns(),
{
    let mut r: Vec<String> = Vec::new();
    r.push(owned("/tmp/**"));
    r.push(owned("/home/*/.*/**"));
    r.push(owned("/home/*/.*"));
    r.push(owned("**/.git/**"));
    r.push(owned("**/.git"));
    assert(str_views(r@) =~= builtin_ignore_patterns());
    r
}

/// Whether a built-in glob matches the host path.
pub open spec fn builtin_ignored(lower_path: Seq<char>) -> bool {
    exists|i: int| 0 <= i < builtin_ignore_patterns().len() && glob_matches(
        #[trigger] builtin_ignore_patterns()[i],
        lower_path,
    )
}

/// Whether a built-in glob hides the host path `lower_path`.
pub fn is_builtin_ignored(lower_path: &str) -> (r: bool)
    ensures
        r == builtin_ignored(lower_path@),
{
    let patterns = built_in_ignore_patterns();
    let mut i: usize = 0;
    while i < patterns.len()
        invariant
            i <= patterns.len(),
            str_views(patterns@) == builtin_ignore_patterns(),
            forall|j: int| 0 <= j < i ==> !glob_matches(#[trigger] builtin_ignore_patterns()[j], lower_path@),
        decreases patterns.len() - i,
    {
        assert(str_views(patterns@)[i as int] == patterns@[i as int]@);
        if glob_match(patterns[i].as_str(), lower_path) {
            return true;
        }
        i = i + 1;
    }
    false
}

/// One directory whose ignore files apply to a host path: the directory on the host, the
/// same directory in the upper layer, and the path relative to it.
pub struct IgnoreLevel {
    pub lower_dir: String,
    pub upper_dir: String,
    pub relative: String,
}

/// The view of an ignore level.
pub open spec fn level_view(l: IgnoreLevel) -> (Seq<char>, Seq<char>, Seq<char>) {
    (l.lower_dir@, l.upper_dir@, l.relative@)
}

/// The views of ignore levels.
pub open spec fn level_views(s: Seq<IgnoreLevel>) -> Seq<(Seq<char>, Seq<char>, Seq<char>)> {
    s.map_values(|l: IgnoreLevel| level_view(l))
}

/// The directories, from the mount point down, whose ignore files apply to `lower_path`:
/// for each component below the mount point `base_decoded`, the directory that ends with
/// it, on the host and in the upper layer below `upper_root`, and the rest of the path
/// below it. `None` where `lower_path` does not start with `base_decoded`.
pub open spec fn ignore_levels(base_decoded: Seq<char>, lower_path: Seq<char>, upper_root: Seq<char>) -> Option<Seq<(Seq<char>, Seq<char>, Seq<char>)>> {
    match strip_prefix(lower_path, base_decoded) {
        None => None,
        Some(rest_path) => {
            let rest = components(rest_path);
            Some(
                Seq::new(
                    rest.len(),
                    |i: int|
                        (
                            pushed(base_decoded, rest.take(i + 1)),
                            pushed(upper_root, rest.take(i + 1)),
                            rebuild(rest.skip(i + 1)),
                        ),
                ),
            )
        },
    }
}

/// The directories whose ignore files apply to `lower_path`.
pub fn ignore_levels_of(base_decoded: &str, lower_path: &str, upper_root: &str) -> (r: Option<Vec<IgnoreLevel>>)
    ensures
        match (r, ignore_levels(base_decoded@, lower_path@, upper_root@)) {
            (Some(v), Some(s)) => level_views(v@) == s,
            (None, None) => true,
            _ => false,
        },
{
    let d = chars_of(base_decoded);
    let l = chars_of(lower_path);
    let u = chars_of(upper_root);
    let rest_path = match strip_prefix_of(&l, &d) {
        Some(p) => p,
        None => {
            return None;
        },
    };
    let rest = components_of(&rest_path);
    let ghost rv = views(rest@);
    let ghost spec_levels = ignore_levels(base_decoded@, lower_path@, upper_root@).unwrap();
    let mut r: Vec<IgnoreLevel> = Vec::new();
    let mut i: usize = 0;
    while i < rest.len()
        invariant
            i <= rest.len(),
            rv == views(rest@),
            rv == components(rest_path@),
            d@ == base_decoded@,
            u@ == upper_root@,
            spec_levels.len() == rv.len(),
            forall|k: int| 0 <= k < rv.len() ==> #[trigger] spec_levels[k] == (
                pushed(base_decoded@, rv.take(k + 1)),
                pushed(upper_root@, rv.take(k + 1)),
                rebuild(rv.skip(k + 1)),
            ),
            level_views(r@) == spec_levels.take(i as int),
        decreases rest.len() - i,
    {
        let lower_dir = pushed_of(&d, &rest, 0, i + 1);
        let upper_dir = pushed_of(&u, &rest, 0, i + 1);
        let mut tail: Vec<Vec<char>> = Vec::new();
        let mut j: usize = i + 1;
        while j < rest.len()
            invariant
                i + 1 <= j <= rest.len(),
                rv == views(rest@),
                views(tail@) == rv.subrange(i + 1, j as int),
            decreases rest.len() - j,
        {
            let ghost before = tail@;
            tail.push(copy_chars(&rest[j]));
            assert(views(tail@) =~= views(before).push(rest@[j as int]@));
            assert(rv.subrange(i + 1, j + 1) =~= rv.subrange(i + 1, j as int).push(rv[j as int]));
            j = j + 1;
        }
        let relative = rebuild_of(&tail);
        proof {
            assert(rv.subrange(0, i + 1) =~= rv.take(i + 1));
            assert(rv.subrange(i + 1, rest.len() as int) =~= rv.skip(i + 1));
        }
        let ghost before = r@;
        r.push(IgnoreLevel {
            lower_dir: string_of(&lower_dir),
            upper_dir: string_of(&upper_dir),
            relative: string_of(&relative),
        });
        assert(level_views(r@) =~= level_views(before).push(spec_levels[i as int]));
        assert(spec_levels.take(i + 1) =~= spec_levels.take(i as int).push(spec_levels[i as int]));
        i = i + 1;
    }
    assert(spec_levels.take(rest.len() as int) =~= spec_levels);
    Some(r)
}

/// The verdict of the rules of one directory on `relative`, starting from `ignored`:
/// each rule whose glob matches sets the verdict (ignored, or kept for a negated rule).
pub open spec fn rules_verdict(ignored: bool, rules: Seq<(bool, Seq<char>)>, relative: Seq<char>) -> bool
    decreases rules.len(),
{
    if rules.len() == 0 {
        ignored
    } else {
        let before = rules_verdict(ignored, rules.drop_last(), relative);
        if glob_matches(rules.last().1, relative) {
            !rules.last().0
        } else {
            before
        }
    }
}

/// The verdict of the rules of the directories from the mount point down: the last rule
/// that matches wins.
pub open spec fn levels_verdict(relatives: Seq<Seq<char>>, rules: Seq<Seq<(bool, Seq<char>)>>) -> bool
    decreases relatives.len(),
{
    if relatives.len() == 0 {
        false
    } else {
        let n = relatives.len() - 1;
        rules_verdict(levels_verdict(relatives.drop_last(), rules), rules[n], relatives[n])
    }
}

/// Whether the ignore rules of the directories from the mount point down hide a path:
/// `relatives[i]` is the path relative to the `i`-th directory and `rules[i]` the rules
/// that directory's ignore files give.
pub fn rules_ignore(relatives: &Vec<String>, rules: &Vec<Vec<IgnorePattern>>) -> (r: bool)
    requires
        relatives.len() == rules.len(),
    ensures
        r == levels_verdict(str_views(relatives@), rules@.map_values(|v: Vec<IgnorePattern>| pattern_views(v@))),
{
    let ghost rels = str_views(relatives@);
    let ghost rs = rules@.map_values(|v: Vec<IgnorePattern>| pattern_views(v@));
    let mut ignored = false;
    let mut i: usize = 0;
    while i < relatives.len()
        invariant
            i <= relatives.len() == rules.len(),
            rels == str_views(relatives@),
            rs == rules@.map_values(|v: Vec<IgnorePattern>| pattern_views(v@)),
            ignored == levels_verdict(rels.take(i as int), rs),
        decreases relatives.len() - i,
    {
        let level = &rules[i];
        let ghost lv = pattern_views(level@);
        let ghost start = ignored;
        assert(rs[i as int] == lv);
        assert(rels[i as int] == relatives@[i as int]@);
        let mut j: usize = 0;
        while j < level.len()
            invariant
                j <= level.len(),
                i < relatives.len(),
                lv == pattern_views(level@),
                ignored == rules_verdict(start, lv.take(j as int), relatives@[i as int]@),
            decreases level.len() - j,
        {
            assert(lv.take(j + 1).drop_last() =~= lv.take(j as int));
            assert(lv[j as int] == (level@[j as int].negate, level@[j as int].pattern@));
            if glob_match(level[j].pattern.as_str(), relatives[i].as_str()) {
                ignored = !level[j].negate;
            }
            j = j + 1;
        }
        assert(lv.take(level.len() as int) =~= lv);
        assert(rels.take(i + 1).drop_last() =~= rels.take(i as int));
        i = i + 1;
    }
    assert(rels.take(relatives.len() as int) =~= rels);
    ignored
}

/// The ignore file names, in the order their rules apply.
pub open spec fn ignore_file_names() -> Seq<Seq<char>> {
    seq![".gitignore"@, ".ignore"@]
}

/// The files to read for the rules of one directory: for each ignore file name, the
/// upper layer's copy first, then the host's. The rules come from the first of each pair
/// that can be read.
pub fn ignore_file_candidates(upper_dir: &str, lower_dir: &str) -> (r: Vec<(String, String)>)
    ensures
        r.len() == 2,
        forall|k: int| 0 <= k < 2 ==> (#[trigger] r@[k]).0@ == join(upper_dir@, ignore_file_names()[k])
            && r@[k].1@ == join(lower_dir@, ignore_file_names()[k]),
{
    let mut r: Vec<(String, String)> = Vec::new();
    r.push((crate::paths::path_join(upper_dir, ".gitignore"), crate::paths::path_join(lower_dir, ".gitignore")));
    r.push((crate::paths::path_join(upper_dir, ".ignore"), crate::paths::path_join(lower_dir, ".ignore")));
    r
}

/// The rules of one directory, from the text of each ignore file that could be read, in
/// the order of the ignore file names.
pub open spec fn directory_rules(found: Seq<Option<Seq<char>>>) -> Seq<(bool, Seq<char>)>
    decreases found.len(),
{
    if found.len() == 0 {
        seq![]
    } else {
        let before = directory_rules(found.drop_last());
        match found.last() {
            Some(text) => before + lines_patterns(text_lines(text)),
            None => before,
        }
    }
}

/// The rules of one directory from the ignore files that could be read.
pub fn resolve_ignores(found: &Vec<Option<String>>) -> (r: Vec<IgnorePattern>)
    ensures
        pattern_views(r@) == directory_rules(found@.map_values(|t: Option<String>| crate::text::opt_view(t))),
{
    let ghost fv = found@.map_values(|t: Option<String>| crate::text::opt_view(t));
    let mut r: Vec<IgnorePattern> = Vec::new();
    let mut i: usize = 0;
    assert(pattern_views(r@) =~= Seq::<(bool, Seq<char>)>::empty());
    while i < found.len()
        invariant
            i <= found.len(),
            fv == found@.map_values(|t: Option<String>| crate::text::opt_view(t)),
            pattern_views(r@) == directory_rules(fv.take(i as int)),
        decreases found.len() - i,
    {
        assert(fv.take(i + 1).drop_last() =~= fv.take(i as int));
        assert(fv[i as int] == crate::text::opt_view(found@[i as int]));
        match &found[i] {
            Some(text) => {
                parse_ignore_content(text.as_str(), &mut r);
            },
            None => {},
        }
        i = i + 1;
    }
    assert(fv.take(found.len() as int) =~= fv);
    r
}


/// The last rule that matches decides: a matching rule at the end of a directory's rules
/// hides the path, or shows it where the rule is negated, whatever came before.
pub proof fn lemma_last_matching_rule_wins(ignored: bool, rules: Seq<(bool, Seq<char>)>, rule: (bool, Seq<char>), relative: Seq<char>)
    requires
        glob_matches(rule.1, relative),
    ensures
        rules_verdict(ignored, rules.push(rule), relative) == !rule.0,
{
    assert(rules.push(rule).drop_last() =~= rules);
}

/// A rule that does not match leaves the verdict as it was.
pub proof fn lemma_unmatched_rule_keeps_verdict(ignored: bool, rules: Seq<(bool, Seq<char>)>, rule: (bool, Seq<char>), relative: Seq<char>)
    requires
        !glob_matches(rule.1, relative),
    ensures
        rules_verdict(ignored, rules.push(rule), relative) == rules_verdict(ignored, rules, relative),
{
    assert(rules.push(rule).drop_last() =~= rules);
}

} // verus!
