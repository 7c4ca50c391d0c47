//! A model of how Unix paths are read: their components, joining, prefixes and
//! file names, over character sequences.
use vstd::prelude::*;
use crate::text::{chars_of, string_of, push_all, chars_eq, copy_chars};

verus! {

/// The views of a list of character vectors.
pub open spec fn views(v: Seq<Vec<char>>) -> Seq<Seq<char>> {
    v.map_values(|x: Vec<char>| x@)
}

/// The component that names the root directory.
pub open spec fn root_component() -> Seq<char> {
    seq!['/']
}

/// The component that names the current directory.
pub open spec fn cur_component() -> Seq<char> {
    seq!['.']
}

/// The component that names the parent directory.
pub open spec fn parent_component() -> Seq<char> {
    seq!['.', '.']
}

/// Adds a finished piece between separators to the segments: empty pieces and `.`
/// are not components.
pub open spec fn push_segment(done: Seq<Seq<char>>, cur: Seq<char>) -> Seq<Seq<char>> {
    if cur.len() == 0 || cur == cur_component() {
        done
    } else {
        done.push(cur)
    }
}

/// Reads `s` from left to right: the segments finished so far and the piece being read.
pub open spec fn scan(s: Seq<char>) -> (Seq<Seq<char>>, Seq<char>)
    decreases s.len(),
{
    if s.len() == 0 {
        (seq![], seq![])
    } else {
        let (done, cur) = scan(s.drop_last());
        if s.last() == '/' {
            (push_segment(done, cur), seq![])
        } else {
            (done, cur.push(s.last()))
        }
    }
}

/// The pieces of `s` between separators, without empty pieces and `.`.
pub open spec fn segments(s: Seq<char>) -> Seq<Seq<char>> {
    push_segment(scan(s).0, scan(s).1)
}

/// A relative path that starts with the current directory (`.` alone or `./...`).
pub open spec fn starts_with_cur_dir(s: Seq<char>) -> bool {
    s.len() >= 1 && s[0] == '.' && (s.len() == 1 || s[1] == '/')
}

/// The components of a path (`Path::components` on Unix): the root if the path starts
/// with `/`, a leading `.` for paths such as `./a`, then the segments.
pub open spec fn components(s: Seq<char>) -> Seq<Seq<char>> {
    if s.len() > 0 && s[0] == '/' {
        seq![root_component()] + segments(s)
    } else if starts_with_cur_dir(s) {
        seq![cur_component()] + segments(s)
    } else {
        segments(s)
    }
}

/// `base` joined with `p` (`Path::join` on Unix): an absolute `p` replaces `base`,
/// otherwise a separator is put between them where `base` does not already end in one.
pub open spec fn join(base: Seq<char>, p: Seq<char>) -> Seq<char> {
    if p.len() > 0 && p[0] == '/' {
        p
    } else if base.len() > 0 && base.last() != '/' {
        base + seq!['/'] + p
    } else {
        base + p
    }
}

/// Whether `path` starts with `base`, compared component by component (`Path::starts_with`).
pub open spec fn starts_with_path(path: Seq<char>, base: Seq<char>) -> bool {
    components(base).is_prefix_of(components(path))
}

/// Whether a component is a name (not the root, `.` or `..`).
pub open spec fn is_normal_component(c: Seq<char>) -> bool {
    c != root_component() && c != cur_component() && c != parent_component()
}

/// The last component of a path if it is a name (`Path::file_name`).
pub open spec fn file_name(s: Seq<char>) -> Option<Seq<char>> {
    let cs = components(s);
    if cs.len() > 0 && is_normal_component(cs.last()) {
        Some(cs.last())
    } else {
        None
    }
}

proof fn lemma_scan_cur_no_slash(s: Seq<char>)
    ensures
        !scan(s).1.contains('/'),
    decreases s.len(),
{
    if s.len() > 0 {
        lemma_scan_cur_no_slash(s.drop_last());
        let (done, cur) = scan(s.drop_last());
        if s.last() != '/' {
            assert forall|i: int| 0 <= i < cur.push(s.last()).len() implies cur.push(s.last())[i]
                != '/' by {
                if i < cur.len() {
                    assert(cur.push(s.last())[i] == cur[i]);
                }
            }
        }
    }
}

/// Splits `s` into its segments.
pub fn segments_of(s: &Vec<char>) -> (r: Vec<Vec<char>>)
    ensures
        views(r@) == segments(s@),
{
    let mut done: Vec<Vec<char>> = Vec::new();
    let mut cur: Vec<char> = Vec::new();
    let mut i: usize = 0;
    while i < s.len()
        invariant
            i <= s.len(),
            (views(done@), cur@) == scan(s@.take(i as int)),
        decreases s.len() - i,
    {
        let c = s[i];
        proof {
            assert(s@.take(i + 1).drop_last() =~= s@.take(i as int));
        }
        if c == '/' {
            let is_dot = cur.len() == 1 && cur[0] == '.';
            if cur.len() > 0 && !is_dot {
                done.push(cur);
            } else {
                proof {
                    if cur.len() == 1 && !is_dot {
                        assert(false);
                    }
                    if is_dot {
                        assert(cur@ =~= cur_component());
                    }
                }
            }
            cur = Vec::new();
            proof {
                assert(views(done@) =~= scan(s@.take(i + 1)).0);
            }
        } else {
            cur.push(c);
        }
        i = i + 1;
    }
    assert(s@.take(s.len() as int) =~= s@);
    let is_dot = cur.len() == 1 && cur[0] == '.';
    if cur.len() > 0 && !is_dot {
        done.push(cur);
        assert(views(done@) =~= segments(s@));
    } else {
        proof {
            if is_dot {
                assert(cur@ =~= cur_component());
            }
        }
    }
    done
}

/// The components of the path `s`.
pub fn components_of(s: &Vec<char>) -> (r: Vec<Vec<char>>)
    ensures
        views(r@) == components(s@),
{
    let segs = segments_of(s);
    let mut r: Vec<Vec<char>> = Vec::new();
    if s.len() > 0 && s[0] == '/' {
        let mut root: Vec<char> = Vec::new();
        root.push('/');
        assert(root@ =~= root_component());
        r.push(root);
    } else if s.len() >= 1 && s[0] == '.' && (s.len() == 1 || s[1] == '/') {
        let mut cur: Vec<char> = Vec::new();
        cur.push('.');
        assert(cur@ =~= cur_component());
        r.push(cur);
    }
    let ghost first = views(r@);
    let mut k: usize = 0;
    while k < segs.len()
        invariant
            k <= segs.len(),
            views(segs@) == segments(s@),
            views(r@) == first + views(segs@).take(k as int),
        decreases segs.len() - k,
    {
        let ghost before = r@;
        let seg = copy_chars(&segs[k]);
        r.push(seg);
        proof {
            assert(r@ == before.push(seg));
            assert(views(r@) =~= views(before).push(seg@));
            assert(views(segs@)[k as int] == segs@[k as int]@);
            assert(views(segs@).take(k + 1) =~= views(segs@).take(k as int).push(seg@));
        }
        k = k + 1;
        assert(views(r@) =~= first + views(segs@).take(k as int));
    }
    assert(views(segs@).take(segs.len() as int) =~= views(segs@));
    assert(views(r@) =~= components(s@));
    r
}

/// `base` joined with `p`.
pub fn join_chars(base: &Vec<char>, p: &Vec<char>) -> (r: Vec<char>)
    ensures
        r@ == join(base@, p@),
{
    if p.len() > 0 && p[0] == '/' {
        copy_chars(p)
    } else {
        let mut r = copy_chars(base);
        if base.len() > 0 && base[base.len() - 1] != '/' {
            r.push('/');
        }
        push_all(&mut r, p);
        r
    }
}

/// `base` joined with `p` (`Path::join`).
pub fn path_join(base: &str, p: &str) -> (r: String)
    ensures
        r@ == join(base@, p@),
{
    let b = chars_of(base);
    let q = chars_of(p);
    let r = join_chars(&b, &q);
    string_of(&r)
}

/// Whether `path` starts with `base` component by component (`Path::starts_with`).
pub fn path_starts_with(path: &Vec<char>, base: &Vec<char>) -> (r: bool)
    ensures
        r == starts_with_path(path@, base@),
{
    let pc = components_of(path);
    let bc = components_of(base);
    if bc.len() > pc.len() {
        return false;
    }
    let mut i: usize = 0;
    while i < bc.len()
        invariant
            bc.len() <= pc.len(),
            i <= bc.len(),
            views(pc@) == components(path@),
            views(bc@) == components(base@),
            forall|j: int| 0 <= j < i ==> views(bc@)[j] == views(pc@)[j],
        decreases bc.len() - i,
    {
        if !chars_eq(&bc[i], &pc[i]) {
            assert(views(bc@)[i as int] != views(pc@)[i as int]);
            return false;
        }
        i = i + 1;
    }
    assert(views(pc@).take(bc.len() as int) =~= views(bc@));
    true
}

/// The file name of a path, if it has one (`Path::file_name`).
pub fn file_name_of(s: &Vec<char>) -> (r: Option<Vec<char>>)
    ensures
        match r {
            Some(n) => file_name(s@) == Some(n@),
            None => file_name(s@) is None,
        },
{
    let cs = components_of(s);
    if cs.len() == 0 {
        return None;
    }
    let last = &cs[cs.len() - 1];
    assert(views(cs@).last() == last@);
    let is_root = last.len() == 1 && last[0] == '/';
    let is_cur = last.len() == 1 && last[0] == '.';
    let is_parent = last.len() == 2 && last[0] == '.' && last[1] == '.';
    proof {
        if is_root { assert(last@ =~= root_component()); }
        if is_cur { assert(last@ =~= cur_component()); }
        if is_parent { assert(last@ =~= parent_component()); }
        if last@ == root_component() || last@ == cur_component() || last@ == parent_component() {
            assert(is_root || is_cur || is_parent);
        }
    }
    if is_root || is_cur || is_parent {
        None
    } else {
        Some(copy_chars(last))
    }
}

/// The path that components `cs` make when pushed one after another onto an empty path.
pub open spec fn rebuild(cs: Seq<Seq<char>>) -> Seq<char>
    decreases cs.len(),
{
    if cs.len() == 0 {
        seq![]
    } else {
        join(rebuild(cs.drop_last()), cs.last())
    }
}

/// What is left of `path` after its leading components `base` (`Path::strip_prefix`),
/// or `None` where `path` does not start with `base`.
pub open spec fn strip_prefix(path: Seq<char>, base: Seq<char>) -> Option<Seq<char>> {
    if starts_with_path(path, base) {
        Some(rebuild(components(path).skip(components(base).len() as int)))
    } else {
        None
    }
}

/// The path that components `cs` make.
pub fn rebuild_of(cs: &Vec<Vec<char>>) -> (r: Vec<char>)
    ensures
        r@ == rebuild(views(cs@)),
{
    let ghost cv = views(cs@);
    let mut r: Vec<char> = Vec::new();
    let mut k: usize = 0;
    while k < cs.len()
        invariant
            k <= cs.len(),
            cv == views(cs@),
            r@ == rebuild(cv.take(k as int)),
        decreases cs.len() - k,
    {
        proof {
            assert(cv.take(k + 1).drop_last() =~= cv.take(k as int));
            assert(cv.take(k + 1).last() == cs@[k as int]@);
        }
        r = join_chars(&r, &cs[k]);
        k = k + 1;
    }
    assert(cv.take(cs.len() as int) =~= cv);
    r
}

/// The components that remain after reading `..` as a step up: each `..` takes away
/// the component before it, except the root, which stays (`PathBuf::pop`).
pub open spec fn normalized_components(cs: Seq<Seq<char>>) -> Seq<Seq<char>>
    decreases cs.len(),
{
    if cs.len() == 0 {
        cs
    } else {
        let acc = normalized_components(cs.drop_last());
        if cs.last() == parent_component() {
            if acc.len() > 0 && acc.last() != root_component() {
                acc.drop_last()
            } else {
                acc
            }
        } else {
            acc.push(cs.last())
        }
    }
}

/// The components of `s` with each `..` read as a step up.
pub fn normalize_components_of(s: &Vec<char>) -> (r: Vec<Vec<char>>)
    ensures
        views(r@) == normalized_components(components(s@)),
{
    let cs = components_of(s);
    let ghost cv = views(cs@);
    let mut acc: Vec<Vec<char>> = Vec::new();
    let mut k: usize = 0;
    while k < cs.len()
        invariant
            k <= cs.len(),
            cv == views(cs@),
            cv == components(s@),
            views(acc@) == normalized_components(cv.take(k as int)),
        decreases cs.len() - k,
    {
        proof {
            assert(cv.take(k + 1).drop_last() =~= cv.take(k as int));
            assert(cv.take(k + 1).last() == cs@[k as int]@);
        }
        let c = &cs[k];
        let is_parent = c.len() == 2 && c[0] == '.' && c[1] == '.';
        proof {
            if is_parent { assert(c@ =~= parent_component()); }
            if c@ == parent_component() { assert(is_parent); }
        }
        if is_parent {
            if acc.len() > 0 {
                let last = &acc[acc.len() - 1];
                let last_is_root = last.len() == 1 && last[0] == '/';
                proof {
                    assert(views(acc@).last() == last@);
                    if last_is_root { assert(last@ =~= root_component()); }
                    if last@ == root_component() { assert(last_is_root); }
                }
                if !last_is_root {
                    let ghost before = acc@;
                    acc.pop();
                    assert(views(acc@) =~= views(before).drop_last());
                }
            }
        } else {
            let ghost before = acc@;
            acc.push(copy_chars(c));
            assert(views(acc@) =~= views(before).push(c@));
        }
        k = k + 1;
    }
    assert(cv.take(cs.len() as int) =~= cv);
    acc
}

/// What is left of `path` after its leading components `base`.
pub fn strip_prefix_of(path: &Vec<char>, base: &Vec<char>) -> (r: Option<Vec<char>>)
    ensures
        match r {
            Some(x) => strip_prefix(path@, base@) == Some(x@),
            None => strip_prefix(path@, base@) is None,
        },
{
    if !path_starts_with(path, base) {
        return None;
    }
    let pc = components_of(path);
    let bc = components_of(base);
    proof {
        assert(components(base@).is_prefix_of(components(path@)));
    }
    let ghost rest = views(pc@).skip(bc.len() as int);
    let mut r: Vec<char> = Vec::new();
    let mut k: usize = bc.len();
    while k < pc.len()
        invariant
            bc.len() <= k <= pc.len(),
            views(pc@) == components(path@),
            rest == views(pc@).skip(bc.len() as int),
            r@ == rebuild(rest.take(k - bc.len())),
        decreases pc.len() - k,
    {
        proof {
            assert(rest.take(k + 1 - bc.len()).drop_last() =~= rest.take(k - bc.len()));
            assert(rest.take(k + 1 - bc.len()).last() == pc@[k as int]@);
        }
        r = join_chars(&r, &pc[k]);
        k = k + 1;
    }
    assert(rest.take(pc.len() - bc.len()) =~= rest);
    Some(r)
}

/// The path of the first `k` components of `s`: its `k`-th ancestor counted from the
/// root, the way repeated `Path::parent` reaches it.
pub open spec fn prefix_path(s: Seq<char>, k: int) -> Seq<char> {
    rebuild(components(s).take(k))
}

/// The parent of a path (`Path::parent`): the path without its last component, none
/// for the root or a path without components.
pub open spec fn parent(s: Seq<char>) -> Option<Seq<char>> {
    let cs = components(s);
    if cs.len() == 0 || (cs.len() == 1 && cs[0] == root_component()) {
        None
    } else {
        Some(rebuild(cs.drop_last()))
    }
}

/// The parent of a path, if it has one.
pub fn parent_of(s: &Vec<char>) -> (r: Option<Vec<char>>)
    ensures
        match r {
            Some(p) => parent(s@) == Some(p@),
            None => parent(s@) is None,
        },
{
    let cs = components_of(s);
    if cs.len() == 0 {
        return None;
    }
    let first_is_root = cs[0].len() == 1 && cs[0][0] == '/';
    proof {
        assert(views(cs@)[0] == cs@[0]@);
        if first_is_root { assert(cs@[0]@ =~= root_component()); }
        if cs@[0]@ == root_component() { assert(first_is_root); }
    }
    if cs.len() == 1 && first_is_root {
        return None;
    }
    let mut cs = cs;
    let ghost before = views(cs@);
    cs.pop();
    assert(views(cs@) =~= before.drop_last());
    Some(rebuild_of(&cs))
}

/// The path of the first `k` components of `cs`.
pub fn prefix_path_of(cs: &Vec<Vec<char>>, k: usize) -> (r: Vec<char>)
    requires
        k <= cs.len(),
    ensures
        r@ == rebuild(views(cs@).take(k as int)),
{
    let mut t: Vec<Vec<char>> = Vec::new();
    let mut i: usize = 0;
    while i < k
        invariant
            i <= k <= cs.len(),
            views(t@) == views(cs@).take(i as int),
        decreases k - i,
    {
        let ghost before = t@;
        t.push(copy_chars(&cs[i]));
        assert(views(t@) =~= views(before).push(cs@[i as int]@));
        assert(views(t@) =~= views(cs@).take(i + 1));
        i = i + 1;
    }
    rebuild_of(&t)
}


/// Whether two component lists are equal.
pub fn same_components(a: &Vec<Vec<char>>, b: &Vec<Vec<char>>) -> (r: bool)
    ensures
        r == (views(a@) == views(b@)),
{
    if a.len() != b.len() {
        assert(views(a@).len() != views(b@).len());
        return false;
    }
    let mut i: usize = 0;
    while i < a.len()
        invariant
            i <= a.len() == b.len(),
            forall|k: int| 0 <= k < i ==> views(a@)[k] == views(b@)[k],
        decreases a.len() - i,
    {
        assert(views(a@)[i as int] == a@[i as int]@);
        assert(views(b@)[i as int] == b@[i as int]@);
        if !chars_eq(&a[i], &b[i]) {
            return false;
        }
        i = i + 1;
    }
    assert(views(a@) =~= views(b@));
    true
}

/// Whether two paths have the same components (`Path`'s `==`).
pub fn same_path(a: &str, b: &str) -> (r: bool)
    ensures
        r == (components(a@) == components(b@)),
{
    let ca = components_of(&chars_of(a));
    let cb = components_of(&chars_of(b));
    same_components(&ca, &cb)
}

} // verus!
