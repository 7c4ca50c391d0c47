//! Accepting a sandbox's changes into the host: the plan of removals, moves and writes
//! that a set of changes gives, checked before anything on the host is touched.
use vstd::prelude::*;
use crate::text::{chars_of, string_of, owned, push_str, push_all, str_views, opt_view};
use crate::paths::{
    components, file_name, file_name_of, join, path_join, rebuild, rebuild_of, components_of,
    views,
};
use crate::order::{path_le, path_le_exec, lemma_path_total, lemma_path_trans};
use crate::sort::{
    TotalPreorder, stable_sort, stable_sorted, lemma_stable_sort_exists, lemma_stable_sorted_twice,
    lemma_stable_sorted_views,
};
use crate::util::{find_mount_point, path_or_ancestor};
use crate::sandbox::changes::file_details::{
    FileDetails, FileStat, details_view, opt_details_view, file_type, file_type_name, S_IFREG, S_IFDIR, S_IFLNK,
};
use crate::sandbox::changes::change_entries::{
    ChangeEntry, ChangeEntries, ChangeOrder, EntryOperation, EntryView, entry_view,
    entry_views, change_error_message, copy_details, sorted_changes, ReverseSource, Destination,
    StagedDescending,
};

verus! {

/// Whether `s` is the hyphenated lowercase text of a UUID: 36 characters, hyphens at
/// places 8, 13, 18 and 23, lowercase hexadecimal digits elsewhere.
pub open spec fn hyphenated_uuid(s: Seq<char>) -> bool {
    &&& s.len() == 36
    &&& forall|i: int| 0 <= i < 36 ==> if i == 8 || i == 13 || i == 18 || i == 23 {
        #[trigger] s[i] == '-'
    } else {
        ('0' <= s[i] && s[i] <= '9') || ('a' <= s[i] && s[i] <= 'f')
    }
}

/// Calls `uuid::Uuid::new_v4` and gives its text, which `Display` writes hyphenated in
/// lowercase. The value is random, so only that form is stated.
#[verifier::external_body]
fn new_uuid() -> (r: String)
    ensures
        hyphenated_uuid(r@),
{
    uuid::Uuid::new_v4().to_string()
}

/// A removal from the host, done before anything else.
#[derive(Debug, Clone)]
pub struct RemovalStep {
    /// The host path to remove.
    pub path: String,
    /// Whether it is a directory (removed with `rmdir`) rather than a file or link.
    pub is_dir: bool,
    /// The upper-layer path to clean up afterwards.
    pub staged: Option<String>,
}

/// The view of a removal: `(path, is_dir, staged)`.
pub open spec fn removal_view(r: RemovalStep) -> (Seq<char>, bool, Option<Seq<char>>) {
    (r.path@, r.is_dir, opt_view(r.staged))
}

/// The views of removals.
pub open spec fn removal_views(s: Seq<RemovalStep>) -> Seq<(Seq<char>, bool, Option<Seq<char>>)> {
    s.map_values(|r: RemovalStep| removal_view(r))
}

/// The message for a removal whose path is missing on the host.
pub open spec fn missing_source_message(dest: Seq<char>) -> Seq<char> {
    "Remove for file "@ + dest + " didn't match an existing path to remove"@
}

/// The message for a removal of something that is neither a file, a link nor a directory.
pub open spec fn special_file_message(path: Seq<char>) -> Seq<char> {
    "Error removing "@ + path + ": cowardly refusing to remove special file"@
}

/// The removal that a change asks for: none for a change that is not a removal; an error
/// where the host has nothing there or something special; else the host path, whether it
/// is a directory, and the staged path to clean up.
pub open spec fn removal_of(c: ChangeEntry) -> Result<Option<(Seq<char>, bool, Option<Seq<char>>)>, Seq<char>> {
    if c.operation != EntryOperation::Remove {
        Ok(None)
    } else {
        let staged = match c.staged {
            Some(s) => Some(s.path@),
            None => None,
        };
        match c.source {
            None => Err(missing_source_message(c.destination@)),
            Some(src) => {
                let t = file_type(src.stat.st_mode);
                if t == S_IFREG || t == S_IFLNK {
                    Ok(Some((src.path@, false, staged)))
                } else if t == S_IFDIR {
                    Ok(Some((src.path@, true, staged)))
                } else {
                    Err(special_file_message(src.path@))
                }
            },
        }
    }
}

/// The removals that changes ask for, in order, or the first error.
pub open spec fn removals_of(s: Seq<ChangeEntry>) -> Result<Seq<(Seq<char>, bool, Option<Seq<char>>)>, Seq<char>>
    decreases s.len(),
{
    if s.len() == 0 {
        Ok(seq![])
    } else {
        match removals_of(s.drop_last()) {
            Err(e) => Err(e),
            Ok(done) => match removal_of(s.last()) {
                Err(e) => Err(e),
                Ok(None) => Ok(done),
                Ok(Some(r)) => Ok(done.push(r)),
            },
        }
    }
}

fn text2(a: &str, b: &String, c: &str) -> (r: String)
    ensures
        r@ == a@ + b@ + c@,
{
    let mut m = chars_of(a);
    push_str(&mut m, b.as_str());
    push_str(&mut m, c);
    string_of(&m)
}

/// The removals that changes ask for, in order.
pub fn removal_steps(changes: &Vec<ChangeEntry>) -> (r: Result<Vec<RemovalStep>, String>)
    ensures
        match (r, removals_of(changes@)) {
            (Ok(v), Ok(s)) => removal_views(v@) == s,
            (Err(e), Err(m)) => e@ == m,
            _ => false,
        },
{
    let mut out: Vec<RemovalStep> = Vec::new();
    let mut i: usize = 0;
    assert(changes@.take(0) =~= Seq::<ChangeEntry>::empty());
    assert(removal_views(out@) =~= Seq::<(Seq<char>, bool, Option<Seq<char>>)>::empty());
    while i < changes.len()
        invariant
            i <= changes.len(),
            removals_of(changes@.take(i as int)) == Ok::<_, Seq<char>>(removal_views(out@)),
        decreases changes.len() - i,
    {
        let c = &changes[i];
        proof {
            assert(changes@.take(i + 1).drop_last() =~= changes@.take(i as int));
            assert(changes@.take(i + 1).last() == changes@[i as int]);
        }
        if c.operation == EntryOperation::Remove {
            let staged = match &c.staged {
                Some(s) => Some(owned(s.path.as_str())),
                None => None,
            };
            match &c.source {
                None => {
                    let e = text2("Remove for file ", &c.destination, " didn't match an existing path to remove");
                    proof {
                        lemma_removals_error_stays(changes@, i as int + 1);
                    }
                    return Err(e);
                },
                Some(src) => {
                    let t = src.stat.st_mode & crate::sandbox::changes::file_details::S_IFMT;
                    let is_dir = if t == S_IFREG || t == S_IFLNK {
                        false
                    } else if t == S_IFDIR {
                        true
                    } else {
                        let e = text2("Error removing ", &src.path, ": cowardly refusing to remove special file");
                        proof {
                            lemma_removals_error_stays(changes@, i as int + 1);
                        }
                        return Err(e);
                    };
                    let ghost before = out@;
                    out.push(RemovalStep { path: owned(src.path.as_str()), is_dir, staged });
                    assert(removal_views(out@) =~= removal_views(before).push(removal_views(out@).last()));
                },
            }
        }
        i = i + 1;
    }
    assert(changes@.take(changes.len() as int) =~= changes@);
    Ok(out)
}

/// Once the removals of a prefix fail, so do those of every longer prefix, with the same
/// error.
proof fn lemma_removals_error_stays(s: Seq<ChangeEntry>, k: int)
    requires
        0 <= k <= s.len(),
        removals_of(s.take(k)) is Err,
    ensures
        removals_of(s) == removals_of(s.take(k)),
    decreases s.len() - k,
{
    if k < s.len() {
        assert(s.take(k + 1).drop_last() =~= s.take(k));
        lemma_removals_error_stays(s, k + 1);
    } else {
        assert(s.take(k) =~= s);
    }
}

/// The name of a path, or nothing where it has none.
pub open spec fn name_or_empty(p: Seq<char>) -> Seq<char> {
    match file_name(p) {
        Some(n) => n,
        None => seq![],
    }
}

/// Where a renamed path waits, in the flat holding area `cwd`, between leaving `old` and
/// reaching `new`: `.rename-<old name>-to-<new name>-<id>`.
pub open spec fn rename_tmp_path(cwd: Seq<char>, old: Seq<char>, new: Seq<char>, id: Seq<char>) -> Seq<char> {
    join(cwd, ".rename-"@ + name_or_empty(old) + "-to-"@ + name_or_empty(new) + "-"@ + id)
}

fn name_or_empty_of(p: &String) -> (r: Vec<char>)
    ensures
        r@ == name_or_empty(p@),
{
    match file_name_of(&chars_of(p.as_str())) {
        Some(n) => n,
        None => Vec::new(),
    }
}

/// Where a renamed path waits between leaving `old` and reaching `new`.
pub fn rename_tmp_path_of(cwd: &String, old: &String, new: &String, id: &String) -> (r: String)
    ensures
        r@ == rename_tmp_path(cwd@, old@, new@, id@),
{
    let mut name = chars_of(".rename-");
    push_all(&mut name, &name_or_empty_of(old));
    push_str(&mut name, "-to-");
    push_all(&mut name, &name_or_empty_of(new));
    push_str(&mut name, "-");
    push_str(&mut name, id.as_str());
    let n = string_of(&name);
    path_join(cwd.as_str(), n.as_str())
}

/// A rename moved out of the way: from its source to its holding place, later to its
/// destination.
#[derive(Debug, Clone)]
pub struct PendingRename {
    pub old_path: String,
    pub tmp_path: String,
    pub new_path: String,
}

/// The view of a pending rename: `(old, tmp, new)`.
pub open spec fn pending_view(p: PendingRename) -> (Seq<char>, Seq<char>, Seq<char>) {
    (p.old_path@, p.tmp_path@, p.new_path@)
}

/// Whether a change is a rename from an existing source.
pub open spec fn is_source_rename(c: ChangeEntry) -> bool {
    c.operation == EntryOperation::Rename && c.source is Some
}

/// The number of renames from an existing source.
pub open spec fn rename_count(s: Seq<ChangeEntry>) -> nat
    decreases s.len(),
{
    if s.len() == 0 {
        0
    } else {
        rename_count(s.drop_last()) + if is_source_rename(s.last()) {
            1nat
        } else {
            0nat
        }
    }
}

/// The renames of `s` moved out of the way, the `k`-th one holding with the `k`-th id.
pub open spec fn pending_renames(s: Seq<ChangeEntry>, cwd: Seq<char>, ids: Seq<Seq<char>>) -> Seq<(Seq<char>, Seq<char>, Seq<char>)>
    decreases s.len(),
{
    if s.len() == 0 {
        seq![]
    } else {
        let before = pending_renames(s.drop_last(), cwd, ids);
        let c = s.last();
        if is_source_rename(c) {
            let old = c.source->0.path@;
            before.push((old, rename_tmp_path(cwd, old, c.destination@, ids[rename_count(s.drop_last()) as int]), c.destination@))
        } else {
            before
        }
    }
}

/// The changes with the holding places of their renames recorded.
pub open spec fn with_tmp_paths(s: Seq<ChangeEntry>, cwd: Seq<char>, ids: Seq<Seq<char>>) -> Seq<EntryView>
    decreases s.len(),
{
    if s.len() == 0 {
        seq![]
    } else {
        let before = with_tmp_paths(s.drop_last(), cwd, ids);
        let c = s.last();
        let v = entry_view(c);
        if is_source_rename(c) {
            let tmp = rename_tmp_path(cwd, c.source->0.path@, c.destination@, ids[rename_count(s.drop_last()) as int]);
            before.push((v.0, v.1, v.2, v.3, Some(tmp)))
        } else {
            before.push(v)
        }
    }
}

/// Records a holding place for each rename from an existing source, the `k`-th one with
/// the `k`-th id, and gives the renames to move out of the way, in order.
pub fn prepare_renames(changes: &mut Vec<ChangeEntry>, cwd: &String, ids: &Vec<String>) -> (r: Vec<PendingRename>)
    requires
        ids.len() >= rename_count(old(changes)@),
    ensures
        final(changes).len() == old(changes).len(),
        entry_views(final(changes)@) == with_tmp_paths(old(changes)@, cwd@, str_views(ids@)),
        r@.map_values(|p: PendingRename| pending_view(p)) == pending_renames(old(changes)@, cwd@, str_views(ids@)),
{
    let ghost orig = changes@;
    let ghost iv = str_views(ids@);
    let mut out: Vec<PendingRename> = Vec::new();
    let mut k: usize = 0;
    let mut i: usize = 0;
    while i < changes.len()
        invariant
            i <= changes.len() == orig.len(),
            iv == str_views(ids@),
            ids.len() >= rename_count(orig),
            k == rename_count(orig.take(i as int)),
            forall|j: int| i <= j < changes.len() ==> changes@[j] == orig[j],
            entry_views(changes@.take(i as int)) == with_tmp_paths(orig.take(i as int), cwd@, iv),
            out@.map_values(|p: PendingRename| pending_view(p)) == pending_renames(orig.take(i as int), cwd@, iv),
        decreases changes.len() - i,
    {
        proof {
            assert(orig.take(i + 1).drop_last() =~= orig.take(i as int));
            assert(orig.take(i + 1).last() == orig[i as int]);
            lemma_rename_count_prefix(orig, i as int + 1);
        }
        let is_rename = changes[i].operation == EntryOperation::Rename && changes[i].source.is_some();
        if is_rename {
            let old_path = match &changes[i].source {
                Some(s) => owned(s.path.as_str()),
                None => owned(""),
            };
            let new_path = owned(changes[i].destination.as_str());
            assert(iv[k as int] == ids@[k as int]@);
            let tmp = rename_tmp_path_of(cwd, &old_path, &new_path, &ids[k]);
            let ghost before_changes = changes@;
            let mut c = changes[i].clone();
            c = ChangeEntry {
                destination: owned(changes[i].destination.as_str()),
                operation: changes[i].operation,
                source: crate::sandbox::changes::change_entries::copy_opt_details(&changes[i].source),
                staged: crate::sandbox::changes::change_entries::copy_opt_details(&changes[i].staged),
                tmp_path: Some(owned(tmp.as_str())),
            };
            changes.set(i, c);
            let ghost before_out = out@;
            out.push(PendingRename { old_path, tmp_path: tmp, new_path });
            proof {
                assert(out@.map_values(|p: PendingRename| pending_view(p)) =~= before_out.map_values(
                    |p: PendingRename| pending_view(p),
                ).push(pending_view(out@.last())));
                assert(changes@.take(i + 1) =~= before_changes.take(i as int).push(changes@[i as int]));
                assert(entry_views(changes@.take(i + 1)) =~= entry_views(before_changes.take(i as int)).push(
                    entry_view(changes@[i as int]),
                ));
            }
            k = k + 1;
        } else {
            proof {
                assert(entry_views(changes@.take(i + 1)) =~= entry_views(changes@.take(i as int)).push(
                    entry_view(changes@[i as int]),
                ));
            }
        }
        i = i + 1;
    }
    assert(orig.take(orig.len() as int) =~= orig);
    assert(changes@.take(changes.len() as int) =~= changes@);
    out
}

/// The count of renames over a prefix never exceeds that over the whole.
proof fn lemma_rename_count_prefix(s: Seq<ChangeEntry>, k: int)
    requires
        0 <= k <= s.len(),
    ensures
        rename_count(s.take(k)) <= rename_count(s),
    decreases s.len() - k,
{
    if k < s.len() {
        assert(s.take(k + 1).drop_last() =~= s.take(k));
        lemma_rename_count_prefix(s, k + 1);
    } else {
        assert(s.take(k) =~= s);
    }
}

/// What accepting one change does, in destination order.
#[derive(Debug, Clone)]
pub enum AcceptAction {
    /// Nothing: removals are done before.
    Nothing,
    /// Stop with an error at this point.
    Fail { message: String },
    /// Copy the staged file to `tmp` beside the destination, then move it into place.
    CopyFile { staged: FileDetails, tmp: String, destination: String },
    /// Make the destination a symbolic link with the staged link's target.
    Link { staged: FileDetails, destination: String },
    /// Make the destination a directory where it is not one yet.
    Directory { staged: FileDetails, destination: String },
    /// Move a renamed path from its holding place to its destination.
    MoveFrom { tmp: String, destination: String, staged: Option<String> },
}

/// The view of an action.
pub enum ActionView {
    Nothing,
    Fail(Seq<char>),
    CopyFile(Seq<char>, crate::sandbox::changes::file_details::FileStat, Seq<char>, Seq<char>),
    Link(Seq<char>, crate::sandbox::changes::file_details::FileStat, Seq<char>),
    Directory(Seq<char>, crate::sandbox::changes::file_details::FileStat, Seq<char>),
    MoveFrom(Seq<char>, Seq<char>, Option<Seq<char>>),
}

/// The view of an action.
pub open spec fn action_view(a: AcceptAction) -> ActionView {
    match a {
        AcceptAction::Nothing => ActionView::Nothing,
        AcceptAction::Fail { message } => ActionView::Fail(message@),
        AcceptAction::CopyFile { staged, tmp, destination } => ActionView::CopyFile(staged.path@, staged.stat, tmp@, destination@),
        AcceptAction::Link { staged, destination } => ActionView::Link(staged.path@, staged.stat, destination@),
        AcceptAction::Directory { staged, destination } => ActionView::Directory(staged.path@, staged.stat, destination@),
        AcceptAction::MoveFrom { tmp, destination, staged } => ActionView::MoveFrom(tmp@, destination@, opt_view(staged)),
    }
}

/// The file stem of a name (`Path::file_stem`): all before the last `.`, except that a
/// name whose only `.` leads it is its own stem.
pub open spec fn file_stem(name: Seq<char>) -> Seq<char> {
    if exists|i: int| 0 < i < name.len() && name[i] == '.' {
        let last = choose|i: int| 0 < i < name.len() && name[i] == '.' && forall|j: int|
            i < j < name.len() ==> name[j] != '.';
        name.take(last)
    } else {
        name
    }
}

/// `path` with its extension replaced by `ext` (`Path::with_extension`): the file name's
/// stem, then `.` and `ext` unless `ext` is empty; a path without a file name is kept.
pub open spec fn with_extension(path: Seq<char>, ext: Seq<char>) -> Seq<char> {
    let cs = components(path);
    match file_name(path) {
        Some(name) => join(
            rebuild(cs.drop_last()),
            if ext.len() == 0 {
                file_stem(name)
            } else {
                file_stem(name) + "."@ + ext
            },
        ),
        None => path,
    }
}

/// The stem of a name.
fn file_stem_of(name: &Vec<char>) -> (r: Vec<char>)
    ensures
        r@ == file_stem(name@),
{
    let mut i: usize = name.len();
    while i > 1
        invariant
            i <= name.len(),
            forall|j: int| i <= j < name.len() ==> name@[j] != '.' || j == 0,
        decreases i,
    {
        if name[i - 1] == '.' {
            let last = i - 1;
            proof {
                let l = choose|x: int| 0 < x < name@.len() && name@[x] == '.' && forall|j: int|
                    x < j < name@.len() ==> name@[j] != '.';
                assert(0 < last < name@.len() && name@[last as int] == '.' && forall|j: int|
                    last < j < name@.len() ==> name@[j] != '.');
                if l < last {
                    assert(name@[last as int] != '.');
                } else if l > last {
                    assert(name@[l] != '.');
                }
            }
            return crate::text::slice_chars(name, 0, last);
        }
        i = i - 1;
    }
    proof {
        assert(!exists|x: int| 0 < x < name@.len() && name@[x] == '.');
    }
    crate::text::copy_chars(name)
}

/// `path` with its extension replaced by `ext`.
pub fn with_extension_of(path: &String, ext: &String) -> (r: String)
    ensures
        r@ == with_extension(path@, ext@),
{
    let p = chars_of(path.as_str());
    match file_name_of(&p) {
        Some(name) => {
            let cs = components_of(&p);
            let mut front: Vec<Vec<char>> = Vec::new();
            let mut i: usize = 0;
            while i + 1 < cs.len()
                invariant
                    i <= cs.len(),
                    cs.len() > 0 ==> i < cs.len(),
                    views(front@) == views(cs@).take(i as int),
                decreases cs.len() - i,
            {
                let ghost before = front@;
                front.push(crate::text::copy_chars(&cs[i]));
                assert(views(front@) =~= views(before).push(cs@[i as int]@));
                assert(views(cs@).take(i + 1) =~= views(cs@).take(i as int).push(views(cs@)[i as int]));
                i = i + 1;
            }
            proof {
                assert(components(path@).len() > 0);
                assert(views(cs@).take(i as int) =~= components(path@).drop_last());
            }
            let dir = rebuild_of(&front);
            let mut n = file_stem_of(&name);
            let e = chars_of(ext.as_str());
            if e.len() > 0 {
                push_str(&mut n, ".");
                push_str(&mut n, ext.as_str());
            }
            string_of(&crate::paths::join_chars(&dir, &n))
        },
        None => owned(path.as_str()),
    }
}

/// The message for a change to a file type that cannot be carried over.
pub open spec fn unmovable_message(dest: Seq<char>, mode: u32) -> Seq<char> {
    dest + " - Error accepting "@ + file_type_name(mode)
        + " file, we cannot move these. Please resolve this manually first."@
}

/// What accepting a change does, with `id` naming the temporary copy of a file: a write
/// copies a file, links a link or makes a directory (an error for other staged file types
/// or a missing staged file); a removal does nothing (removals come first); a rename
/// moves from its holding place (failing when it has none); an error change is an error.
pub open spec fn action_of(c: ChangeEntry, id: Seq<char>) -> Result<ActionView, Seq<char>> {
    let dest = c.destination@;
    match c.operation {
        EntryOperation::Write(_) => match c.staged {
            None => Err(dest + " - invalid staged file"@),
            Some(st) => {
                let t = file_type(st.stat.st_mode);
                if t == S_IFREG {
                    Ok(ActionView::CopyFile(st.path@, st.stat, with_extension(dest, id), dest))
                } else if t == S_IFLNK {
                    Ok(ActionView::Link(st.path@, st.stat, dest))
                } else if t == S_IFDIR {
                    Ok(ActionView::Directory(st.path@, st.stat, dest))
                } else {
                    Err(unmovable_message(dest, st.stat.st_mode))
                }
            },
        },
        EntryOperation::Remove => Ok(ActionView::Nothing),
        EntryOperation::Rename => match c.tmp_path {
            None => Ok(ActionView::Fail("Error completing rename: tmp_path is None"@)),
            Some(t) => Ok(
                ActionView::MoveFrom(
                    t@,
                    dest,
                    match c.staged {
                        Some(st) => Some(st.path@),
                        None => None,
                    },
                ),
            ),
        },
        EntryOperation::Error(e) => Err(dest + " - "@ + change_error_message(e)),
    }
}

/// What accepting a change does.
pub fn action_for(c: &ChangeEntry, id: &String) -> (r: Result<AcceptAction, String>)
    ensures
        match (r, action_of(*c, id@)) {
            (Ok(a), Ok(v)) => action_view(a) == v,
            (Err(e), Err(m)) => e@ == m,
            _ => false,
        },
{
    match c.operation {
        EntryOperation::Write(_) => match &c.staged {
            None => {
                let mut m = chars_of(c.destination.as_str());
                push_str(&mut m, " - invalid staged file");
                Err(string_of(&m))
            },
            Some(st) => {
                if st.is_file() {
                    Ok(AcceptAction::CopyFile {
                        staged: copy_details(st),
                        tmp: with_extension_of(&c.destination, id),
                        destination: owned(c.destination.as_str()),
                    })
                } else if st.is_symlink() {
                    Ok(AcceptAction::Link { staged: copy_details(st), destination: owned(c.destination.as_str()) })
                } else if st.is_dir() {
                    Ok(AcceptAction::Directory { staged: copy_details(st), destination: owned(c.destination.as_str()) })
                } else {
                    let mut m = chars_of(c.destination.as_str());
                    push_str(&mut m, " - Error accepting ");
                    push_str(&mut m, st.display_type().as_str());
                    push_str(&mut m, " file, we cannot move these. Please resolve this manually first.");
                    Err(string_of(&m))
                }
            },
        },
        EntryOperation::Remove => Ok(AcceptAction::Nothing),
        EntryOperation::Rename => match &c.tmp_path {
            None => Ok(AcceptAction::Fail { message: owned("Error completing rename: tmp_path is None") }),
            Some(t) => Ok(AcceptAction::MoveFrom {
                tmp: owned(t.as_str()),
                destination: owned(c.destination.as_str()),
                staged: match &c.staged {
                    Some(st) => Some(owned(st.path.as_str())),
                    None => None,
                },
            }),
        },
        EntryOperation::Error(e) => {
            let mut m = chars_of(c.destination.as_str());
            push_str(&mut m, " - ");
            push_str(&mut m, e.to_string().as_str());
            Err(string_of(&m))
        },
    }
}

/// What accepting each change does, the `i`-th with the `i`-th id, or the first error.
pub open spec fn actions_of(s: Seq<ChangeEntry>, ids: Seq<Seq<char>>) -> Result<Seq<ActionView>, Seq<char>>
    decreases s.len(),
{
    if s.len() == 0 {
        Ok(seq![])
    } else {
        match actions_of(s.drop_last(), ids) {
            Err(e) => Err(e),
            Ok(done) => match action_of(s.last(), ids[s.len() - 1]) {
                Err(e) => Err(e),
                Ok(a) => Ok(done.push(a)),
            },
        }
    }
}

/// Once the actions of a prefix fail, so do those of every longer prefix.
proof fn lemma_actions_error_stays(s: Seq<ChangeEntry>, ids: Seq<Seq<char>>, k: int)
    requires
        0 <= k <= s.len(),
        actions_of(s.take(k), ids) is Err,
    ensures
        actions_of(s, ids) == actions_of(s.take(k), ids),
    decreases s.len() - k,
{
    if k < s.len() {
        assert(s.take(k + 1).drop_last() =~= s.take(k));
        lemma_actions_error_stays(s, ids, k + 1);
    } else {
        assert(s.take(k) =~= s);
    }
}

/// What accepting each change does.
pub fn actions_for(changes: &Vec<ChangeEntry>, ids: &Vec<String>) -> (r: Result<Vec<AcceptAction>, String>)
    requires
        ids.len() >= changes.len(),
    ensures
        match (r, actions_of(changes@, str_views(ids@))) {
            (Ok(v), Ok(s)) => v@.map_values(|a: AcceptAction| action_view(a)) == s,
            (Err(e), Err(m)) => e@ == m,
            _ => false,
        },
{
    let ghost iv = str_views(ids@);
    let mut out: Vec<AcceptAction> = Vec::new();
    let mut i: usize = 0;
    assert(changes@.take(0) =~= Seq::<ChangeEntry>::empty());
    assert(out@.map_values(|a: AcceptAction| action_view(a)) =~= Seq::<ActionView>::empty());
    while i < changes.len()
        invariant
            i <= changes.len() <= ids.len(),
            iv == str_views(ids@),
            actions_of(changes@.take(i as int), iv) == Ok::<_, Seq<char>>(out@.map_values(|a: AcceptAction| action_view(a))),
        decreases changes.len() - i,
    {
        proof {
            assert(changes@.take(i + 1).drop_last() =~= changes@.take(i as int));
            assert(changes@.take(i + 1).last() == changes@[i as int]);
            assert(iv[i as int] == ids@[i as int]@);
        }
        match action_for(&changes[i], &ids[i]) {
            Ok(a) => {
                let ghost before = out@;
                out.push(a);
                assert(out@.map_values(|a: AcceptAction| action_view(a)) =~= before.map_values(
                    |a: AcceptAction| action_view(a),
                ).push(action_view(a)));
            },
            Err(e) => {
                proof {
                    lemma_actions_error_stays(changes@, iv, i as int + 1);
                }
                return Err(e);
            },
        }
        i = i + 1;
    }
    assert(changes@.take(changes.len() as int) =~= changes@);
    Ok(out)
}

/// The staged path that an action leaves to clean up.
pub open spec fn action_staged(a: ActionView) -> Option<Seq<char>> {
    match a {
        ActionView::CopyFile(p, _, _, _) => Some(p),
        ActionView::Link(p, _, _) => Some(p),
        ActionView::Directory(p, _, _) => Some(p),
        ActionView::MoveFrom(_, _, s) => s,
        _ => None,
    }
}

/// The staged paths that removals leave to clean up, in order.
pub open spec fn removals_staged(removals: Seq<(Seq<char>, bool, Option<Seq<char>>)>) -> Seq<Seq<char>>
    decreases removals.len(),
{
    if removals.len() == 0 {
        seq![]
    } else {
        let before = removals_staged(removals.drop_last());
        match removals.last().2 {
            Some(p) => before.push(p),
            None => before,
        }
    }
}

/// The staged paths that actions leave to clean up, in order.
pub open spec fn actions_staged(actions: Seq<ActionView>) -> Seq<Seq<char>>
    decreases actions.len(),
{
    if actions.len() == 0 {
        seq![]
    } else {
        let before = actions_staged(actions.drop_last());
        match action_staged(actions.last()) {
            Some(p) => before.push(p),
            None => before,
        }
    }
}

/// Paths from last to first.
pub struct PathDescending;

impl TotalPreorder<String> for PathDescending {
    open spec fn le(&self, a: String, b: String) -> bool {
        path_le(b@, a@)
    }

    fn le_exec(&self, a: &String, b: &String) -> (r: bool) {
        path_le_exec(&chars_of(b.as_str()), &chars_of(a.as_str()))
    }

    proof fn lemma_total(&self, a: String, b: String) {
        lemma_path_total(a@, b@);
    }

    proof fn lemma_trans(&self, a: String, b: String, c: String) {
        lemma_path_trans(c@, b@, a@);
    }
}

/// `s` without the paths equal (component by component) to the one before them.
pub open spec fn dedup_paths(s: Seq<Seq<char>>) -> Seq<Seq<char>>
    decreases s.len(),
{
    if s.len() <= 1 {
        s
    } else {
        let d = dedup_paths(s.drop_last());
        if components(s.last()) == components(s[s.len() - 2]) {
            d
        } else {
            d.push(s.last())
        }
    }
}

/// The order in which staged paths are cleaned up: from last to first (children before
/// their directories), each path once.
pub open spec fn cleanup_order(paths: Seq<String>) -> Seq<Seq<char>> {
    dedup_paths(str_views(stable_sorted(&PathDescending, paths)))
}

/// Puts staged paths in the order they are cleaned up in.
pub fn cleanup_order_of(paths: Vec<String>) -> (r: Vec<String>)
    ensures
        str_views(r@) == cleanup_order(paths@),
{
    let sorted = stable_sort(paths, &PathDescending);
    let ghost sv = str_views(sorted@);
    let mut out: Vec<String> = Vec::new();
    let mut i: usize = 0;
    while i < sorted.len()
        invariant
            i <= sorted.len(),
            sv == str_views(sorted@),
            str_views(out@) == dedup_paths(sv.take(i as int)),
            i > 0 ==> out.len() > 0,
        decreases sorted.len() - i,
    {
        proof {
            assert(sv.take(i + 1).drop_last() =~= sv.take(i as int));
            assert(sv[i as int] == sorted@[i as int]@);
            if i > 0 {
                assert(sv.take(i + 1)[i - 1] == sv[i - 1]);
                lemma_dedup_last(sv.take(i as int));
            }
        }
        let keep = if i == 0 {
            true
        } else {
            let a = components_of(&chars_of(sorted[i].as_str()));
            let b = components_of(&chars_of(sorted[i - 1].as_str()));
            !crate::paths::same_components(&a, &b)
        };
        if keep {
            let ghost before = out@;
            out.push(owned(sorted[i].as_str()));
            assert(str_views(out@) =~= str_views(before).push(sv[i as int]));
        }
        i = i + 1;
    }
    assert(sv.take(sorted.len() as int) =~= sv);
    out
}

/// The last path that dedup keeps is the last path given.
proof fn lemma_dedup_last(s: Seq<Seq<char>>)
    requires
        s.len() > 0,
    ensures
        dedup_paths(s).len() > 0,
    decreases s.len(),
{
    if s.len() > 1 {
        lemma_dedup_last(s.drop_last());
    }
}

/// The staged paths that removals and actions leave to clean up, in order.
pub fn staged_paths(removals: &Vec<RemovalStep>, actions: &Vec<AcceptAction>) -> (r: Vec<String>)
    ensures
        str_views(r@) == removals_staged(removal_views(removals@)) + actions_staged(
            actions@.map_values(|a: AcceptAction| action_view(a)),
        ),
{
    let ghost rv = removal_views(removals@);
    let ghost av = actions@.map_values(|a: AcceptAction| action_view(a));
    let mut out: Vec<String> = Vec::new();
    let mut i: usize = 0;
    while i < removals.len()
        invariant
            i <= removals.len(),
            rv == removal_views(removals@),
            str_views(out@) == removals_staged(rv.take(i as int)),
        decreases removals.len() - i,
    {
        assert(rv.take(i + 1).drop_last() =~= rv.take(i as int));
        assert(rv.take(i + 1).last() == removal_view(removals@[i as int]));
        if let Some(p) = &removals[i].staged {
            let ghost before = out@;
            out.push(owned(p.as_str()));
            assert(str_views(out@) =~= str_views(before).push(p@));
        }
        i = i + 1;
    }
    assert(rv.take(removals.len() as int) =~= rv);
    let ghost mid = str_views(out@);
    let mut j: usize = 0;
    assert(av.take(0) =~= Seq::<ActionView>::empty());
    while j < actions.len()
        invariant
            j <= actions.len(),
            av == actions@.map_values(|a: AcceptAction| action_view(a)),
            str_views(out@) == mid + actions_staged(av.take(j as int)),
        decreases actions.len() - j,
    {
        assert(av.take(j + 1).drop_last() =~= av.take(j as int));
        assert(av.take(j + 1).last() == action_view(actions@[j as int]));
        let staged: Option<String> = match &actions[j] {
            AcceptAction::CopyFile { staged, .. } => Some(owned(staged.path.as_str())),
            AcceptAction::Link { staged, .. } => Some(owned(staged.path.as_str())),
            AcceptAction::Directory { staged, .. } => Some(owned(staged.path.as_str())),
            AcceptAction::MoveFrom { staged, .. } => match staged {
                Some(p) => Some(owned(p.as_str())),
                None => None,
            },
            _ => None,
        };
        if let Some(p) = staged {
            let ghost before = out@;
            out.push(p);
            assert(str_views(out@) =~= str_views(before).push(str_views(out@).last()));
        }
        j = j + 1;
    }
    assert(av.take(actions.len() as int) =~= av);
    out
}

/// Fresh random ids.
fn fresh_ids(n: usize) -> (r: Vec<String>)
    ensures
        r.len() == n,
{
    let mut r: Vec<String> = Vec::new();
    let mut i: usize = 0;
    while i < n
        invariant
            i <= n,
            r.len() == i,
        decreases n - i,
    {
        r.push(new_uuid());
        i = i + 1;
    }
    r
}

/// The number of renames from an existing source among changes.
fn rename_count_of(changes: &Vec<ChangeEntry>) -> (r: usize)
    ensures
        r == rename_count(changes@),
{
    let mut k: usize = 0;
    let mut i: usize = 0;
    while i < changes.len()
        invariant
            i <= changes.len(),
            k == rename_count(changes@.take(i as int)),
            k <= i,
        decreases changes.len() - i,
    {
        assert(changes@.take(i + 1).drop_last() =~= changes@.take(i as int));
        if changes[i].operation == EntryOperation::Rename && changes[i].source.is_some() {
            k = k + 1;
        }
        i = i + 1;
    }
    assert(changes@.take(changes.len() as int) =~= changes@);
    k
}

/// Whether the source, holding place and destination of a rename have mount points
/// with the same components, each the path itself or one of its ancestors.
pub open spec fn on_one_mount(old: Seq<char>, tmp: Seq<char>, new: Seq<char>) -> bool {
    exists|a: Seq<char>, b: Seq<char>, c: Seq<char>|
        #![trigger path_or_ancestor(old, a), path_or_ancestor(tmp, b), path_or_ancestor(new, c)]
        path_or_ancestor(old, a) && path_or_ancestor(tmp, b) && path_or_ancestor(new, c)
            && components(a) == components(b) && components(b) == components(c)
}

/// Checks that a rename stays on one mount: its source, holding place and destination
/// must share their mount point, as read from the disk.
fn check_same_mount(p: &PendingRename) -> (r: Result<(), String>)
    ensures
        r is Ok ==> on_one_mount(p.old_path@, p.tmp_path@, p.new_path@),
{
    let a = find_mount_point(p.old_path.as_str())?;
    let b = find_mount_point(p.tmp_path.as_str())?;
    let c = find_mount_point(p.new_path.as_str())?;
    if !crate::paths::same_path(a.as_str(), b.as_str()) || !crate::paths::same_path(b.as_str(), c.as_str()) {
        return Err(text2("Cannot accept rename ", &p.old_path, " because it crosses a mount point"));
    }
    assert(path_or_ancestor(p.old_path@, a@) && path_or_ancestor(p.tmp_path@, b@) && path_or_ancestor(p.new_path@, c@));
    Ok(())
}

/// Checks that no rename crosses a mount point.
fn check_mounts(pending: &Vec<PendingRename>) -> (r: Result<(), String>)
    ensures
        pending.len() == 0 ==> r is Ok,
        r is Ok ==> forall|k: int| 0 <= k < pending.len() ==> #[trigger] on_one_mount(
            pending@[k].old_path@,
            pending@[k].tmp_path@,
            pending@[k].new_path@,
        ),
{
    let mut i: usize = 0;
    while i < pending.len()
        invariant
            i <= pending.len(),
            forall|k: int| 0 <= k < i ==> #[trigger] on_one_mount(
                pending@[k].old_path@,
                pending@[k].tmp_path@,
                pending@[k].new_path@,
            ),
        decreases pending.len() - i,
    {
        check_same_mount(&pending[i])?;
        i = i + 1;
    }
    Ok(())
}

/// The steps that accept a set of changes into the host, in the order they are taken.
#[derive(Debug)]
pub struct AcceptPlan {
    /// Removals, from the deepest source path up.
    pub removals: Vec<RemovalStep>,
    /// Renames moved out of the way into the holding area.
    pub renames: Vec<PendingRename>,
    /// What each change does, by destination.
    pub actions: Vec<AcceptAction>,
    /// Staged paths to clean up afterwards, children before their directories.
    pub cleanup: Vec<String>,
}

/// A change seen without the holding place of its rename: its destination, operation,
/// source and staged file.
pub open spec fn fview(c: ChangeEntry) -> (Seq<char>, EntryOperation, Option<(Seq<char>, FileStat)>, Option<(Seq<char>, FileStat)>) {
    (c.destination@, c.operation, opt_details_view(c.source), opt_details_view(c.staged))
}

/// Whether some change of `s` looks like `x`, holding place aside.
pub open spec fn has_like(s: Seq<ChangeEntry>, x: ChangeEntry) -> bool {
    exists|j: int| 0 <= j < s.len() && fview(x) == #[trigger] fview(s[j])
}

/// Whether every change of `t` looks (holding place aside) like some change of `s`.
pub open spec fn from_elems(t: Seq<ChangeEntry>, s: Seq<ChangeEntry>) -> bool {
    forall|k: int| 0 <= k < t.len() ==> #[trigger] has_like(s, t[k])
}

/// Whether `t` and `s` hold the same changes, holding places aside, each possibly more
/// than once.
pub open spec fn same_elems(t: Seq<ChangeEntry>, s: Seq<ChangeEntry>) -> bool {
    from_elems(t, s) && from_elems(s, t)
}

/// The error, if any, that accepting a change gives (the id of a temporary copy plays
/// no part in it).
pub open spec fn action_error(c: ChangeEntry) -> Option<Seq<char>> {
    match action_of(c, seq![]) {
        Ok(_) => None,
        Err(m) => Some(m),
    }
}

/// Whether every change can be removed where it asks for a removal.
pub open spec fn all_removable(s: Seq<ChangeEntry>) -> bool {
    forall|j: int| 0 <= j < s.len() ==> (#[trigger] removal_of(s[j])) is Ok
}

/// Whether every change has an action.
pub open spec fn all_actionable(s: Seq<ChangeEntry>) -> bool {
    forall|j: int| 0 <= j < s.len() ==> (#[trigger] action_error(s[j])) is None
}

/// Whether some change is a rename from an existing source.
pub open spec fn has_renames(s: Seq<ChangeEntry>) -> bool {
    exists|j: int| 0 <= j < s.len() && #[trigger] is_source_rename(s[j])
}

proof fn lemma_fview_decides(a: ChangeEntry, b: ChangeEntry, id: Seq<char>)
    requires
        fview(a) == fview(b),
    ensures
        removal_of(a) == removal_of(b),
        action_error(a) == action_error(b),
        is_source_rename(a) == is_source_rename(b),
        action_of(a, id) is Err <==> action_error(a) is Some,
        action_of(a, id) matches Err(m) ==> action_error(a) == Some(m),
{
    assert(opt_details_view(a.source) == opt_details_view(b.source));
    assert(opt_details_view(a.staged) == opt_details_view(b.staged));
    assert(a.source is Some <==> b.source is Some);
    assert(a.staged is Some <==> b.staged is Some);
    if a.source is Some {
        assert(details_view(a.source->0) == details_view(b.source->0));
    }
    if a.staged is Some {
        assert(details_view(a.staged->0) == details_view(b.staged->0));
    }
}

proof fn lemma_from_prefix(t: Seq<ChangeEntry>, s: Seq<ChangeEntry>)
    requires
        from_elems(t, s),
        t.len() > 0,
    ensures
        from_elems(t.drop_last(), s),
        has_like(s, t[t.len() - 1]),
{
    let d = t.drop_last();
    assert forall|k: int| 0 <= k < d.len() implies #[trigger] has_like(s, d[k]) by {
        assert(d[k] == t[k]);
        assert(has_like(s, t[k]));
    }
}

proof fn lemma_removals_ok(t: Seq<ChangeEntry>, s: Seq<ChangeEntry>)
    requires
        all_removable(s),
        from_elems(t, s),
    ensures
        removals_of(t) is Ok,
    decreases t.len(),
{
    if t.len() > 0 {
        lemma_from_prefix(t, s);
        lemma_removals_ok(t.drop_last(), s);
        let k = t.len() - 1;
        let j = choose|j: int| 0 <= j < s.len() && fview(t[k]) == #[trigger] fview(s[j]);
        lemma_fview_decides(t[k], s[j], seq![]);
        assert(removal_of(s[j]) is Ok);
    }
}

proof fn lemma_actions_ok(t: Seq<ChangeEntry>, s: Seq<ChangeEntry>, ids: Seq<Seq<char>>)
    requires
        all_actionable(s),
        from_elems(t, s),
    ensures
        actions_of(t, ids) is Ok,
    decreases t.len(),
{
    if t.len() > 0 {
        lemma_from_prefix(t, s);
        lemma_actions_ok(t.drop_last(), s, ids);
        let k = t.len() - 1;
        let j = choose|j: int| 0 <= j < s.len() && fview(t[k]) == #[trigger] fview(s[j]);
        lemma_fview_decides(t[k], s[j], ids[k]);
        assert(action_error(s[j]) is None);
    }
}

/// The error of the first change of `t`, in its order, that has no action.
pub open spec fn first_action_error(t: Seq<ChangeEntry>) -> Option<Seq<char>>
    decreases t.len(),
{
    if t.len() == 0 {
        None
    } else {
        match first_action_error(t.drop_last()) {
            Some(m) => Some(m),
            None => action_error(t.last()),
        }
    }
}

/// The changes a plan checks for actions: in order of destination, ties in order of
/// source from last to first.
pub open spec fn action_check_order(s: Seq<ChangeEntry>) -> Seq<ChangeEntry> {
    sorted_changes(sorted_changes(s, ChangeOrder::ReverseSource), ChangeOrder::Destination)
}

/// Working out the actions of changes fails exactly with the error of the first change
/// that has none.
proof fn lemma_first_action_error(t: Seq<ChangeEntry>, ids: Seq<Seq<char>>)
    ensures
        match (actions_of(t, ids), first_action_error(t)) {
            (Ok(_), None) => true,
            (Err(m), Some(e)) => m == e,
            _ => false,
        },
    decreases t.len(),
{
    if t.len() > 0 {
        lemma_first_action_error(t.drop_last(), ids);
        lemma_fview_decides(t.last(), t.last(), ids[t.len() - 1]);
    }
}

/// Changes that look alike, holding places aside, one by one, fail at the same error.
proof fn lemma_first_action_error_fviews(t1: Seq<ChangeEntry>, t2: Seq<ChangeEntry>)
    requires
        t1.map_values(|c: ChangeEntry| fview(c)) == t2.map_values(|c: ChangeEntry| fview(c)),
    ensures
        first_action_error(t1) == first_action_error(t2),
    decreases t1.len(),
{
    assert(t1.map_values(|c: ChangeEntry| fview(c)).len() == t1.len());
    assert(t2.map_values(|c: ChangeEntry| fview(c)).len() == t2.len());
    if t1.len() > 0 {
        let n = t1.len() - 1;
        assert(t1.drop_last().map_values(|c: ChangeEntry| fview(c)) =~= t1.map_values(|c: ChangeEntry| fview(c)).drop_last());
        assert(t2.drop_last().map_values(|c: ChangeEntry| fview(c)) =~= t2.map_values(|c: ChangeEntry| fview(c)).drop_last());
        lemma_first_action_error_fviews(t1.drop_last(), t2.drop_last());
        assert(t1.map_values(|c: ChangeEntry| fview(c))[n] == t2.map_values(|c: ChangeEntry| fview(c))[n]);
        lemma_fview_decides(t1.last(), t2.last(), seq![]);
    }
}

/// Without renames, recording holding places leaves every change as it was.
proof fn lemma_no_tmp_paths(t: Seq<ChangeEntry>, cwd: Seq<char>, ids: Seq<Seq<char>>)
    requires
        rename_count(t) == 0,
    ensures
        with_tmp_paths(t, cwd, ids) == entry_views(t),
    decreases t.len(),
{
    if t.len() > 0 {
        lemma_no_tmp_paths(t.drop_last(), cwd, ids);
        assert(entry_views(t) =~= entry_views(t.drop_last()).push(entry_view(t.last())));
    }
}

/// Without renames, the changes a plan checks for actions fail at the same error as
/// `action_check_order(s)`.
proof fn lemma_checked_order(
    s: Seq<ChangeEntry>,
    first: Seq<ChangeEntry>,
    dry: Seq<ChangeEntry>,
    cwd: Seq<char>,
    ids: Seq<Seq<char>>,
)
    requires
        first == sorted_changes(sorted_changes(s, ChangeOrder::ReverseSource), ChangeOrder::ReverseSource),
        rename_count(first) == 0,
        entry_views(dry) == with_tmp_paths(first, cwd, ids),
    ensures
        first_action_error(sorted_changes(dry, ChangeOrder::Destination)) == first_action_error(action_check_order(s)),
{
    lemma_stable_sorted_twice(&ReverseSource, s);
    lemma_no_tmp_paths(first, cwd, ids);
    assert(entry_views(dry).len() == dry.len());
    assert(entry_views(first).len() == first.len());
    assert(dry.map_values(|c: ChangeEntry| fview(c)) =~= first.map_values(|c: ChangeEntry| fview(c))) by {
        assert forall|k: int| 0 <= k < dry.len() implies fview(#[trigger] dry[k]) == fview(first[k]) by {
            assert(entry_views(dry)[k] == entry_view(dry[k]));
            assert(entry_views(first)[k] == entry_view(first[k]));
        }
    }
    lemma_stable_sort_exists(&Destination, first);
    lemma_stable_sorted_views(&Destination, |c: ChangeEntry| fview(c), first, dry);
    lemma_first_action_error_fviews(sorted_changes(dry, ChangeOrder::Destination), action_check_order(s));
}

/// Where accepting changes fails, the error is that of one of the changes; and it fails
/// where one of them has an error.
proof fn lemma_actions_error(t: Seq<ChangeEntry>, ids: Seq<Seq<char>>)
    ensures
        actions_of(t, ids) matches Err(m) ==> exists|k: int| 0 <= k < t.len() && #[trigger] action_error(t[k]) == Some(m),
        (exists|k: int| 0 <= k < t.len() && (#[trigger] action_error(t[k])) is Some) ==> actions_of(t, ids) is Err,
    decreases t.len(),
{
    if t.len() > 0 {
        let d = t.drop_last();
        lemma_actions_error(d, ids);
        let n = t.len() - 1;
        lemma_fview_decides(t[n], t[n], ids[n]);
        if actions_of(t, ids) is Err {
            if actions_of(d, ids) is Err {
                let m = actions_of(d, ids)->Err_0;
                let k = choose|k: int| 0 <= k < d.len() && #[trigger] action_error(d[k]) == Some(m);
                assert(t[k] == d[k]);
            }
        }
        if exists|k: int| 0 <= k < t.len() && (#[trigger] action_error(t[k])) is Some {
            let k = choose|k: int| 0 <= k < t.len() && (#[trigger] action_error(t[k])) is Some;
            if k < n {
                assert(d[k] == t[k]);
            }
        }
    }
}

proof fn lemma_no_renames(t: Seq<ChangeEntry>, s: Seq<ChangeEntry>)
    requires
        !has_renames(s),
        from_elems(t, s),
    ensures
        rename_count(t) == 0,
    decreases t.len(),
{
    if t.len() > 0 {
        lemma_from_prefix(t, s);
        lemma_no_renames(t.drop_last(), s);
        let k = t.len() - 1;
        let j = choose|j: int| 0 <= j < s.len() && fview(t[k]) == #[trigger] fview(s[j]);
        lemma_fview_decides(t[k], s[j], seq![]);
        assert(!is_source_rename(s[j]));
        assert(t.last() == t[k]);
    }
}

proof fn lemma_pending_len(s: Seq<ChangeEntry>, cwd: Seq<char>, ids: Seq<Seq<char>>)
    ensures
        pending_renames(s, cwd, ids).len() == rename_count(s),
    decreases s.len(),
{
    if s.len() > 0 {
        lemma_pending_len(s.drop_last(), cwd, ids);
    }
}

/// Recording holding places keeps the rest of each change.
proof fn lemma_tmp_paths_keep(s: Seq<ChangeEntry>, cwd: Seq<char>, ids: Seq<Seq<char>>, k: int)
    requires
        0 <= k < s.len(),
    ensures
        with_tmp_paths(s, cwd, ids).len() == s.len(),
        with_tmp_paths(s, cwd, ids)[k].0 == entry_view(s[k]).0,
        with_tmp_paths(s, cwd, ids)[k].1 == entry_view(s[k]).1,
        with_tmp_paths(s, cwd, ids)[k].2 == entry_view(s[k]).2,
        with_tmp_paths(s, cwd, ids)[k].3 == entry_view(s[k]).3,
    decreases s.len(),
{
    let d = s.drop_last();
    if k < d.len() {
        lemma_tmp_paths_keep(d, cwd, ids, k);
        assert(s[k] == d[k]);
    } else if d.len() > 0 {
        lemma_tmp_paths_keep(d, cwd, ids, 0);
    } else {
        assert(with_tmp_paths(d, cwd, ids).len() == 0);
    }
}

/// Recording holding places changes nothing else of the changes.
proof fn lemma_tmp_elems(dv: Seq<ChangeEntry>, s: Seq<ChangeEntry>, cwd: Seq<char>, ids: Seq<Seq<char>>)
    requires
        entry_views(dv) == with_tmp_paths(s, cwd, ids),
    ensures
        dv.len() == s.len(),
        same_elems(dv, s),
{
    assert(entry_views(dv).len() == dv.len());
    if s.len() > 0 {
        lemma_tmp_paths_keep(s, cwd, ids, 0);
    }
    assert(dv.len() == s.len());
    assert forall|k: int| 0 <= k < dv.len() implies fview(dv[k]) == fview(s[k]) by {
        lemma_tmp_paths_keep(s, cwd, ids, k);
        assert(entry_views(dv)[k] == entry_view(dv[k]));
    }
    assert forall|k: int| 0 <= k < dv.len() implies #[trigger] has_like(s, dv[k]) by {
        assert(fview(dv[k]) == fview(s[k]));
    }
    assert forall|k: int| 0 <= k < s.len() implies #[trigger] has_like(dv, s[k]) by {
        assert(fview(dv[k]) == fview(s[k]));
    }
}

proof fn lemma_perm_onto(perm: Seq<int>, n: nat, j: int)
    requires
        crate::sort::is_permutation(perm, n),
        0 <= j < n,
    ensures
        exists|k: int| 0 <= k < n && perm[k] == j,
{
    if !(exists|k: int| 0 <= k < n && perm[k] == j) {
        assert(perm.no_duplicates());
        perm.unique_seq_to_set();
        vstd::set_lib::lemma_int_range(0, n as int);
        let range = vstd::set_lib::set_int_range(0, n as int).remove(j);
        assert(perm.to_set().subset_of(range)) by {
            assert forall|x: int| perm.to_set().contains(x) implies range.contains(x) by {
                let k = choose|k: int| 0 <= k < perm.len() && perm[k] == x;
                assert(0 <= perm[k] < n);
            }
        }
        assert(vstd::set_lib::set_int_range(0, n as int).contains(j));
        vstd::set_lib::lemma_len_subset(perm.to_set(), range);
    }
}

proof fn lemma_sorted_elems<O: TotalPreorder<ChangeEntry>>(o: &O, s: Seq<ChangeEntry>)
    ensures
        same_elems(stable_sorted(o, s), s),
{
    crate::sort::lemma_stable_sort_exists(o, s);
    let r = stable_sorted(o, s);
    let perm = choose|perm: Seq<int>| crate::sort::stable_sort_with(o, s, r, perm);
    assert(crate::sort::stable_sort_with(o, s, r, perm));
    assert forall|k: int| 0 <= k < r.len() implies #[trigger] has_like(s, r[k]) by {
        assert(r[k] == s[perm[k]]);
        assert(fview(r[k]) == fview(s[perm[k]]));
    }
    assert forall|j: int| 0 <= j < s.len() implies #[trigger] has_like(r, s[j]) by {
        lemma_perm_onto(perm, s.len(), j);
        let k = choose|k: int| 0 <= k < s.len() && perm[k] == j;
        assert(r[k] == s[perm[k]]);
        assert(fview(s[j]) == fview(r[k]));
    }
}

/// Sorting changes keeps the same changes.
proof fn lemma_sorted_changes_elems(s: Seq<ChangeEntry>, o: ChangeOrder)
    ensures
        same_elems(sorted_changes(s, o), s),
{
    match o {
        ChangeOrder::ReverseSource => lemma_sorted_elems(&ReverseSource, s),
        ChangeOrder::Destination => lemma_sorted_elems(&Destination, s),
        ChangeOrder::StagedDescending => lemma_sorted_elems(&StagedDescending, s),
    }
}

proof fn lemma_from_trans(a: Seq<ChangeEntry>, b: Seq<ChangeEntry>, c: Seq<ChangeEntry>)
    requires
        from_elems(a, b),
        from_elems(b, c),
    ensures
        from_elems(a, c),
{
    assert forall|k: int| 0 <= k < a.len() implies #[trigger] has_like(c, a[k]) by {
        assert(has_like(b, a[k]));
        let i = choose|i: int| 0 <= i < b.len() && fview(a[k]) == #[trigger] fview(b[i]);
        assert(has_like(c, b[i]));
        let j = choose|j: int| 0 <= j < c.len() && fview(b[i]) == #[trigger] fview(c[j]);
        assert(fview(a[k]) == fview(c[j]));
    }
}

proof fn lemma_same_trans(a: Seq<ChangeEntry>, b: Seq<ChangeEntry>, c: Seq<ChangeEntry>)
    requires
        same_elems(a, b),
        same_elems(b, c),
    ensures
        same_elems(a, c),
{
    lemma_from_trans(a, b, c);
    lemma_from_trans(c, b, a);
}

/// Whether `p` is the plan that accepting the changes `s` with renames held in `cwd`
/// comes to, given how the dry run left the changes (`dry`, its renames holding with
/// `dry_ids`), how the second pass left them (`held`, with `ids`), and the ids
/// `write_ids` of the files written.
pub open spec fn plan_matches(
    s: Seq<ChangeEntry>,
    cwd: Seq<char>,
    p: AcceptPlan,
    dry: Seq<ChangeEntry>,
    held: Seq<ChangeEntry>,
    dry_ids: Seq<Seq<char>>,
    ids: Seq<Seq<char>>,
    write_ids: Seq<Seq<char>>,
) -> bool {
    let first = sorted_changes(sorted_changes(s, ChangeOrder::ReverseSource), ChangeOrder::ReverseSource);
    let second = sorted_changes(sorted_changes(dry, ChangeOrder::Destination), ChangeOrder::ReverseSource);
    let third = sorted_changes(second, ChangeOrder::ReverseSource);
    &&& dry_ids.len() == rename_count(first)
    &&& entry_views(dry) == with_tmp_paths(first, cwd, dry_ids)
    &&& removals_of(second) == Ok::<Seq<(Seq<char>, bool, Option<Seq<char>>)>, Seq<char>>(removal_views(p.removals@))
    &&& ids.len() == rename_count(third)
    &&& p.renames@.map_values(|r: PendingRename| pending_view(r)) == pending_renames(third, cwd, ids)
    &&& entry_views(held) == with_tmp_paths(third, cwd, ids)
    &&& write_ids.len() == held.len()
    &&& actions_of(sorted_changes(held, ChangeOrder::Destination), write_ids) == Ok::<Seq<ActionView>, Seq<char>>(
        p.actions@.map_values(|a: AcceptAction| action_view(a)),
    )
}

/// Plans the acceptance of `changes` with renames held in `cwd`. A dry run first checks
/// every step that could refuse (removals of missing or special files, renames that
/// cross a mount point, writes of unsupported files, error changes), so that nothing on
/// the host is touched when one does; the plan then comes from a second pass over the
/// changes as the dry run left them. Removals go from the deepest source path up,
/// renames are moved out of the way, the actions go by destination, and the staged paths
/// are cleaned up children first. The holding places and written files are named by
/// fresh random ids, and whether a rename crosses a mount point is read from the disk.
pub fn accept_plan(changes: ChangeEntries, cwd: &String) -> (r: Result<AcceptPlan, String>)
    ensures
        removals_of(sorted_changes(changes.0@, ChangeOrder::ReverseSource)) matches Err(m) ==> (r matches Err(
            e,
        ) && e@ == m),
        all_removable(changes.0@) && all_actionable(changes.0@) && !has_renames(changes.0@) ==> r is Ok,
        all_removable(changes.0@) && !all_actionable(changes.0@) ==> (r matches Err(e) && (!has_renames(changes.0@)
            ==> exists|j: int| 0 <= j < changes.0.len() && #[trigger] action_error(changes.0@[j]) == Some(e@))),
        all_removable(changes.0@) && !has_renames(changes.0@) ==> (first_action_error(action_check_order(changes.0@))
            matches Some(m) ==> (r matches Err(e) && e@ == m)),
        r matches Ok(p) ==> exists|
            dry: Seq<ChangeEntry>,
            held: Seq<ChangeEntry>,
            dry_ids: Seq<Seq<char>>,
            ids: Seq<Seq<char>>,
            write_ids: Seq<Seq<char>>,
        | #[trigger] plan_matches(changes.0@, cwd@, p, dry, held, dry_ids, ids, write_ids),
        r matches Ok(p) ==> exists|staged: Seq<String>|
            #![trigger cleanup_order(staged)]
            str_views(staged) == removals_staged(removal_views(p.removals@)) + actions_staged(
                p.actions@.map_values(|a: AcceptAction| action_view(a)),
            ) && str_views(p.cleanup@) == cleanup_order(staged),
{
    let ghost s = changes.0@;
    let mut entries = changes;
    entries.sort_by(ChangeOrder::ReverseSource);
    proof {
        lemma_sorted_changes_elems(s, ChangeOrder::ReverseSource);
        if all_removable(s) {
            lemma_removals_ok(entries.0@, s);
        }
    }
    match removal_steps(&entries.0) {
        Err(e) => return Err(e),
        Ok(_) => {},
    }
    let ghost a1 = entries.0@;
    entries.sort_by(ChangeOrder::ReverseSource);
    let ghost first = entries.0@;
    proof {
        lemma_sorted_changes_elems(a1, ChangeOrder::ReverseSource);
        lemma_same_trans(first, a1, s);
    }
    let dry_ids = fresh_ids(rename_count_of(&entries.0));
    let pending = prepare_renames(&mut entries.0, cwd, &dry_ids);
    let ghost dry = entries.0@;
    proof {
        lemma_tmp_elems(dry, first, cwd@, str_views(dry_ids@));
        lemma_same_trans(dry, first, s);
        lemma_pending_len(first, cwd@, str_views(dry_ids@));
        assert(pending@.map_values(|r: PendingRename| pending_view(r)).len() == pending.len());
        if !has_renames(s) {
            lemma_no_renames(first, s);
            lemma_checked_order(s, first, dry, cwd@, str_views(dry_ids@));
        }
    }
    match check_mounts(&pending) {
        Err(m) => {
            return Err(m);
        },
        Ok(()) => {},
    }
    entries.sort_by(ChangeOrder::Destination);
    let check_ids = fresh_ids(entries.0.len());
    let ghost b = entries.0@;
    proof {
        lemma_sorted_changes_elems(dry, ChangeOrder::Destination);
        lemma_same_trans(b, dry, s);
        lemma_actions_error(b, str_views(check_ids@));
        lemma_first_action_error(b, str_views(check_ids@));
        if all_actionable(s) {
            lemma_actions_ok(b, s, str_views(check_ids@));
        } else {
            let j = choose|j: int| 0 <= j < s.len() && (#[trigger] action_error(s[j])) is Some;
            assert(has_like(b, s[j]));
            let k = choose|k: int| 0 <= k < b.len() && fview(s[j]) == #[trigger] fview(b[k]);
            lemma_fview_decides(b[k], s[j], seq![]);
            assert(action_error(b[k]) is Some);
        }
    }
    match actions_for(&entries.0, &check_ids) {
        Err(m) => {
            proof {
                let k = choose|k: int| 0 <= k < b.len() && #[trigger] action_error(b[k]) == Some(m@);
                assert(has_like(s, b[k]));
                let j = choose|j: int| 0 <= j < s.len() && fview(b[k]) == #[trigger] fview(s[j]);
                lemma_fview_decides(b[k], s[j], seq![]);
                assert(action_error(s[j]) == Some(m@));
            }
            return Err(m);
        },
        Ok(_) => {},
    }
    entries.sort_by(ChangeOrder::ReverseSource);
    proof {
        lemma_sorted_changes_elems(b, ChangeOrder::ReverseSource);
        lemma_same_trans(entries.0@, b, s);
        if all_removable(s) {
            lemma_removals_ok(entries.0@, s);
        }
    }
    let ghost second = entries.0@;
    let removals = match removal_steps(&entries.0) {
        Err(e) => return Err(e),
        Ok(v) => v,
    };
    entries.sort_by(ChangeOrder::ReverseSource);
    let ghost third = entries.0@;
    proof {
        lemma_sorted_changes_elems(second, ChangeOrder::ReverseSource);
        lemma_same_trans(third, second, s);
    }
    let ids = fresh_ids(rename_count_of(&entries.0));
    let renames = prepare_renames(&mut entries.0, cwd, &ids);
    let ghost held = entries.0@;
    entries.sort_by(ChangeOrder::Destination);
    let write_ids = fresh_ids(entries.0.len());
    proof {
        lemma_tmp_elems(held, third, cwd@, str_views(ids@));
        lemma_same_trans(held, third, s);
        lemma_sorted_changes_elems(held, ChangeOrder::Destination);
        lemma_same_trans(entries.0@, held, s);
        if all_actionable(s) {
            lemma_actions_ok(entries.0@, s, str_views(write_ids@));
        }
    }
    let actions = match actions_for(&entries.0, &write_ids) {
        Err(e) => return Err(e),
        Ok(v) => v,
    };
    let staged = staged_paths(&removals, &actions);
    let cleanup = cleanup_order_of(staged);
    let p = AcceptPlan { removals, renames, actions, cleanup };
    assert(plan_matches(s, cwd@, p, dry, held, str_views(dry_ids@), str_views(ids@), str_views(write_ids@)));
    let r: Result<AcceptPlan, String> = Ok(p);
    assert(r matches Ok(p2) && p2 == p);
    r
}

/// The removals that changes ask for, where none fails.
pub open spec fn planned_removals(s: Seq<ChangeEntry>) -> Seq<(Seq<char>, bool, Option<Seq<char>>)> {
    match removals_of(s) {
        Ok(r) => r,
        Err(_) => seq![],
    }
}

/// Whether `p` is the source path of one of the changes `s`.
pub open spec fn is_source_of(s: Seq<ChangeEntry>, p: Seq<char>) -> bool {
    exists|k: int| 0 <= k < s.len() && (#[trigger] s[k]).source is Some && p == s[k].source->0.path@
}

/// Each removal removes the source of one of the changes.
proof fn lemma_removal_paths_are_sources(s: Seq<ChangeEntry>)
    requires
        removals_of(s) is Ok,
    ensures
        forall|m: int| 0 <= m < planned_removals(s).len() ==> #[trigger] is_source_of(s, planned_removals(s)[m].0),
    decreases s.len(),
{
    if s.len() > 0 {
        let d = s.drop_last();
        lemma_removal_paths_are_sources(d);
        assert forall|m: int| 0 <= m < planned_removals(s).len() implies #[trigger] is_source_of(s, planned_removals(s)[m].0) by {
            if m < planned_removals(d).len() {
                assert(is_source_of(d, planned_removals(d)[m].0));
                let k = choose|k: int| 0 <= k < d.len() && (#[trigger] d[k]).source is Some
                    && planned_removals(d)[m].0 == d[k].source->0.path@;
                assert(s[k] == d[k]);
            } else {
                assert(s[s.len() - 1] == s.last());
            }
        }
    }
}

/// Removals go from the deepest path up: applied to changes in the order that sorting by
/// source (from last to first) gives, no removal's path comes before a later one's.
pub proof fn lemma_removals_deepest_first(s: Seq<ChangeEntry>)
    requires
        crate::sort::sorted_by(&crate::sandbox::changes::change_entries::ReverseSource, s),
        removals_of(s) is Ok,
    ensures
        forall|i: int, j: int| 0 <= i < j < planned_removals(s).len() ==> path_le(
            (#[trigger] planned_removals(s)[j]).0,
            (#[trigger] planned_removals(s)[i]).0,
        ),
    decreases s.len(),
{
    if s.len() > 0 {
        let d = s.drop_last();
        assert(crate::sort::sorted_by(&crate::sandbox::changes::change_entries::ReverseSource, d)) by {
            assert forall|i: int, j: int| 0 <= i < j < d.len() implies crate::sandbox::changes::change_entries::ReverseSource.le(
                #[trigger] d[i],
                #[trigger] d[j],
            ) by {
                assert(d[i] == s[i] && d[j] == s[j]);
            }
        }
        lemma_removals_deepest_first(d);
        lemma_removal_paths_are_sources(d);
        let pd = planned_removals(d);
        let ps = planned_removals(s);
        assert forall|i: int, j: int| 0 <= i < j < ps.len() implies path_le(
            (#[trigger] ps[j]).0,
            (#[trigger] ps[i]).0,
        ) by {
            if j < pd.len() {
                assert(ps[i] == pd[i] && ps[j] == pd[j]);
            } else {
                let last = s.last();
                assert(ps[i] == pd[i]);
                assert(is_source_of(d, pd[i].0));
                let k = choose|k: int| 0 <= k < d.len() && (#[trigger] d[k]).source is Some
                    && pd[i].0 == d[k].source->0.path@;
                assert(s[k] == d[k]);
                assert(crate::sandbox::changes::change_entries::ReverseSource.le(s[k], s[s.len() - 1]));
                assert(s[s.len() - 1] == last);
            }
        }
    }
}

/// The removal a change to remove needs: its host path, removed as a directory exactly
/// when the host has a directory there (a regular file or a symbolic link is removed as
/// a file), with the staged path where there is one.
pub open spec fn expected_removal(c: ChangeEntry) -> (Seq<char>, bool, Option<Seq<char>>) {
    (
        c.source->0.path@,
        file_type(c.source->0.stat.st_mode) == S_IFDIR,
        match c.staged {
            Some(st) => Some(st.path@),
            None => None,
        },
    )
}

/// Whether a change to remove names a host file that can be removed: a regular file, a
/// symbolic link or a directory.
pub open spec fn removable_source(c: ChangeEntry) -> bool {
    c.source matches Some(src) && (file_type(src.stat.st_mode) == S_IFREG || file_type(src.stat.st_mode)
        == S_IFLNK || file_type(src.stat.st_mode) == S_IFDIR)
}

/// Where every change to remove names a removable host file, planning removals succeeds.
proof fn lemma_removals_ok_when_removable(s: Seq<ChangeEntry>)
    requires
        forall|k: int| 0 <= k < s.len() && (#[trigger] s[k]).operation == EntryOperation::Remove ==> removable_source(s[k]),
    ensures
        removals_of(s) is Ok,
    decreases s.len(),
{
    if s.len() > 0 {
        let d = s.drop_last();
        assert forall|k: int| 0 <= k < d.len() && (#[trigger] d[k]).operation == EntryOperation::Remove implies removable_source(d[k]) by {
            assert(s[k] == d[k]);
        }
        lemma_removals_ok_when_removable(d);
        if s.last().operation == EntryOperation::Remove {
            assert(removable_source(s[s.len() - 1]));
        }
    }
}

/// A plan's removals are the changes' own, one for each change to remove, in order.
proof fn lemma_removals_match_changes(s: Seq<ChangeEntry>)
    requires
        removals_of(s) is Ok,
    ensures
        ({
            let steps = removals_of(s)->Ok_0;
            &&& steps.len() <= s.len()
            &&& forall|k: int| 0 <= k < s.len() && (#[trigger] s[k]).operation == EntryOperation::Remove ==> s[k].source
                is Some && exists|m: int| 0 <= m < steps.len() && steps[m] == expected_removal(s[k])
            &&& forall|m: int| 0 <= m < steps.len() ==> exists|k: int|
                0 <= k < s.len() && (#[trigger] s[k]).operation == EntryOperation::Remove && #[trigger] steps[m]
                    == expected_removal(s[k])
        }),
    decreases s.len(),
{
    if s.len() > 0 {
        let d = s.drop_last();
        let n = s.len() - 1;
        let c = s[n];
        assert(removals_of(d) is Ok);
        lemma_removals_match_changes(d);
        let steps = removals_of(s)->Ok_0;
        let done = removals_of(d)->Ok_0;
        if c.operation == EntryOperation::Remove {
            assert(steps == done.push(expected_removal(c)));
        } else {
            assert(steps == done);
        }
        assert forall|k: int| 0 <= k < s.len() && (#[trigger] s[k]).operation == EntryOperation::Remove implies s[k].source
            is Some && exists|m: int| 0 <= m < steps.len() && steps[m] == expected_removal(s[k]) by {
            if k < n {
                assert(d[k] == s[k]);
                let m = choose|m: int| 0 <= m < done.len() && done[m] == expected_removal(d[k]);
                assert(steps[m] == done[m]);
            } else {
                assert(steps[steps.len() - 1] == expected_removal(c));
            }
        }
        assert forall|m: int| 0 <= m < steps.len() implies exists|k: int|
            0 <= k < s.len() && (#[trigger] s[k]).operation == EntryOperation::Remove && #[trigger] steps[m]
                == expected_removal(s[k]) by {
            if m < done.len() {
                assert(steps[m] == done[m]);
                let k = choose|k: int|
                    0 <= k < d.len() && (#[trigger] d[k]).operation == EntryOperation::Remove && done[m]
                        == expected_removal(d[k]);
                assert(s[k] == d[k]);
            } else {
                assert(steps[m] == expected_removal(s[n]));
            }
        }
    }
}

/// Planning removals: where every change to remove names a regular file, a symbolic link
/// or a directory on the host, the plan succeeds; and a plan holds one removal for each
/// change to remove, in the changes' order, and nothing else, each removing its host path
/// as a directory exactly when the host has a directory there (a file or a symbolic link
/// is removed as a file).
pub proof fn lemma_removals_follow_file_types(s: Seq<ChangeEntry>)
    ensures
        (forall|k: int| 0 <= k < s.len() && (#[trigger] s[k]).operation == EntryOperation::Remove ==> removable_source(s[k]))
            ==> removals_of(s) is Ok,
        removals_of(s) matches Ok(steps) ==> steps.len() <= s.len() && (forall|k: int|
            0 <= k < s.len() && (#[trigger] s[k]).operation == EntryOperation::Remove ==> s[k].source is Some
                && exists|m: int| 0 <= m < steps.len() && steps[m] == expected_removal(s[k])) && (forall|m: int|
            0 <= m < steps.len() ==> exists|k: int|
                0 <= k < s.len() && (#[trigger] s[k]).operation == EntryOperation::Remove && #[trigger] steps[m]
                    == expected_removal(s[k])),
{
    if forall|k: int| 0 <= k < s.len() && (#[trigger] s[k]).operation == EntryOperation::Remove ==> removable_source(s[k]) {
        lemma_removals_ok_when_removable(s);
    }
    if removals_of(s) is Ok {
        lemma_removals_match_changes(s);
    }
}

} // verus!
