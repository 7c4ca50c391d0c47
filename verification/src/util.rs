//! Small rules shared by the sandbox: which storage paths mount options can carry,
//! `~` expansion, where a sandbox's pid file lives, and whether output is printed.
use vstd::prelude::*;
use crate::text::{chars_of, string_of, push_str, push_all, is_alphanumeric, alphanumeric_char};
use crate::paths::{
    components, components_of, join, views, path_join, prefix_path, prefix_path_of,
    root_component,
};
use crate::sandbox::sandbox_struct::path_exists;
use crate::order::{lex_le, chars_le, lemma_lex_total, lemma_lex_trans};
use crate::sort::{TotalPreorder, stable_sort, stable_sorted};
use crate::numbers::{parse_i32, parsed_i32, signed_decimal, i32_text, all_digits, is_digit};
use crate::text::{split_words, words, owned};
use crate::paths::{starts_with_path, path_starts_with};

verus! {

/// Whether a character may appear in a storage path handed to the overlay as a mount
/// option: a letter or digit, or one of `_ - . / @ %`.
pub open spec fn mount_option_char(c: char) -> bool {
    alphanumeric_char(c) || c == '_' || c == '-' || c == '.' || c == '/' || c == '@' || c == '%'
}

/// Whether every character of a component may appear in a mount option.
pub open spec fn mount_option_component(c: Seq<char>) -> bool {
    forall|j: int| 0 <= j < c.len() ==> mount_option_char(#[trigger] c[j])
}

/// Whether `i` is the first component of `cs` that a mount option cannot carry.
pub open spec fn first_bad_component(cs: Seq<Seq<char>>, i: int) -> bool {
    &&& 0 <= i < cs.len()
    &&& !mount_option_component(cs[i])
    &&& forall|k: int| 0 <= k < i ==> mount_option_component(#[trigger] cs[k])
}

/// The message for a storage path without components.
pub open spec fn empty_path_message(path: Seq<char>) -> Seq<char> {
    "Storage path "@ + path + " is empty"@
}

/// The message for a storage path whose component `c` holds a character that a mount
/// option cannot carry.
pub open spec fn invalid_character_message(path: Seq<char>, c: Seq<char>) -> Seq<char> {
    "Storage path "@ + path + " contains invalid character "@ + c
}

/// Whether component `c` holds only characters that a mount option can carry.
fn component_fits(c: &Vec<char>) -> (r: bool)
    ensures
        r == mount_option_component(c@),
{
    let mut i: usize = 0;
    while i < c.len()
        invariant
            i <= c.len(),
            forall|j: int| 0 <= j < i ==> mount_option_char(#[trigger] c@[j]),
        decreases c.len() - i,
    {
        let ch = c[i];
        let ok = is_alphanumeric(ch) || ch == '_' || ch == '-' || ch == '.' || ch == '/' || ch
            == '@' || ch == '%';
        if !ok {
            assert(!mount_option_char(c@[i as int]));
            return false;
        }
        i = i + 1;
    }
    true
}

/// Checks that a storage path can be written into overlay mount options, which are
/// separated by commas: it must have a component, and each of its components may hold
/// only letters, digits and `_ - . / @ %`. The error names the first component that
/// does not fit.
pub fn check_path_for_mount_option_compatibility(path: &str) -> (r: Result<(), String>)
    ensures
        components(path@).len() == 0 <==> (r matches Err(e) && e@ == empty_path_message(path@)),
        r is Ok <==> (components(path@).len() > 0 && forall|k: int|
            0 <= k < components(path@).len() ==> mount_option_component(
                #[trigger] components(path@)[k],
            )),
        forall|i: int|
            #[trigger] first_bad_component(components(path@), i) ==> (r matches Err(e) && e@
                == invalid_character_message(path@, components(path@)[i])),
{
    let p = chars_of(path);
    let cs = components_of(&p);
    let ghost cv = views(cs@);
    if cs.len() == 0 {
        let mut m: Vec<char> = Vec::new();
        push_str(&mut m, "Storage path ");
        push_str(&mut m, path);
        push_str(&mut m, " is empty");
        proof {
            reveal_strlit("Storage path ");
            reveal_strlit(" is empty");
        }
        let e = string_of(&m);
        assert(e@ =~= empty_path_message(path@));
        return Err(e);
    }
    let mut i: usize = 0;
    while i < cs.len()
        invariant
            i <= cs.len(),
            cv == views(cs@),
            cv == components(path@),
            forall|k: int| 0 <= k < i ==> mount_option_component(#[trigger] cv[k]),
        decreases cs.len() - i,
    {
        assert(cv[i as int] == cs@[i as int]@);
        if !component_fits(&cs[i]) {
            let mut m: Vec<char> = Vec::new();
            push_str(&mut m, "Storage path ");
            push_str(&mut m, path);
            push_str(&mut m, " contains invalid character ");
            push_all(&mut m, &cs[i]);
            proof {
                reveal_strlit("Storage path ");
                reveal_strlit(" contains invalid character ");
                assert(first_bad_component(cv, i as int));
                assert forall|j: int| first_bad_component(cv, j) implies j == i by {
                    if j < i {
                    } else if j > i {
                        assert(mount_option_component(cv[i as int]));
                    }
                }
            }
            let e = string_of(&m);
            assert(e@ =~= invalid_character_message(path@, cv[i as int]));
            proof {
                reveal_strlit(" is empty");
                assert(e@.len() != empty_path_message(path@).len());
            }
            return Err(e);
        }
        i = i + 1;
    }
    Ok(())
}

/// `path` with a leading `~` standing for the user's home directory `home`: `~` alone
/// is `home`, `~/rest` is `home` joined with `rest`; any other path is returned as it is
/// (`~user` forms are not expanded).
pub open spec fn expanded_tilde(path: Seq<char>, home: Seq<char>) -> Seq<char> {
    if path == seq!['~'] {
        home
    } else if path.len() >= 2 && path[0] == '~' && path[1] == '/' {
        join(home, path.skip(2))
    } else {
        path
    }
}

/// Expands a path that starts with `~` using the user's home directory `home`.
pub fn expand_tilde_path(path: &str, home: &str) -> (r: String)
    ensures
        r@ == expanded_tilde(path@, home@),
{
    let p = chars_of(path);
    if p.len() == 1 && p[0] == '~' {
        assert(path@ =~= seq!['~']);
        let h = chars_of(home);
        return string_of(&h);
    }
    if p.len() >= 2 && p[0] == '~' && p[1] == '/' {
        assert(path@ != seq!['~']);
        let mut rest: Vec<char> = Vec::new();
        let mut i: usize = 2;
        while i < p.len()
            invariant
                2 <= i <= p.len(),
                p@ == path@,
                rest@ == p@.subrange(2, i as int),
            decreases p.len() - i,
        {
            rest.push(p[i]);
            i = i + 1;
            assert(rest@ =~= p@.subrange(2, i as int));
        }
        assert(rest@ =~= path@.skip(2));
        let rest_s = string_of(&rest);
        return path_join(home, rest_s.as_str());
    }
    assert(path@ != seq!['~']);
    string_of(&p)
}

/// The pid file of sandbox `name` kept in `storage_dir`: `<storage_dir>/<name>.pid`.
pub open spec fn sandbox_pid_path(storage_dir: Seq<char>, name: Seq<char>) -> Seq<char> {
    join(storage_dir, name + ".pid"@)
}

/// Where the pid of sandbox `name` is kept.
pub fn get_sandbox_pid_path(storage_dir: &str, name: &str) -> (r: String)
    ensures
        r@ == sandbox_pid_path(storage_dir@, name@),
{
    let mut file: Vec<char> = chars_of(name);
    push_str(&mut file, ".pid");
    let f = string_of(&file);
    path_join(storage_dir, f.as_str())
}

/// Whether what the commands report is printed: `--json` turns printing off so that
/// only the JSON document is written.
pub struct Output {
    pub should_print: bool,
}

impl Output {
    /// Output that is printed.
    pub fn new() -> (r: Output)
        ensures
            r.should_print,
    {
        Output { should_print: true }
    }

    /// The line to print for `text`, or `None` where printing is off.
    pub fn line_to_print(&self, text: &str) -> (r: Option<String>)
        ensures
            self.should_print ==> (r matches Some(t) && t@ == text@),
            !self.should_print ==> r is None,
    {
        if self.should_print {
            let v = chars_of(text);
            Some(string_of(&v))
        } else {
            None
        }
    }
}

/// Turns printing of reports on or off.
pub fn set_should_print_output(output: &mut Output, should_print: bool)
    ensures
        final(output).should_print == should_print,
{
    output.should_print = should_print;
}

/// Calls `nix::sys::stat::lstat` on `path` and gives the device its file system lives
/// on; an error gives its message. It depends on the disk, so nothing is stated of it.
#[verifier::external_body]
fn device_of(path: &str) -> (r: Result<u64, String>) {
    match nix::sys::stat::lstat(path) {
        Ok(st) => Ok(st.st_dev as u64),
        Err(e) => Err(e.to_string()),
    }
}

/// The number of leading components that every ancestor of `path` keeps: the root of
/// an absolute path is never dropped.
pub open spec fn kept_components(path: Seq<char>) -> int {
    if components(path).len() > 0 && components(path)[0] == root_component() {
        1
    } else {
        0
    }
}

/// Whether `m` is `path` itself or one of its ancestors.
pub open spec fn path_or_ancestor(path: Seq<char>, m: Seq<char>) -> bool {
    m == path || exists|k: int|
        kept_components(path) <= k < components(path).len() && m == #[trigger] prefix_path(path, k)
}

/// The mount point that holds `path`: from the nearest existing ancestor of `path` (or
/// `path` itself), the highest ancestor that is still on the same device.
pub fn find_mount_point(path: &str) -> (r: Result<String, String>)
    ensures
        r matches Ok(m) ==> path_or_ancestor(path@, m@),
{
    let p = chars_of(path);
    let cs = components_of(&p);
    let ghost cv = views(cs@);
    let min: usize = if cs.len() > 0 && cs[0].len() == 1 && cs[0][0] == '/' {
        1
    } else {
        0
    };
    proof {
        if cs.len() > 0 {
            assert(cv[0] == cs@[0]@);
        }
        if cs.len() > 0 && cs@[0]@.len() == 1 && cs@[0]@[0] == '/' {
            assert(cs@[0]@ =~= root_component());
        }
        if cs.len() > 0 && cs@[0]@ == root_component() {
            assert(cs@[0]@.len() == 1 && cs@[0]@[0] == '/');
        }
        assert(min == kept_components(path@));
    }
    let mut k: usize = cs.len();
    let mut cur: String = string_of(&p);
    while !path_exists(cur.as_str())
        invariant
            min <= k <= cs.len(),
            cv == views(cs@),
            cv == components(path@),
            min == kept_components(path@),
            k == cs.len() ==> cur@ == path@,
            k < cs.len() ==> cur@ == prefix_path(path@, k as int),
        decreases k,
    {
        if k <= min {
            let mut m: Vec<char> = Vec::new();
            push_str(&mut m, "Failed to get parent of path");
            return Err(string_of(&m));
        }
        k = k - 1;
        let v = prefix_path_of(&cs, k);
        cur = string_of(&v);
    }
    let device = device_of(cur.as_str())?;
    while k > min
        invariant
            min <= k <= cs.len(),
            cv == views(cs@),
            cv == components(path@),
            min == kept_components(path@),
            k == cs.len() ==> cur@ == path@,
            k < cs.len() ==> cur@ == prefix_path(path@, k as int),
        decreases k,
    {
        let v = prefix_path_of(&cs, k - 1);
        let parent = string_of(&v);
        let parent_device = device_of(parent.as_str())?;
        if parent_device != device {
            break;
        }
        k = k - 1;
        cur = parent;
    }
    proof {
        if k < cs.len() {
            assert(path_or_ancestor(path@, cur@)) by {
                assert(cur@ == prefix_path(path@, k as int));
            }
        }
    }
    Ok(cur)
}

/// Strings from last to first, character by character (`String`'s order, reversed).
pub struct TextDescending;

impl TotalPreorder<String> for TextDescending {
    open spec fn le(&self, a: String, b: String) -> bool {
        lex_le(b@, a@)
    }

    fn le_exec(&self, a: &String, b: &String) -> (r: bool) {
        chars_le(&chars_of(b.as_str()), &chars_of(a.as_str()))
    }

    proof fn lemma_total(&self, a: String, b: String) {
        lemma_lex_total(a@, b@);
    }

    proof fn lemma_trans(&self, a: String, b: String, c: String) {
        lemma_lex_trans(c@, b@, a@);
    }
}

/// The mount directories of `dirs` that lie under `base`, in order.
pub open spec fn under_base(dirs: Seq<String>, base: Seq<char>) -> Seq<String>
    decreases dirs.len(),
{
    if dirs.len() == 0 {
        seq![]
    } else {
        let before = under_base(dirs.drop_last(), base);
        if starts_with_path(dirs.last()@, base) {
            before.push(dirs.last())
        } else {
            before
        }
    }
}

/// The mount directories of the mount table `dirs` that lie under `base`, in descending
/// order of their text, so that a mount nested in another comes before it.
pub fn mounts_under(dirs: Vec<String>, base: &str) -> (r: Vec<String>)
    ensures
        r@ == stable_sorted(&TextDescending, under_base(dirs@, base@)),
{
    let ghost all = dirs@;
    let b = chars_of(base);
    let mut rest = dirs;
    let mut picked: Vec<String> = Vec::new();
    while rest.len() > 0
        invariant
            b@ == base@,
            rest@.len() <= all.len(),
            rest@ == all.skip(all.len() - rest@.len()),
            picked@ == under_base(all.take(all.len() - rest@.len()), base@),
        decreases rest.len(),
    {
        let ghost k = all.len() - rest@.len();
        let d = rest.remove(0);
        proof {
            assert(d == all[k]);
            assert(rest@ =~= all.skip(k + 1));
            assert(all.take(k + 1).drop_last() =~= all.take(k));
            assert(all.take(k + 1).last() == all[k]);
        }
        if path_starts_with(&chars_of(d.as_str()), &b) {
            picked.push(d);
        }
    }
    assert(all.take(all.len() as int) =~= all);
    stable_sort(picked, &TextDescending)
}

/// Whether a process is alive and well by the text of its `/proc/<pid>/stat`: its state,
/// the third field, is neither zombie (`Z`) nor stopped (`T`).
pub open spec fn state_ok(stat: Seq<char>) -> bool {
    let w = words(stat);
    w.len() > 2 && w[2] != "Z"@ && w[2] != "T"@
}

/// Whether a process is alive and well by the text of its `/proc/<pid>/stat`.
pub fn process_state_ok(stat: &str) -> (r: bool)
    ensures
        r == state_ok(stat@),
{
    let w = split_words(stat);
    proof {
        reveal_strlit("Z");
        reveal_strlit("T");
    }
    if w.len() <= 2 {
        return false;
    }
    assert(w@.map_values(|x: Vec<char>| x@)[2] == w@[2]@);
    let s = &w[2];
    let is_z = s.len() == 1 && s[0] == 'Z';
    let is_t = s.len() == 1 && s[0] == 'T';
    proof {
        if s@ == "Z"@ { assert(s@[0] == 'Z'); }
        if s@ == "T"@ { assert(s@[0] == 'T'); }
        if is_z { assert(s@ =~= "Z"@); }
        if is_t { assert(s@ =~= "T"@); }
    }
    !is_z && !is_t
}

/// The pid that a sandbox's pid file holds, read as `str::parse::<i32>` reads it.
pub fn pid_from_text(text: &str) -> (r: Option<i32>)
    ensures
        r == parsed_i32(text@),
{
    parse_i32(text)
}

/// The file that holds the process state of `pid`: `/proc/<pid>/stat`.
pub fn proc_stat_path(pid: i32) -> (r: String)
    ensures
        r@ == "/proc/"@ + signed_decimal(pid as int) + "/stat"@,
{
    let mut m = chars_of("/proc/");
    push_str(&mut m, i32_text(pid).as_str());
    push_str(&mut m, "/stat");
    string_of(&m)
}

/// The link to the pid namespace that the children of `pid` join:
/// `/proc/<pid>/ns/pid_for_children`.
pub fn pid_namespace_link(pid: i32) -> (r: String)
    ensures
        r@ == "/proc/"@ + signed_decimal(pid as int) + "/ns/pid_for_children"@,
{
    let mut m = chars_of("/proc/");
    push_str(&mut m, i32_text(pid).as_str());
    push_str(&mut m, "/ns/pid_for_children");
    string_of(&m)
}

/// The process that an entry of `/proc` stands for: none where its name is not all
/// ASCII digits; an error where it is but does not read as an `i32`.
pub open spec fn proc_entry_pid(name: Seq<char>) -> Result<Option<i32>, ()> {
    if !all_digits(name) {
        Ok(None)
    } else {
        match parsed_i32(name) {
            Some(p) => Ok(Some(p)),
            None => Err(()),
        }
    }
}

/// The process that an entry of `/proc` stands for, with the link to its pid namespace,
/// `/proc/<name>/ns/pid`.
pub fn proc_entry(name: &str) -> (r: Result<Option<(i32, String)>, String>)
    ensures
        match (r, proc_entry_pid(name@)) {
            (Ok(None), Ok(None)) => true,
            (Ok(Some((p, link))), Ok(Some(q))) => p == q && link@ == "/proc/"@ + name@ + "/ns/pid"@,
            (Err(_), Err(_)) => true,
            _ => false,
        },
{
    let c = chars_of(name);
    let mut i: usize = 0;
    while i < c.len()
        invariant
            i <= c.len(),
            c@ == name@,
            forall|j: int| 0 <= j < i ==> is_digit(#[trigger] c@[j]),
        decreases c.len() - i,
    {
        if !('0' <= c[i] && c[i] <= '9') {
            assert(!is_digit(c@[i as int]));
            return Ok(None);
        }
        i = i + 1;
    }
    assert(all_digits(name@));
    match parse_i32(name) {
        Some(p) => {
            let mut m = chars_of("/proc/");
            push_str(&mut m, name);
            push_str(&mut m, "/ns/pid");
            Ok(Some((p, string_of(&m))))
        },
        None => Err(owned("invalid digit found in string")),
    }
}

/// The message of a directory that exists but is something else, or that belongs to
/// another owner, where a sandbox needs a directory of its own; `None` where it is fine.
pub open spec fn existing_dir_problem(path: Seq<char>, mode: u32, uid: u32, gid: u32, want_uid: u32, want_gid: u32) -> Option<Seq<char>> {
    if mode & 0o170000u32 != 0o040000u32 {
        Some("Directory "@ + path + " already exists but is not a directory"@)
    } else if uid != want_uid || gid != want_gid {
        Some("Directory "@ + path + " already exists with different owner or group"@)
    } else {
        None
    }
}

/// Checks a directory that already exists where a sandbox needs one of its own.
pub fn check_existing_dir(path: &str, mode: u32, uid: u32, gid: u32, want_uid: u32, want_gid: u32) -> (r: Option<String>)
    ensures
        crate::text::opt_view(r) == existing_dir_problem(path@, mode, uid, gid, want_uid, want_gid),
{
    if mode & 0o170000u32 != 0o040000u32 {
        let mut m = chars_of("Directory ");
        push_str(&mut m, path);
        push_str(&mut m, " already exists but is not a directory");
        Some(string_of(&m))
    } else if uid != want_uid || gid != want_gid {
        let mut m = chars_of("Directory ");
        push_str(&mut m, path);
        push_str(&mut m, " already exists with different owner or group");
        Some(string_of(&m))
    } else {
        None
    }
}

/// What the environment says of who invoked the sandbox.
pub struct IdentityEnv {
    /// `SUDO_UID`
    pub sudo_uid: Option<String>,
    /// `SUDO_GID`
    pub sudo_gid: Option<String>,
    /// `SUDO_HOME`
    pub sudo_home: Option<String>,
    /// `HOME`
    pub home: Option<String>,
}

/// Who the sandbox acts for: under setuid (real and effective user differ, effective is
/// root) the real user and `HOME`, not trusting `SUDO_*`; otherwise `SUDO_UID` and
/// `SUDO_GID` where set (an error where they do not read as numbers), else the real
/// user, and `SUDO_HOME`, else `HOME`. The home defaults to `/tmp`.
pub open spec fn identity(real_uid: u32, real_gid: u32, effective_uid: u32, env: IdentityEnv) -> Result<(u32, u32, Seq<char>), Seq<char>> {
    if real_uid != effective_uid && effective_uid == 0 {
        let home = match env.home {
            Some(h) => h@,
            None => "/tmp"@,
        };
        Ok((real_uid, real_gid, home))
    } else {
        let home = match env.sudo_home {
            Some(h) => h@,
            None => match env.home {
                Some(h) => h@,
                None => "/tmp"@,
            },
        };
        match env.sudo_uid {
            Some(u) if crate::numbers::parsed_u32(u@) is None => Err("Failed to parse SUDO_UID: "@ + crate::text::debug_quoted(u@)),
            _ => match env.sudo_gid {
                Some(g) if crate::numbers::parsed_u32(g@) is None => Err("Failed to parse SUDO_GID: "@ + crate::text::debug_quoted(g@)),
                _ => {
                    let uid = match env.sudo_uid {
                        Some(u) => crate::numbers::parsed_u32(u@)->0,
                        None => real_uid,
                    };
                    let gid = match env.sudo_gid {
                        Some(g) => crate::numbers::parsed_u32(g@)->0,
                        None => real_gid,
                    };
                    Ok((uid, gid, home))
                },
            },
        }
    }
}

/// Who the sandbox acts for.
pub fn resolve_identity(real_uid: u32, real_gid: u32, effective_uid: u32, env: &IdentityEnv) -> (r: Result<(u32, u32, String), String>)
    ensures
        match (r, identity(real_uid, real_gid, effective_uid, *env)) {
            (Ok((u, g, h)), Ok((a, b, c))) => u == a && g == b && h@ == c,
            (Err(e), Err(m)) => e@ == m,
            _ => false,
        },
{
    if real_uid != effective_uid && effective_uid == 0 {
        let home = match &env.home {
            Some(h) => owned(h.as_str()),
            None => owned("/tmp"),
        };
        return Ok((real_uid, real_gid, home));
    }
    let home = match &env.sudo_home {
        Some(h) => owned(h.as_str()),
        None => match &env.home {
            Some(h) => owned(h.as_str()),
            None => owned("/tmp"),
        },
    };
    let uid = match &env.sudo_uid {
        Some(u) => match crate::numbers::parse_u32(u.as_str()) {
            Some(v) => v,
            None => {
                let mut m = chars_of("Failed to parse SUDO_UID: ");
                push_str(&mut m, crate::text::debug_text(u.as_str()).as_str());
                return Err(string_of(&m));
            },
        },
        None => real_uid,
    };
    let gid = match &env.sudo_gid {
        Some(g) => match crate::numbers::parse_u32(g.as_str()) {
            Some(v) => v,
            None => {
                let mut m = chars_of("Failed to parse SUDO_GID: ");
                push_str(&mut m, crate::text::debug_text(g.as_str()).as_str());
                return Err(string_of(&m));
            },
        },
        None => real_gid,
    };
    Ok((uid, gid, home))
}

} // verus!
