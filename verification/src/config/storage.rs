//! Where sandboxes are stored, which host paths are bound into every sandbox, and how
//! sandboxes without a given name are named or found.
use vstd::prelude::*;
use crate::text::{chars_of, string_of, owned, push_str, str_eq, str_views};
use crate::paths::{join, path_join, components, components_of, prefix_path, prefix_path_of, same_path, views};
use crate::util::kept_components;
use crate::numbers::{decimal, decimal_of};
use crate::config::structs::Network;
use crate::sandbox::sandbox_struct::path_exists;

verus! {

/// The directories tried for storing sandboxes: the one asked for, else
/// `<home>/.sandboxes` and then `/tmp/sandboxes-<uid>`.
pub open spec fn storage_candidates(asked: Option<Seq<char>>, home: Seq<char>, uid: u32) -> Seq<Seq<char>> {
    match asked {
        Some(d) => seq![d],
        None => seq![join(home, ".sandboxes"@), "/tmp/sandboxes-"@ + decimal(uid as nat)],
    }
}

/// The directories tried for storing sandboxes.
pub fn storage_candidates_of(asked: &Option<String>, home: &str, uid: u32) -> (r: Vec<String>)
    ensures
        str_views(r@) == storage_candidates(crate::text::opt_view(*asked), home@, uid),
{
    let mut r: Vec<String> = Vec::new();
    match asked {
        Some(d) => {
            r.push(owned(d.as_str()));
        },
        None => {
            r.push(path_join(home, ".sandboxes"));
            let mut t = chars_of("/tmp/sandboxes-");
            push_str(&mut t, decimal_of(uid as u64).as_str());
            r.push(string_of(&t));
        },
    }
    assert(str_views(r@) =~= storage_candidates(crate::text::opt_view(*asked), home@, uid));
    r
}

/// The file system types that can hold an overlay's upper and work directories (not NFS,
/// for one).
pub open spec fn acceptable_mount_types() -> Seq<Seq<char>> {
    seq!["btrfs"@, "ext4"@, "tmpfs"@, "xfs"@, "zfs"@]
}

/// Whether a file system type can hold an overlay's upper and work directories.
pub fn is_acceptable_mount_type(t: &str) -> (r: bool)
    ensures
        r == acceptable_mount_types().contains(t@),
{
    let r = str_eq(t, "btrfs") || str_eq(t, "ext4") || str_eq(t, "tmpfs") || str_eq(t, "xfs")
        || str_eq(t, "zfs");
    proof {
        let a = acceptable_mount_types();
        if r {
            if t@ == "btrfs"@ { assert(a[0] == t@); }
            if t@ == "ext4"@ { assert(a[1] == t@); }
            if t@ == "tmpfs"@ { assert(a[2] == t@); }
            if t@ == "xfs"@ { assert(a[3] == t@); }
            if t@ == "zfs"@ { assert(a[4] == t@); }
        } else {
            assert forall|i: int| 0 <= i < a.len() implies a[i] != t@ by {}
        }
    }
    r
}

/// The message when no directory can store sandboxes.
pub open spec fn no_storage_message() -> Seq<char> {
    "Failed to find a suitable storage directory. Please make sure the storage directory is set to a mount point that is one of the following types: btrfs, ext4, tmpfs, xfs, zfs"@
}

/// The message when no directory can store sandboxes.
pub fn no_storage_message_of() -> (r: String)
    ensures
        r@ == no_storage_message(),
{
    owned(
        "Failed to find a suitable storage directory. Please make sure the storage directory is set to a mount point that is one of the following types: btrfs, ext4, tmpfs, xfs, zfs",
    )
}

/// The type of the first mount, in the mount table's order, whose directory is
/// `mount_point`.
pub open spec fn mount_type_at(mounts: Seq<(Seq<char>, Seq<char>)>, mount_point: Seq<char>) -> Option<Seq<char>>
    decreases mounts.len(),
{
    if mounts.len() == 0 {
        None
    } else if mounts[0].0 == mount_point {
        Some(mounts[0].1)
    } else {
        mount_type_at(mounts.skip(1), mount_point)
    }
}

/// The type of the mount at `mount_point`, from the mount table's `(directory, type)`
/// entries.
pub fn mount_type_of(mounts: &Vec<(String, String)>, mount_point: &str) -> (r: Option<String>)
    ensures
        crate::text::opt_view(r) == mount_type_at(
            mounts@.map_values(|m: (String, String)| (m.0@, m.1@)),
            mount_point@,
        ),
{
    let ghost mv = mounts@.map_values(|m: (String, String)| (m.0@, m.1@));
    let mut i: usize = 0;
    assert(mv.skip(0) =~= mv);
    while i < mounts.len()
        invariant
            i <= mounts.len(),
            mv == mounts@.map_values(|m: (String, String)| (m.0@, m.1@)),
            mount_type_at(mv, mount_point@) == mount_type_at(mv.skip(i as int), mount_point@),
        decreases mounts.len() - i,
    {
        let ghost rest = mv.skip(i as int);
        assert(rest[0] == (mounts@[i as int].0@, mounts@[i as int].1@));
        assert(rest.skip(1) =~= mv.skip(i + 1));
        if str_eq(mounts[i].0.as_str(), mount_point) {
            return Some(owned(mounts[i].1.as_str()));
        }
        i = i + 1;
    }
    assert(mv.skip(mounts.len() as int) =~= Seq::<(Seq<char>, Seq<char>)>::empty());
    None
}

/// The host paths that are candidates for binding into every sandbox, in order: the
/// FUSE device; with the host's network, the system D-Bus, the user's D-Bus socket in
/// `runtime_dir` where that is set, and systemd.
pub open spec fn default_bind_candidates(net: Network, runtime_dir: Option<Seq<char>>) -> Seq<Seq<char>> {
    let host = match net {
        Network::Host => seq!["/run/dbus"@] + match runtime_dir {
            Some(d) => if d.len() > 0 {
                seq![join(d, "bus"@)]
            } else {
                seq![]
            },
            None => seq![],
        } + seq!["/run/systemd"@],
        Network::NoNetwork => seq![],
    };
    seq!["/dev/fuse"@] + host
}

/// The host paths that are candidates for binding into every sandbox.
pub fn default_bind_candidates_of(net: &Network, runtime_dir: &Option<String>) -> (r: Vec<String>)
    ensures
        str_views(r@) == default_bind_candidates(*net, crate::text::opt_view(*runtime_dir)),
{
    let mut r: Vec<String> = Vec::new();
    r.push(owned("/dev/fuse"));
    match net {
        Network::Host => {
            r.push(owned("/run/dbus"));
            match runtime_dir {
                Some(d) => {
                    if chars_of(d.as_str()).len() > 0 {
                        r.push(path_join(d.as_str(), "bus"));
                    }
                },
                None => {},
            }
            r.push(owned("/run/systemd"));
        },
        Network::NoNetwork => {},
    }
    assert(str_views(r@) =~= default_bind_candidates(*net, crate::text::opt_view(*runtime_dir)));
    r
}

/// The items of `s` that `keep` marks, in order.
pub open spec fn kept<T>(s: Seq<T>, keep: Seq<bool>) -> Seq<T>
    decreases s.len(),
{
    if s.len() == 0 {
        seq![]
    } else {
        let before = kept(s.drop_last(), keep);
        if keep[s.len() - 1] {
            before.push(s.last())
        } else {
            before
        }
    }
}

/// The host paths bound into every sandbox: the candidates that exist. Which exist
/// depends on the disk, so what is stated is that the result keeps candidates in order.
pub fn get_default_bind_mounts(net: &Network, runtime_dir: &Option<String>) -> (r: Vec<String>)
    ensures
        exists|keep: Seq<bool>|
            #![trigger kept(default_bind_candidates(*net, crate::text::opt_view(*runtime_dir)), keep)]
            str_views(r@) == kept(default_bind_candidates(*net, crate::text::opt_view(*runtime_dir)), keep),
{
    let candidates = default_bind_candidates_of(net, runtime_dir);
    let ghost cv = str_views(candidates@);
    let ghost mut keep: Seq<bool> = seq![];
    let mut r: Vec<String> = Vec::new();
    let mut i: usize = 0;
    while i < candidates.len()
        invariant
            i <= candidates.len(),
            cv == str_views(candidates@),
            keep.len() == i,
            str_views(r@) == kept(cv.take(i as int), keep),
        decreases candidates.len() - i,
    {
        assert(cv.take(i + 1).drop_last() =~= cv.take(i as int));
        assert(cv.take(i + 1).last() == candidates@[i as int]@);
        let present = path_exists(candidates[i].as_str());
        proof {
            lemma_kept_extend(cv.take(i as int), keep, present);
            keep = keep.push(present);
        }
        if present {
            let ghost before = r@;
            r.push(owned(candidates[i].as_str()));
            assert(str_views(r@) =~= str_views(before).push(cv[i as int]));
        }
        i = i + 1;
    }
    assert(cv.take(candidates.len() as int) =~= cv);
    r
}

/// Marks beyond the items do not change which are kept.
proof fn lemma_kept_extend<T>(s: Seq<T>, keep: Seq<bool>, b: bool)
    requires
        keep.len() >= s.len(),
    ensures
        kept(s, keep.push(b)) == kept(s, keep),
    decreases s.len(),
{
    if s.len() > 0 {
        lemma_kept_extend(s.drop_last(), keep, b);
        assert(keep.push(b)[s.len() - 1] == keep[s.len() - 1]);
    }
}

/// The name of an ephemeral sandbox made at the moment written `stamp`.
pub open spec fn ephemeral_name(stamp: Seq<char>) -> Seq<char> {
    "ephemeral_"@ + stamp
}

/// The name of an ephemeral sandbox made at the moment written `stamp`.
pub fn ephemeral_name_of(stamp: &str) -> (r: String)
    ensures
        r@ == ephemeral_name(stamp@),
{
    let mut m = chars_of("ephemeral_");
    push_str(&mut m, stamp);
    string_of(&m)
}

/// Milliseconds written with three digits.
pub open spec fn three_digits(ms: nat) -> Seq<char> {
    let d = decimal(ms);
    if d.len() >= 3 {
        d
    } else if d.len() == 2 {
        seq!['0'] + d
    } else {
        seq!['0', '0'] + d
    }
}

/// The name with milliseconds, for when the name of the second is taken:
/// `<name>.<milliseconds, three digits>`.
pub fn with_millis(name: &str, ms: u32) -> (r: String)
    ensures
        r@ == name@ + "."@ + three_digits(ms as nat),
{
    let d = decimal_of(ms as u64);
    let dv = chars_of(d.as_str());
    let mut m = chars_of(name);
    push_str(&mut m, ".");
    if dv.len() == 1 {
        push_str(&mut m, "00");
    } else if dv.len() == 2 {
        push_str(&mut m, "0");
    }
    push_str(&mut m, d.as_str());
    proof {
        reveal_strlit("00");
        reveal_strlit("0");
    }
    let r = string_of(&m);
    assert(r@ =~= name@ + "."@ + three_digits(ms as nat)) by {
        lemma_decimal_nonempty(ms as nat);
    }
    r
}

proof fn lemma_decimal_nonempty(n: nat)
    ensures
        decimal(n).len() >= 1,
    decreases n,
{
    if n >= 10 {
        lemma_decimal_nonempty(n / 10);
    }
}

/// Whether `i` is the newest of the sandboxes, the first of them where several are
/// equally new.
pub open spec fn is_newest(times: Seq<u128>, i: int) -> bool {
    &&& 0 <= i < times.len()
    &&& forall|j: int| 0 <= j < times.len() ==> #[trigger] times[j] <= times[i]
    &&& forall|j: int| 0 <= j < i ==> #[trigger] times[j] < times[i]
}

/// The creation times of the sandboxes found.
pub open spec fn times_of(found: Seq<(String, u128)>) -> Seq<u128> {
    found.map_values(|s: (String, u128)| s.1)
}

/// The newest of the sandboxes found, by creation time; an error where there are none.
pub fn newest_sandbox(found: &Vec<(String, u128)>) -> (r: Result<String, String>)
    ensures
        found.len() == 0 <==> r is Err,
        r matches Err(e) ==> e@ == "No sandboxes found"@,
        r matches Ok(n) ==> exists|i: int| #[trigger] is_newest(times_of(found@), i) && n@ == found@[i].0@,
{
    if found.len() == 0 {
        return Err(owned("No sandboxes found"));
    }
    let ghost times = times_of(found@);
    let mut best: usize = 0;
    let mut i: usize = 1;
    while i < found.len()
        invariant
            1 <= i <= found.len(),
            best < i,
            times == times_of(found@),
            forall|j: int| 0 <= j < i ==> #[trigger] times[j] <= times[best as int],
            forall|j: int| 0 <= j < best ==> #[trigger] times[j] < times[best as int],
        decreases found.len() - i,
    {
        if found[i].1 > found[best].1 {
            best = i;
        }
        i = i + 1;
    }
    assert(is_newest(times, best as int));
    Ok(owned(found[best].0.as_str()))
}


/// The directories searched for project configuration files, from `cwd` up to `home`
/// (or the root where `cwd` is not below `home`); `k` counts the components of the
/// directory reached.
pub open spec fn project_dirs(cwd: Seq<char>, home: Seq<char>, k: nat) -> Seq<Seq<char>>
    decreases k,
{
    let dir = if k >= components(cwd).len() {
        cwd
    } else {
        prefix_path(cwd, k as int)
    };
    if components(dir) == components(home) || k <= kept_components(cwd) {
        seq![dir]
    } else {
        seq![dir] + project_dirs(cwd, home, (k - 1) as nat)
    }
}

/// The configuration files of each directory: `.sandbox.conf`, then `.sandbox.toml`.
pub open spec fn project_files(dirs: Seq<Seq<char>>) -> Seq<Seq<char>>
    decreases dirs.len(),
{
    if dirs.len() == 0 {
        seq![]
    } else {
        seq![join(dirs[0], ".sandbox.conf"@), join(dirs[0], ".sandbox.toml"@)] + project_files(dirs.skip(1))
    }
}

/// The configuration files looked for, in the order they are read (each read one
/// overrides those before it): `/etc/sandbox.{toml,conf}`, the user's
/// `~/.config/sandbox/config.{toml,conf}`, then `.sandbox.{toml,conf}` from the highest
/// directory down to `cwd`.
pub open spec fn config_file_candidates(cwd: Seq<char>, home: Seq<char>) -> Seq<Seq<char>> {
    (project_files(project_dirs(cwd, home, components(cwd).len())) + seq![
        join(home, ".config/sandbox/config.conf"@),
        join(home, ".config/sandbox/config.toml"@),
        "/etc/sandbox.conf"@,
        "/etc/sandbox.toml"@,
    ]).reverse()
}

/// The configuration files looked for, in the order they are read.
pub fn config_file_candidates_of(cwd: &str, home: &str) -> (r: Vec<String>)
    ensures
        str_views(r@) == config_file_candidates(cwd@, home@),
{
    let c = chars_of(cwd);
    let cs = components_of(&c);
    let ghost cv = views(cs@);
    let min: usize = if cs.len() > 0 && cs[0].len() == 1 && cs[0][0] == '/' {
        1
    } else {
        0
    };
    proof {
        if cs.len() > 0 {
            assert(cv[0] == cs@[0]@);
            if cs@[0]@.len() == 1 && cs@[0]@[0] == '/' {
                assert(cs@[0]@ =~= crate::paths::root_component());
            }
            if cs@[0]@ == crate::paths::root_component() {
                assert(cs@[0]@.len() == 1 && cs@[0]@[0] == '/');
            }
        }
    }
    let mut found: Vec<String> = Vec::new();
    let mut k: usize = cs.len();
    let mut dir: String = string_of(&c);
    let ghost n = cs.len() as nat;
    assert(Seq::<Seq<char>>::empty() + project_files(project_dirs(cwd@, home@, n)) =~= project_files(
        project_dirs(cwd@, home@, n),
    ));
    loop
        invariant_except_break
            k <= cs.len(),
            n == cs.len(),
            cv == views(cs@),
            cv == components(cwd@),
            min == kept_components(cwd@),
            dir@ == (if k >= cs.len() { cwd@ } else { prefix_path(cwd@, k as int) }),
            str_views(found@) + project_files(project_dirs(cwd@, home@, k as nat)) == project_files(
                project_dirs(cwd@, home@, n),
            ),
        ensures
            str_views(found@) == project_files(project_dirs(cwd@, home@, n)),
        decreases k,
    {
        let conf = path_join(dir.as_str(), ".sandbox.conf");
        let toml = path_join(dir.as_str(), ".sandbox.toml");
        let ghost before = str_views(found@);
        found.push(conf);
        found.push(toml);
        let stop = same_path(dir.as_str(), home) || k <= min;
        proof {
            let dirs = project_dirs(cwd@, home@, k as nat);
            assert(dirs[0] == dir@);
            assert(project_files(dirs) == seq![conf@, toml@] + project_files(dirs.skip(1)));
            assert(str_views(found@) =~= before + seq![conf@, toml@]);
            if stop {
                assert(dirs =~= seq![dir@]);
                assert(dirs.skip(1) =~= Seq::<Seq<char>>::empty());
                assert(str_views(found@) =~= before + project_files(dirs));
            } else {
                assert(dirs.skip(1) =~= project_dirs(cwd@, home@, (k - 1) as nat));
                assert(str_views(found@) + project_files(project_dirs(cwd@, home@, (k - 1) as nat)) =~= before
                    + project_files(dirs));
            }
        }
        if stop {
            break;
        }
        k = k - 1;
        let v = prefix_path_of(&cs, k);
        dir = string_of(&v);
    }
    let ghost head = str_views(found@);
    found.push(path_join(home, ".config/sandbox/config.conf"));
    found.push(path_join(home, ".config/sandbox/config.toml"));
    found.push(owned("/etc/sandbox.conf"));
    found.push(owned("/etc/sandbox.toml"));
    let ghost all = str_views(found@);
    let mut r: Vec<String> = Vec::new();
    let mut i: usize = found.len();
    while i > 0
        invariant
            i <= found.len(),
            all == str_views(found@),
            str_views(r@) == all.skip(i as int).reverse(),
        decreases i,
    {
        i = i - 1;
        let ghost before = r@;
        r.push(owned(found[i].as_str()));
        assert(str_views(r@) =~= all.skip(i as int).reverse()) by {
            assert(str_views(r@) =~= str_views(before).push(all[i as int]));
        }
    }
    assert(all.skip(0) =~= all);
    r
}

} // verus!
