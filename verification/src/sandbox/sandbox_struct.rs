//! A sandbox: where its layers are kept, its first process, and the user it runs as.
use vstd::prelude::*;
use crate::encoding::{base32_encode, base32_nopad};
use crate::paths::{join, path_join};
use crate::text::{chars_of, string_of, push_str};
use crate::config::structs::Network;

verus! {

/// A sandbox kept under a storage directory.
#[derive(Debug, Clone)]
pub struct Sandbox {
    pub name: String,
    pub base: String,
    pub work_base: String,
    pub upper_base: String,
    pub overlay_base: String,
    /// Where the sandbox's own data and nested sandboxes are kept.
    pub data_storage_dir: String,
    /// The overlay of the root file system, which becomes the sandbox's `/`.
    pub root_overlay: String,
    /// The sandbox's first process, `-1` while it is not running.
    pub pid: i32,
    pub uid: u32,
    pub gid: u32,
}

/// The layout of sandbox `name` under `storage_dir`, not yet running.
pub open spec fn sandbox_at(storage_dir: Seq<char>, name: Seq<char>, uid: u32, gid: u32, s: Sandbox) -> bool {
    let base = join(storage_dir, name);
    &&& s.name@ == name
    &&& s.base@ == base
    &&& s.work_base@ == join(base, "work"@)
    &&& s.upper_base@ == join(base, "upper"@)
    &&& s.overlay_base@ == join(base, "overlay"@)
    &&& s.data_storage_dir@ == join(base, "data"@)
    &&& s.root_overlay@ == join(join(base, "overlay"@), base32_nopad("/"@))
    &&& s.pid == -1
    &&& s.uid == uid
    &&& s.gid == gid
}

impl Sandbox {
    /// The sandbox `name` kept under `storage_dir`, with its layers in
    /// `<storage_dir>/<name>/{work,upper,overlay}`; the root's overlay is named by the
    /// base32 form of `/`.
    pub fn from_location(storage_dir: &str, name: &str, uid: u32, gid: u32) -> (r: Sandbox)
        ensures
            sandbox_at(storage_dir@, name@, uid, gid, r),
    {
        let root_suffix = base32_encode("/");
        let base = path_join(storage_dir, name);
        let work_base = path_join(base.as_str(), "work");
        let upper_base = path_join(base.as_str(), "upper");
        let overlay_base = path_join(base.as_str(), "overlay");
        let data_storage_dir = path_join(base.as_str(), "data");
        let root_overlay = path_join(overlay_base.as_str(), root_suffix.as_str());
        let n = chars_of(name);
        Sandbox {
            name: string_of(&n),
            base,
            work_base,
            upper_base,
            overlay_base,
            data_storage_dir,
            root_overlay,
            pid: -1,
            uid,
            gid,
        }
    }

    /// The files whose presence shows that the sandbox exists: its directory, and its
    /// pid and lock files beside it.
    pub fn marker_paths(&self) -> (r: (String, String, String))
        ensures
            r.0@ == self.base@,
            r.1@ == self.base@ + ".pid"@,
            r.2@ == self.base@ + ".lock"@,
    {
        let b = chars_of(self.base.as_str());
        let mut pid = chars_of(self.base.as_str());
        push_str(&mut pid, ".pid");
        let mut lock = chars_of(self.base.as_str());
        push_str(&mut lock, ".lock");
        (string_of(&b), string_of(&pid), string_of(&lock))
    }

    /// Whether the sandbox exists: any of its marker paths is there.
    pub fn exists_on_disk(&self) -> (r: bool) {
        let (base, pid, lock) = self.marker_paths();
        path_exists(base.as_str()) || path_exists(pid.as_str()) || path_exists(lock.as_str())
    }
}

/// Calls `std::path::Path::exists`: whether the file system has something at `path`,
/// following symbolic links. It depends on the disk, so nothing is stated of it.
#[verifier::external_body]
pub(crate) fn path_exists(path: &str) -> (r: bool) {
    std::path::Path::new(path).exists()
}

/// Set if a new mount namespace is made.
pub const CLONE_NEWNS: u64 = 0x0002_0000;
/// Set if a new cgroup namespace is made.
pub const CLONE_NEWCGROUP: u64 = 0x0200_0000;
/// Set if a new UTS (host name) namespace is made.
pub const CLONE_NEWUTS: u64 = 0x0400_0000;
/// Set if a new IPC namespace is made.
pub const CLONE_NEWIPC: u64 = 0x0800_0000;
/// Set if a new pid namespace is made.
pub const CLONE_NEWPID: u64 = 0x2000_0000;
/// Set if a new network namespace is made.
pub const CLONE_NEWNET: u64 = 0x4000_0000;

/// The arguments of the `clone3` system call, laid out as the kernel reads them.
#[derive(Debug, Default, Copy, Clone)]
pub struct Clone3Args {
    /// Flags bit mask (the `CLONE_*` constants).
    pub flags: u64,
    /// Where to store the pid file descriptor.
    pub pidfd: u64,
    /// Where to store the child's thread id, in the child's memory.
    pub child_tid: u64,
    /// Where to store the child's thread id, in the parent's memory.
    pub parent_tid: u64,
    /// Signal delivered to the parent when the child ends.
    pub exit_signal: u64,
    /// Lowest byte of the child's stack.
    pub stack: u64,
    /// Size of the child's stack.
    pub stack_size: u64,
    /// Location of the new thread-local storage.
    pub tls: u64,
    /// Pointer to an array of pids (since Linux 5.5).
    pub set_tid: u64,
    /// Number of elements in `set_tid`.
    pub set_tid_size: u64,
    /// File descriptor of the child's cgroup (since Linux 5.7).
    pub cgroup: u64,
}

/// The namespaces that a sandbox's first process gets: mount, pid, IPC, UTS and cgroup
/// always, and network unless the sandbox shares the host's network.
pub open spec fn sandbox_clone_flags(net: Network) -> u64 {
    let net_flag: u64 = match net {
        Network::Host => 0u64,
        Network::NoNetwork => CLONE_NEWNET,
    };
    CLONE_NEWNS | net_flag | CLONE_NEWPID | CLONE_NEWIPC | CLONE_NEWUTS | CLONE_NEWCGROUP
}

/// The `clone3` arguments that start a sandbox's first process: the namespace flags and
/// every other field zero.
pub fn sandbox_clone_args(net: &Network) -> (r: Clone3Args)
    ensures
        r.flags == sandbox_clone_flags(*net),
        r.pidfd == 0 && r.child_tid == 0 && r.parent_tid == 0 && r.exit_signal == 0,
        r.stack == 0 && r.stack_size == 0 && r.tls == 0,
        r.set_tid == 0 && r.set_tid_size == 0 && r.cgroup == 0,
{
    let net_flag: u64 = match net {
        Network::Host => 0u64,
        Network::NoNetwork => CLONE_NEWNET,
    };
    Clone3Args {
        flags: CLONE_NEWNS | net_flag | CLONE_NEWPID | CLONE_NEWIPC | CLONE_NEWUTS
            | CLONE_NEWCGROUP,
        pidfd: 0,
        child_tid: 0,
        parent_tid: 0,
        exit_signal: 0,
        stack: 0,
        stack_size: 0,
        tls: 0,
        set_tid: 0,
        set_tid_size: 0,
        cgroup: 0,
    }
}

} // verus!
