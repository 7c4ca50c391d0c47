//! What a sandbox's first process sets up inside its namespaces: where bind mounts are
//! staged and relocated, which overlays are bound where, and which host paths are
//! masked or made read-only.
use vstd::prelude::*;
use crate::text::{chars_of, string_of, owned, push_str, str_eq, str_views};
use crate::paths::{components, components_of, join, path_join, strip_prefix, strip_prefix_of};
use crate::numbers::{decimal, decimal_of};
use crate::config::resolve::{bind_source, bind_target, bind_options_word};

verus! {

/// The size of each tmpfs a sandbox mounts: 64 MiB.
pub const TMPFS_SIZE: u64 = 67108864;

/// The options of the tmpfs mounted on `/dev` and `/run`.
pub open spec fn tmpfs_options() -> Seq<char> {
    "mode=0755,size=67108864"@
}

/// The options of the tmpfs mounted on `/dev` and `/run`.
pub fn tmpfs_options_of() -> (r: String)
    ensures
        r@ == tmpfs_options(),
{
    owned("mode=0755,size=67108864")
}

/// The options of a tmpfs that only limits its size (`/dev/shm`, masked directories).
pub open spec fn sized_options() -> Seq<char> {
    "size=67108864"@
}

/// The options of a tmpfs that only limits its size.
pub fn sized_options_of() -> (r: String)
    ensures
        r@ == sized_options(),
{
    owned("size=67108864")
}

/// A bind mount as the sandbox's first process reads it: source and target before `~`
/// is expanded, whether it is read-only, and whether it masks its target.
#[derive(Debug, Clone)]
pub struct BindRequest {
    pub source: String,
    pub target: String,
    pub readonly: bool,
    pub mask: bool,
}

/// Whether an option word makes a bind mount read-only.
pub open spec fn readonly_word(w: Seq<char>) -> bool {
    w == "ro"@ || w == "readonly"@
}

/// The request that a bind mount argument `source[:target[:options]]` makes.
pub fn bind_request(argument: &str) -> (r: BindRequest)
    ensures
        r.source@ == bind_source(argument@),
        r.target@ == bind_target(argument@),
        r.readonly == readonly_word(bind_options_word(argument@)),
        r.mask == (bind_options_word(argument@) == "mask"@),
{
    let (source, target, word) = crate::config::resolve::bind_parts(argument);
    let readonly = str_eq(word.as_str(), "ro") || str_eq(word.as_str(), "readonly");
    let mask = str_eq(word.as_str(), "mask");
    BindRequest { source, target, readonly, mask }
}

/// Whether a bind mount ends up read-only: as asked, and always for `/run/systemd`.
pub open spec fn stays_readonly(readonly: bool, source: Seq<char>) -> bool {
    readonly || components(source) == components("/run/systemd"@)
}

/// Whether a bind mount ends up read-only.
pub fn effective_readonly(readonly: bool, source: &str) -> (r: bool)
    ensures
        r == stays_readonly(readonly, source@),
{
    if readonly {
        return true;
    }
    let a = components_of(&chars_of(source));
    let b = components_of(&chars_of("/run/systemd"));
    crate::paths::same_components(&a, &b)
}

/// The name under which the `idx`-th bind mount is staged: `mount-<idx>`.
pub open spec fn staging_name(idx: nat) -> Seq<char> {
    "mount-"@ + decimal(idx)
}

/// The name under which the `idx`-th bind mount is staged.
pub fn staging_name_of(idx: u64) -> (r: String)
    ensures
        r@ == staging_name(idx as nat),
{
    let mut m = chars_of("mount-");
    push_str(&mut m, decimal_of(idx).as_str());
    string_of(&m)
}

/// Where a staged bind mount is moved once the new root is in place: its target taken
/// from `/`.
pub open spec fn relocation_target(target: Seq<char>) -> Seq<char> {
    match strip_prefix(target, "/"@) {
        Some(rest) => join("/"@, rest),
        None => join("/"@, target),
    }
}

/// Where a staged bind mount is moved once the new root is in place.
pub fn relocation_target_of(target: &str) -> (r: String)
    ensures
        r@ == relocation_target(target@),
{
    let t = chars_of(target);
    let root = chars_of("/");
    match strip_prefix_of(&t, &root) {
        Some(rest) => path_join("/", string_of(&rest).as_str()),
        None => path_join("/", target),
    }
}

/// The overlay of mount `dir`, named `hash`, as seen from the old root once the new root
/// is in place: `<old_root>/<overlay_base without its leading />/<hash>`. `None` for the
/// root's own overlay, which is already in place; an error where `overlay_base` is not
/// absolute.
pub open spec fn overlay_bind_source(old_root: Seq<char>, overlay_base: Seq<char>, dir: Seq<char>, hash: Seq<char>) -> Result<Option<Seq<char>>, ()> {
    if dir == "/"@ {
        Ok(None)
    } else {
        match strip_prefix(overlay_base, "/"@) {
            Some(base) => Ok(Some(join(join(old_root, base), hash))),
            None => Err(()),
        }
    }
}

/// The overlay of mount `dir` as seen from the old root.
pub fn overlay_bind_source_of(old_root: &str, overlay_base: &str, dir: &str, hash: &str) -> (r: Result<Option<String>, String>)
    ensures
        match (r, overlay_bind_source(old_root@, overlay_base@, dir@, hash@)) {
            (Ok(None), Ok(None)) => true,
            (Ok(Some(a)), Ok(Some(b))) => a@ == b,
            (Err(_), Err(_)) => true,
            _ => false,
        },
{
    if str_eq(dir, "/") {
        return Ok(None);
    }
    let b = chars_of(overlay_base);
    let root = chars_of("/");
    match strip_prefix_of(&b, &root) {
        Some(base) => {
            let first = path_join(old_root, string_of(&base).as_str());
            Ok(Some(path_join(first.as_str(), hash)))
        },
        None => Err(owned("prefix not found")),
    }
}

/// The host paths hidden from the sandbox, as the defaults of container runtimes hide
/// them.
pub open spec fn masked_paths() -> Seq<Seq<char>> {
    seq![
        "/proc/asound"@, "/proc/acpi"@, "/proc/interrupts"@, "/proc/kcore"@, "/proc/keys"@,
        "/proc/latency_stats"@, "/proc/timer_list"@, "/proc/timer_stats"@, "/proc/sched_debug"@,
        "/proc/scsi"@, "/sys/firmware"@, "/sys/devices/virtual/powercap"@,
    ]
}

/// The host paths hidden from the sandbox.
pub fn masked_paths_of() -> (r: Vec<String>)
    ensures
        str_views(r@) == masked_paths(),
{
    let mut r: Vec<String> = Vec::new();
    r.push(owned("/proc/asound"));
    r.push(owned("/proc/acpi"));
    r.push(owned("/proc/interrupts"));
    r.push(owned("/proc/kcore"));
    r.push(owned("/proc/keys"));
    r.push(owned("/proc/latency_stats"));
    r.push(owned("/proc/timer_list"));
    r.push(owned("/proc/timer_stats"));
    r.push(owned("/proc/sched_debug"));
    r.push(owned("/proc/scsi"));
    r.push(owned("/sys/firmware"));
    r.push(owned("/sys/devices/virtual/powercap"));
    assert(str_views(r@) =~= masked_paths());
    r
}

/// The host paths the sandbox sees read-only.
pub open spec fn readonly_paths() -> Seq<Seq<char>> {
    seq!["/proc/bus"@, "/proc/fs"@, "/proc/irq"@, "/proc/sys"@, "/proc/sysrq-trigger"@]
}

/// The host paths the sandbox sees read-only.
pub fn readonly_paths_of() -> (r: Vec<String>)
    ensures
        str_views(r@) == readonly_paths(),
{
    let mut r: Vec<String> = Vec::new();
    r.push(owned("/proc/bus"));
    r.push(owned("/proc/fs"));
    r.push(owned("/proc/irq"));
    r.push(owned("/proc/sys"));
    r.push(owned("/proc/sysrq-trigger"));
    assert(str_views(r@) =~= readonly_paths());
    r
}

/// The thermal throttling file of a processor's directory, also hidden from the sandbox.
pub fn thermal_throttle_path(cpu_dir: &str) -> (r: String)
    ensures
        r@ == join(cpu_dir@, "thermal_throttle"@),
{
    path_join(cpu_dir, "thermal_throttle")
}

/// How a hidden path is masked.
#[derive(Debug, Clone, Copy, PartialEq, Eq, Structural)]
pub enum MaskKind {
    /// It is missing or neither a file nor a directory: left alone.
    Skip,
    /// A directory: covered by an empty read-only tmpfs.
    EmptyDirectory,
    /// A file: covered by `/dev/null`.
    NullFile,
}

/// How a hidden path is masked, from what the disk says of it.
pub open spec fn mask_kind_of(present: bool, is_dir: bool, is_file: bool) -> MaskKind {
    if !present || !(is_dir || is_file) {
        MaskKind::Skip
    } else if is_dir {
        MaskKind::EmptyDirectory
    } else {
        MaskKind::NullFile
    }
}

/// How a hidden path is masked.
pub fn mask_kind(present: bool, is_dir: bool, is_file: bool) -> (r: MaskKind)
    ensures
        r == mask_kind_of(present, is_dir, is_file),
{
    if !present || !(is_dir || is_file) {
        MaskKind::Skip
    } else if is_dir {
        MaskKind::EmptyDirectory
    } else {
        MaskKind::NullFile
    }
}

/// The device nodes made in the sandbox's `/dev`, with their major and minor numbers.
pub open spec fn device_nodes() -> Seq<(Seq<char>, u64, u64)> {
    seq![
        ("/dev/null"@, 1u64, 3u64),
        ("/dev/zero"@, 1u64, 5u64),
        ("/dev/full"@, 1u64, 7u64),
        ("/dev/random"@, 1u64, 8u64),
        ("/dev/urandom"@, 1u64, 9u64),
        ("/dev/tty"@, 5u64, 0u64),
    ]
}

/// The device nodes made in the sandbox's `/dev`.
pub fn device_nodes_of() -> (r: Vec<(String, u64, u64)>)
    ensures
        r@.map_values(|d: (String, u64, u64)| (d.0@, d.1, d.2)) == device_nodes(),
{
    let mut r: Vec<(String, u64, u64)> = Vec::new();
    r.push((owned("/dev/null"), 1, 3));
    r.push((owned("/dev/zero"), 1, 5));
    r.push((owned("/dev/full"), 1, 7));
    r.push((owned("/dev/random"), 1, 8));
    r.push((owned("/dev/urandom"), 1, 9));
    r.push((owned("/dev/tty"), 5, 0));
    assert(r@.map_values(|d: (String, u64, u64)| (d.0@, d.1, d.2)) =~= device_nodes());
    r
}

/// The symbolic links made in the sandbox's `/dev`: target, then link.
pub open spec fn device_links() -> Seq<(Seq<char>, Seq<char>)> {
    seq![
        ("/proc/kcore"@, "/dev/core"@),
        ("/proc/self/fd/0"@, "/dev/stdin"@),
        ("/proc/self/fd/1"@, "/dev/stdout"@),
        ("/proc/self/fd/2"@, "/dev/stderr"@),
        ("/proc/self/fd"@, "/dev/fd"@),
        ("/dev/pts/ptmx"@, "/dev/ptmx"@),
    ]
}

/// The symbolic links made in the sandbox's `/dev`.
pub fn device_links_of() -> (r: Vec<(String, String)>)
    ensures
        r@.map_values(|d: (String, String)| (d.0@, d.1@)) == device_links(),
{
    let mut r: Vec<(String, String)> = Vec::new();
    r.push((owned("/proc/kcore"), owned("/dev/core")));
    r.push((owned("/proc/self/fd/0"), owned("/dev/stdin")));
    r.push((owned("/proc/self/fd/1"), owned("/dev/stdout")));
    r.push((owned("/proc/self/fd/2"), owned("/dev/stderr")));
    r.push((owned("/proc/self/fd"), owned("/dev/fd")));
    r.push((owned("/dev/pts/ptmx"), owned("/dev/ptmx")));
    assert(r@.map_values(|d: (String, String)| (d.0@, d.1@)) =~= device_links());
    r
}

/// Where the old root goes during the pivot, named by `id`: inside the new root as
/// `/old-root-<id>`, and the same place seen from the host below `root_overlay`.
pub fn old_root_paths(root_overlay: &str, id: &str) -> (r: (String, String))
    ensures
        r.0@ == "/old-root-"@ + id@,
        r.1@ == root_overlay@ + "/old-root-"@ + id@,
{
    let mut local = chars_of("/old-root-");
    push_str(&mut local, id);
    let mut host = chars_of(root_overlay);
    push_str(&mut host, "/old-root-");
    push_str(&mut host, id);
    (string_of(&local), string_of(&host))
}

/// Where bind mounts are staged, named by `id`: `/run/bind-mounts-staging-<id>` inside
/// the sandbox, and the same place seen from the host below the new root's `/run`.
pub fn bind_staging_dirs(new_root_run: &str, id: &str) -> (r: (String, String))
    ensures
        r.0@ == "/run/bind-mounts-staging-"@ + id@,
        r.1@ == join(new_root_run@, "bind-mounts-staging-"@ + id@),
{
    let mut local = chars_of("/run/bind-mounts-staging-");
    push_str(&mut local, id);
    let mut name = chars_of("bind-mounts-staging-");
    push_str(&mut name, id);
    (string_of(&local), path_join(new_root_run, string_of(&name).as_str()))
}

} // verus!
