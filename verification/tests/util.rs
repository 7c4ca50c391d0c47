use sandbox::config::structs::Network;
use sandbox::numbers::{decimal_of, i32_text, parse_i32};
use sandbox::sandbox::exec::{environment_entry_of, exec_failure_message, exec_namespace_flags, on_wait, WaitAction, WaitEvent};
use sandbox::sandbox::sandbox_struct::{sandbox_clone_args, Sandbox, CLONE_NEWNET, CLONE_NEWNS, CLONE_NEWPID};
use sandbox::sandbox::setup::{
    bind_request, bind_staging_dirs, device_links_of, device_nodes_of, effective_readonly, mask_kind,
    masked_paths_of, old_root_paths, overlay_bind_source_of, readonly_paths_of, relocation_target_of,
    sized_options_of, staging_name_of, thermal_throttle_path, tmpfs_options_of, MaskKind,
};
use sandbox::util::{
    check_existing_dir, check_path_for_mount_option_compatibility, expand_tilde_path, find_mount_point,
    get_sandbox_pid_path, mounts_under, pid_from_text, pid_namespace_link, proc_entry, proc_stat_path,
    process_state_ok, set_should_print_output, Output,
};

fn home() -> String {
    "/home/test".to_string()
}

#[test]
fn test_expand_tilde_path() {
    let h = home();
    assert_eq!(expand_tilde_path("~", &h), h);
    assert_eq!(expand_tilde_path("~/test", &h), format!("{}/test", h.trim_end_matches('/')));
    assert_eq!(expand_tilde_path("~/test/test2", &h), format!("{}/test/test2", h.trim_end_matches('/')));
}

#[test]
fn test_expand_tilde_path_error() {
    let h = home();
    assert_eq!(expand_tilde_path("/test", &h), "/test");
    assert_eq!(expand_tilde_path("~test", &h), "~test");
}

#[test]
fn test_check_path_for_mount_option_compatibility() {
    assert!(check_path_for_mount_option_compatibility("/tmp/test").is_ok());
}

#[test]
fn test_check_path_for_mount_option_no_spaces() {
    assert!(check_path_for_mount_option_compatibility("/tmp/test test").is_err());
}

#[test]
fn test_check_path_for_mount_option_compatibility_empty() {
    assert!(check_path_for_mount_option_compatibility("").is_err());
}

#[test]
fn test_check_path_for_mount_option_compatibility_invalid_character() {
    assert!(check_path_for_mount_option_compatibility("/tmp/test\x00").is_err());
}

#[test]
fn mount_option_errors_name_the_component() {
    assert_eq!(check_path_for_mount_option_compatibility("").unwrap_err(), "Storage path  is empty");
    assert_eq!(
        check_path_for_mount_option_compatibility("/tmp/a,b/c").unwrap_err(),
        "Storage path /tmp/a,b/c contains invalid character a,b"
    );
    assert!(check_path_for_mount_option_compatibility("/home/u-1/.sand_boxes@x%").is_ok());
}

#[test]
fn pid_files_live_beside_sandboxes() {
    assert_eq!(get_sandbox_pid_path("/s", "box"), "/s/box.pid");
    assert_eq!(get_sandbox_pid_path("/s/", "box"), "/s/box.pid");
}

#[test]
fn output_can_be_silenced() {
    let mut out = Output::new();
    assert_eq!(out.line_to_print("hi"), Some("hi".to_string()));
    set_should_print_output(&mut out, false);
    assert_eq!(out.line_to_print("hi"), None);
}

#[test]
fn root_is_its_own_mount_point() {
    assert_eq!(find_mount_point("/").unwrap(), "/");
    let m = find_mount_point("/surely/not/here/at/all").unwrap();
    assert!(m == "/" || "/surely/not/here/at/all".starts_with(&m));
}

#[test]
fn numbers_are_written_and_read() {
    assert_eq!(decimal_of(0), "0");
    assert_eq!(decimal_of(1234), "1234");
    assert_eq!(i32_text(-42), "-42");
    assert_eq!(i32_text(i32::MIN), "-2147483648");
    assert_eq!(parse_i32("123"), Some(123));
    assert_eq!(parse_i32("+7"), Some(7));
    assert_eq!(parse_i32("-2147483648"), Some(i32::MIN));
    assert_eq!(parse_i32("2147483648"), None);
    assert_eq!(parse_i32("12a"), None);
    assert_eq!(parse_i32(""), None);
    assert_eq!(parse_i32("-"), None);
    assert_eq!(parse_i32("1234\n"), None);
    for n in [0, 1, -1, 99, i32::MAX, i32::MIN] {
        assert_eq!(parse_i32(&i32_text(n)), Some(n));
    }
    assert_eq!(pid_from_text("4321"), Some(4321));
}

#[test]
fn process_states_are_read() {
    assert!(process_state_ok("12 (sleep) S 1 12 12"));
    assert!(!process_state_ok("12 (sleep) Z 1 12 12"));
    assert!(!process_state_ok("12 (sleep) T 1"));
    assert!(!process_state_ok("12 (sleep)"));
    assert_eq!(proc_stat_path(12), "/proc/12/stat");
    assert_eq!(pid_namespace_link(7), "/proc/7/ns/pid_for_children");
    assert_eq!(proc_entry("123").unwrap(), Some((123, "/proc/123/ns/pid".to_string())));
    assert_eq!(proc_entry("self").unwrap(), None);
    assert!(proc_entry("99999999999").is_err());
}

#[test]
fn mount_tables_are_filtered() {
    let dirs = vec![
        "/s/box".to_string(),
        "/s/box/overlay/F4".to_string(),
        "/s/boxes".to_string(),
        "/s/box/overlay/F5UG63LF".to_string(),
    ];
    assert_eq!(
        mounts_under(dirs, "/s/box"),
        vec!["/s/box/overlay/F5UG63LF".to_string(), "/s/box/overlay/F4".to_string(), "/s/box".to_string()]
    );
}

#[test]
fn existing_directories_are_checked() {
    assert_eq!(check_existing_dir("/d", 0o040755, 1, 2, 1, 2), None);
    assert_eq!(
        check_existing_dir("/d", 0o100644, 1, 2, 1, 2),
        Some("Directory /d already exists but is not a directory".to_string())
    );
    assert_eq!(
        check_existing_dir("/d", 0o040755, 3, 2, 1, 2),
        Some("Directory /d already exists with different owner or group".to_string())
    );
}

#[test]
fn sandboxes_are_laid_out_under_storage() {
    let s = Sandbox::from_location("/s", "box", 1000, 100);
    assert_eq!(s.base, "/s/box");
    assert_eq!(s.work_base, "/s/box/work");
    assert_eq!(s.upper_base, "/s/box/upper");
    assert_eq!(s.overlay_base, "/s/box/overlay");
    assert_eq!(s.data_storage_dir, "/s/box/data");
    assert_eq!(s.root_overlay, "/s/box/overlay/F4");
    assert_eq!(s.pid, -1);
    assert_eq!(s.marker_paths().1, "/s/box.pid");
    assert!(!Sandbox::from_location("/surely/not/here", "box", 0, 0).exists_on_disk());
}

#[test]
fn sandbox_namespaces() {
    let own = sandbox_clone_args(&Network::NoNetwork);
    assert!(own.flags & CLONE_NEWNET != 0);
    assert!(own.flags & CLONE_NEWNS != 0);
    let host = sandbox_clone_args(&Network::Host);
    assert_eq!(host.flags & CLONE_NEWNET, 0);
    assert!(host.flags & CLONE_NEWPID != 0);
    assert_eq!(host.exit_signal, 0);
    assert_eq!(exec_namespace_flags() & CLONE_NEWNET, CLONE_NEWNET);
}

#[test]
fn commands_run_inside() {
    assert_eq!(environment_entry_of("SANDBOX", "box"), "SANDBOX=box");
    assert_eq!(on_wait(WaitEvent::Exited(3)), WaitAction::Exit(3));
    assert_eq!(on_wait(WaitEvent::Signaled(9)), WaitAction::RaiseSignal(9));
    assert_eq!(on_wait(WaitEvent::Other), WaitAction::KeepWaiting);
    assert_eq!(
        exec_failure_message(&vec!["ls".to_string(), "-l".to_string()], "/w", "ENOENT"),
        "Failed to execute command ls -l [cwd=/w]: ENOENT"
    );
}

#[test]
fn sandbox_setup_steps() {
    assert_eq!(tmpfs_options_of(), "mode=0755,size=67108864");
    assert_eq!(sized_options_of(), "size=67108864");
    let b = bind_request("/src:/dst:readonly");
    assert_eq!((b.source.as_str(), b.target.as_str(), b.readonly, b.mask), ("/src", "/dst", true, false));
    let b = bind_request("/x::mask");
    assert!(b.mask && !b.readonly);
    assert_eq!(b.target, "/x");
    assert!(effective_readonly(false, "/run/systemd/"));
    assert!(!effective_readonly(false, "/run/other"));
    assert_eq!(staging_name_of(3), "mount-3");
    assert_eq!(relocation_target_of("/a/b"), "/a/b");
    assert_eq!(relocation_target_of("a/b"), "/a/b");
    assert_eq!(overlay_bind_source_of("/old", "/s/box/overlay", "/home", "HASH").unwrap(), Some("/old/s/box/overlay/HASH".to_string()));
    assert_eq!(overlay_bind_source_of("/old", "/s/box/overlay", "/", "F4").unwrap(), None);
    assert!(overlay_bind_source_of("/old", "rel/overlay", "/home", "H").is_err());
    assert_eq!(masked_paths_of().len(), 12);
    assert_eq!(readonly_paths_of()[0], "/proc/bus");
    assert_eq!(thermal_throttle_path("/sys/devices/system/cpu/cpu0"), "/sys/devices/system/cpu/cpu0/thermal_throttle");
    assert_eq!(mask_kind(true, true, false), MaskKind::EmptyDirectory);
    assert_eq!(mask_kind(true, false, true), MaskKind::NullFile);
    assert_eq!(mask_kind(false, true, false), MaskKind::Skip);
    assert_eq!(device_nodes_of()[5], ("/dev/tty".to_string(), 5, 0));
    assert_eq!(device_links_of()[0], ("/proc/kcore".to_string(), "/dev/core".to_string()));
    assert_eq!(old_root_paths("/r", "id"), ("/old-root-id".to_string(), "/r/old-root-id".to_string()));
    assert_eq!(
        bind_staging_dirs("/r/run", "id"),
        ("/run/bind-mounts-staging-id".to_string(), "/r/run/bind-mounts-staging-id".to_string())
    );
}
