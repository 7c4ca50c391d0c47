use sandbox::config::storage::config_file_candidates_of;
use sandbox::config::structs::LogLevel;
use sandbox::logger::{level_label_of, log_line_of, LogState};
use sandbox::numbers::{i32_text, parse_i32, parse_u32};
use sandbox::config::sources::Sources;
use sandbox::config::structs::{BindMount, BindMountOptions, Config, Network};
use sandbox::sandbox::mount_overlays::{overlay_options_for, select_overlay_mounts, MountHash};
use sandbox::sandbox::settings::SandboxSettings;
use sandbox::util::{resolve_identity, IdentityEnv};

fn env(sudo_uid: Option<&str>, sudo_gid: Option<&str>, sudo_home: Option<&str>, home: Option<&str>) -> IdentityEnv {
    IdentityEnv {
        sudo_uid: sudo_uid.map(|s| s.to_string()),
        sudo_gid: sudo_gid.map(|s| s.to_string()),
        sudo_home: sudo_home.map(|s| s.to_string()),
        home: home.map(|s| s.to_string()),
    }
}

#[test]
fn test_logger_defers_until_level_known() {
    let mut state = LogState::new(LogLevel::Trace);
    assert_eq!(state.log(LogLevel::Debug, "debug line".to_string()), None);
    assert_eq!(state.log(LogLevel::Warn, "warn line".to_string()), None);
    assert_eq!(state.log(LogLevel::Error, "error line".to_string()), None);
    state.set_level(LogLevel::Warn);
    let shown = state.print_deferred();
    assert_eq!(shown, vec!["warn line".to_string(), "error line".to_string()]);
    assert!(state.deferred.is_empty());
    assert_eq!(state.log(LogLevel::Info, "info line".to_string()), None);
    assert_eq!(state.log(LogLevel::Error, "later error".to_string()), Some("later error".to_string()));
}

#[test]
fn test_logger_enabled_by_rank() {
    let state = LogState::new(LogLevel::Info);
    assert!(state.enabled(LogLevel::Error));
    assert!(state.enabled(LogLevel::Info));
    assert!(!state.enabled(LogLevel::Debug));
    let off = LogState::new(LogLevel::Off);
    assert!(!off.enabled(LogLevel::Error));
}

#[test]
fn test_log_line_layout() {
    assert_eq!(level_label_of(LogLevel::Warn), "WARN ");
    assert_eq!(level_label_of(LogLevel::Info), "INFO ");
    assert_eq!(level_label_of(LogLevel::Error), "ERROR");
    assert_eq!(log_line_of("DEBUG", "sandbox::util", "hello"), "[DEBUG] sandbox::util: hello");
}

#[test]
fn test_parse_u32_like_std() {
    assert_eq!(parse_u32("1000"), Some(1000));
    assert_eq!(parse_u32("+7"), Some(7));
    assert_eq!(parse_u32("4294967295"), Some(u32::MAX));
    assert_eq!(parse_u32("4294967296"), None);
    assert_eq!(parse_u32("-1"), None);
    assert_eq!(parse_u32(""), None);
    assert_eq!(parse_u32("12a"), None);
    for s in ["0", "42", "+3", "99999", "4294967295", "x", " 1"] {
        assert_eq!(parse_u32(s), s.parse::<u32>().ok());
    }
}

#[test]
fn test_pid_text_round_trip() {
    for n in [0, 1, -1, 12345, i32::MAX, i32::MIN] {
        assert_eq!(parse_i32(&i32_text(n)), Some(n));
        assert_eq!(i32_text(n), n.to_string());
    }
}

#[test]
fn test_identity_from_sudo() {
    let r = resolve_identity(0, 0, 0, &env(Some("1000"), Some("100"), None, Some("/home/me")));
    assert_eq!(r, Ok((1000, 100, "/home/me".to_string())));
    let r = resolve_identity(0, 0, 0, &env(Some("1000"), None, Some("/home/sudo"), Some("/root")));
    assert_eq!(r, Ok((1000, 0, "/home/sudo".to_string())));
}

#[test]
fn test_identity_without_sudo() {
    let r = resolve_identity(500, 50, 500, &env(None, None, None, None));
    assert_eq!(r, Ok((500, 50, "/tmp".to_string())));
}

#[test]
fn test_identity_under_setuid_ignores_sudo() {
    let r = resolve_identity(1000, 1000, 0, &env(Some("0"), Some("0"), Some("/root"), Some("/home/u")));
    assert_eq!(r, Ok((1000, 1000, "/home/u".to_string())));
}

#[test]
fn test_identity_bad_sudo_ids() {
    let r = resolve_identity(0, 0, 0, &env(Some("abc"), None, None, None));
    assert_eq!(r, Err("Failed to parse SUDO_UID: \"abc\"".to_string()));
    let r = resolve_identity(0, 0, 0, &env(Some("5"), Some("-2"), None, None));
    assert_eq!(r, Err("Failed to parse SUDO_GID: \"-2\"".to_string()));
}

#[test]
fn test_config_files_below_home() {
    let r = config_file_candidates_of("/home/u/p", "/home/u");
    assert_eq!(
        r,
        vec![
            "/etc/sandbox.toml",
            "/etc/sandbox.conf",
            "/home/u/.config/sandbox/config.toml",
            "/home/u/.config/sandbox/config.conf",
            "/home/u/.sandbox.toml",
            "/home/u/.sandbox.conf",
            "/home/u/p/.sandbox.toml",
            "/home/u/p/.sandbox.conf",
        ]
    );
}

#[test]
fn test_config_files_outside_home() {
    let r = config_file_candidates_of("/opt/x", "/home/u");
    assert_eq!(
        r,
        vec![
            "/etc/sandbox.toml",
            "/etc/sandbox.conf",
            "/home/u/.config/sandbox/config.toml",
            "/home/u/.config/sandbox/config.conf",
            "/.sandbox.toml",
            "/.sandbox.conf",
            "/opt/.sandbox.toml",
            "/opt/.sandbox.conf",
            "/opt/x/.sandbox.toml",
            "/opt/x/.sandbox.conf",
        ]
    );
}

#[test]
fn test_overlay_mounts_selected_and_ordered() {
    let table = vec![
        ("/".to_string(), "overlay".to_string()),
        ("/proc".to_string(), "proc".to_string()),
        ("/home".to_string(), "ext4".to_string()),
        ("/data".to_string(), "xfs".to_string()),
        ("/store/s1/overlay/x".to_string(), "ext4".to_string()),
    ];
    let r = select_overlay_mounts(&table, "/store/s1").unwrap();
    let dirs: Vec<String> = r.iter().map(|m| m.dir.clone()).collect();
    assert_eq!(dirs, vec!["/".to_string(), "/data".to_string(), "/home".to_string()]);
    assert_eq!(r[0].hash, "F4");
    assert_eq!(r[2].hash, "F5UG63LF");
}

#[test]
fn test_no_overlay_mounts() {
    let table = vec![("/proc".to_string(), "proc".to_string())];
    let r = select_overlay_mounts(&table, "/store/s1");
    assert_eq!(r.unwrap_err(), "No suitable mounts found for sandbox, something is very wrong");
}

#[test]
fn test_overlay_options_text() {
    assert_eq!(
        overlay_options_for("/home", "/s/upper/X", "/s/work/X"),
        "lowerdir=/home,upperdir=/s/upper/X,workdir=/s/work/X,index=off,redirect_dir=on,metacopy=off"
    );
}

fn bind(arg: &str) -> BindMount {
    BindMount { source: arg.to_string(), target: arg.to_string(), options: BindMountOptions::ReadWrite, argument: arg.to_string() }
}

fn settings_config(net: Network, binds: Vec<BindMount>) -> Config {
    Config {
        log_level: LogLevel::Info,
        name: "s".to_string(),
        storage_dir: "/store".to_string(),
        sandbox_dir: "/store/s".to_string(),
        upper_cwd: "/store/s/upper/F4".to_string(),
        overlay_cwd: "/store/s/overlay/F4".to_string(),
        net,
        sources: Sources::new(),
        ignored: false,
        bind_mounts: binds,
        no_default_binds: false,
        config_files: vec![],
    }
}

fn root_mounts() -> Vec<MountHash> {
    vec![MountHash { hash: "F4".to_string(), dir: "/".to_string() }]
}

#[test]
fn fresh_settings_agree_with_their_config() {
    let config = settings_config(Network::Host, vec![bind("/b"), bind("/a"), bind("data")]);
    let settings = SandboxSettings::from_config(&config, &root_mounts());
    assert_eq!(settings.version, "0.1.0");
    assert!(settings.validate_against_config(&config, &root_mounts()).is_ok());
    let args: Vec<String> = settings.user_bind_mounts().iter().map(|b| b.argument.clone()).collect();
    assert_eq!(args, vec!["/a".to_string(), "/b".to_string()]);
}

#[test]
fn settings_report_a_changed_network() {
    let started = SandboxSettings::from_config(&settings_config(Network::NoNetwork, vec![]), &root_mounts());
    let now = settings_config(Network::Host, vec![]);
    assert_eq!(
        started.validate_against_config(&now, &root_mounts()).unwrap_err(),
        "Network configuration has changed. Existing: None, Current: Host. Please stop existing sandbox to change network settings."
    );
}

#[test]
fn settings_report_changed_mounts_and_binds() {
    let started = SandboxSettings::from_config(&settings_config(Network::Host, vec![bind("/a")]), &root_mounts());
    let mut more = root_mounts();
    more.push(MountHash { hash: "F5UG63LF".to_string(), dir: "/home".to_string() });
    assert_eq!(
        started.validate_against_config(&settings_config(Network::Host, vec![bind("/a")]), &more).unwrap_err(),
        "Mount configuration has changed:\n  Added mounts:\n    - /home\nPlease stop the existing sandbox to change mount settings."
    );
    assert_eq!(
        started.validate_against_config(&settings_config(Network::Host, vec![bind("/c")]), &root_mounts()).unwrap_err(),
        "Bind mount configuration has changed:\n  Removed bind mounts:\n    - /a\n  Added bind mounts:\n    - /c\nPlease stop the existing sandbox to change bind mount settings."
    );
}

#[test]
fn settings_ignore_bind_order_and_data_mounts() {
    let started = SandboxSettings::from_config(&settings_config(Network::Host, vec![bind("/a"), bind("/b")]), &root_mounts());
    let shuffled = settings_config(Network::Host, vec![bind("data"), bind("/b"), bind("/a")]);
    assert!(started.validate_against_config(&shuffled, &root_mounts()).is_ok());
}
