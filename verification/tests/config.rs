use sandbox::actions::config::{config_line_of, config_lines, config_lines_until, config_value, default_config_keys_of, join_commas};
use sandbox::config::cli::{parse_log_level, validate_command};
use sandbox::config::resolve::{dedup_bind_mounts, merge_configs, parse_bind_mount, validate_config};
use sandbox::config::sources::Sources;
use sandbox::config::storage::{
    default_bind_candidates_of, ephemeral_name_of, is_acceptable_mount_type, mount_type_of,
    newest_sandbox, no_storage_message_of, storage_candidates_of, with_millis,
};
use sandbox::config::structs::{BindMount, BindMountOptions, Config, LogLevel, Network, PartialConfig};

fn test_config(name: &str) -> Config {
    Config {
        log_level: LogLevel::Info,
        name: name.to_string(),
        storage_dir: "/tmp/test".to_string(),
        sandbox_dir: "/tmp/test".to_string(),
        upper_cwd: "/tmp/test".to_string(),
        overlay_cwd: "/tmp/test".to_string(),
        net: Network::Host,
        sources: Sources::new(),
        ignored: false,
        bind_mounts: vec![],
        no_default_binds: false,
        config_files: vec![],
    }
}

#[test]
fn test_bind_mount_options_from_str() {
    assert!(matches!(BindMountOptions::from_str("").unwrap(), BindMountOptions::ReadWrite));
    assert!(matches!(BindMountOptions::from_str("rw").unwrap(), BindMountOptions::ReadWrite));
    assert!(matches!(BindMountOptions::from_str("ro").unwrap(), BindMountOptions::ReadOnly));
    assert!(matches!(BindMountOptions::from_str("mask").unwrap(), BindMountOptions::Mask));
    assert!(BindMountOptions::from_str("invalid").is_err());
}

#[test]
fn test_validate_config() {
    let mut config = test_config("test-sandbox");
    assert!(validate_config(&config).is_ok());
    config.name = "../test-sandbox".to_string();
    assert!(validate_config(&config).is_err());
    config.name = "test-sandbox/".to_string();
    assert!(validate_config(&config).is_err());
    config.name = "test-sandbox\\".to_string();
    assert!(validate_config(&config).is_ok());
    config.name = "test-sandbox.".to_string();
    assert!(validate_config(&config).is_ok());
    config.name = ".test".to_string();
    assert!(validate_config(&config).is_ok());
}

#[test]
fn test_merge_configs() {
    let mut base = PartialConfig::default();
    let mut sources = Sources::new();
    let mut base_with_binds = PartialConfig {
        bind_mounts: Some(vec!["/tmp/test1".to_string()]),
        ..PartialConfig::default()
    };

    let override_config = PartialConfig {
        log_level: Some(LogLevel::Debug),
        name: Some("test-sandbox".to_string()),
        storage_dir: Some("/tmp/test".to_string()),
        net: Some(Network::Host),
        ignored: Some(true),
        bind_mounts: Some(vec!["/tmp/test1".to_string(), "/tmp/test2".to_string()]),
        no_default_binds: Some(true),
    };

    merge_configs(&mut base, &mut sources, override_config.clone(), "test-config");
    merge_configs(&mut base_with_binds, &mut sources, override_config, "test-config");

    assert_eq!(base.log_level, Some(LogLevel::Debug));
    assert_eq!(base.name, Some("test-sandbox".to_string()));
    assert_eq!(base.storage_dir, Some("/tmp/test".to_string()));
    assert!(matches!(base.net, Some(Network::Host)));
    assert_eq!(base.ignored, Some(true));
    assert_eq!(base.bind_mounts, Some(vec!["/tmp/test1".to_string(), "/tmp/test2".to_string()]));
    assert_eq!(
        base_with_binds.bind_mounts,
        Some(vec!["/tmp/test1".to_string(), "/tmp/test1".to_string(), "/tmp/test2".to_string()])
    );
    assert_eq!(base.no_default_binds, Some(true));

    assert_eq!(sources.get("log_level"), Some(&"test-config".to_string()));
    assert_eq!(sources.get("name"), Some(&"test-config".to_string()));
    assert_eq!(sources.get("storage_dir"), Some(&"test-config".to_string()));
    assert_eq!(sources.get("net"), Some(&"test-config".to_string()));
    assert_eq!(sources.get("ignored"), Some(&"test-config".to_string()));
    assert_eq!(sources.get("no_default_binds"), Some(&"test-config".to_string()));
}

#[test]
fn merging_an_empty_config_changes_nothing() {
    let mut base = PartialConfig {
        name: Some("kept".to_string()),
        bind_mounts: Some(vec!["/a".to_string()]),
        ..PartialConfig::default()
    };
    let mut sources = Sources::new();
    merge_configs(&mut base, &mut sources, PartialConfig::default(), "empty");
    assert_eq!(base.name, Some("kept".to_string()));
    assert_eq!(base.bind_mounts, Some(vec!["/a".to_string()]));
    assert_eq!(sources.get("name"), None);
}

#[test]
fn later_config_wins_and_binds_add_up() {
    let mut base = PartialConfig::default();
    let mut sources = Sources::new();
    let first = PartialConfig {
        name: Some("first".to_string()),
        bind_mounts: Some(vec!["/one".to_string()]),
        ..PartialConfig::default()
    };
    let second = PartialConfig {
        name: Some("second".to_string()),
        bind_mounts: Some(vec!["/two".to_string()]),
        ..PartialConfig::default()
    };
    merge_configs(&mut base, &mut sources, first, "a.toml");
    merge_configs(&mut base, &mut sources, second, "b.toml");
    assert_eq!(base.name, Some("second".to_string()));
    assert_eq!(base.bind_mounts, Some(vec!["/one".to_string(), "/two".to_string()]));
    assert_eq!(sources.get("name"), Some(&"b.toml".to_string()));
}

#[test]
fn bind_mount_arguments_are_read() {
    let b = parse_bind_mount("/src").unwrap();
    assert_eq!(b.source, "/src");
    assert_eq!(b.target, "/src");
    assert_eq!(b.options, BindMountOptions::ReadWrite);
    let b = parse_bind_mount("/src:/dst:ro").unwrap();
    assert_eq!(b.target, "/dst");
    assert_eq!(b.options, BindMountOptions::ReadOnly);
    let b = parse_bind_mount("/src::mask").unwrap();
    assert_eq!(b.target, "/src");
    assert_eq!(b.options, BindMountOptions::Mask);
    let e = parse_bind_mount("/src:/dst:bogus").unwrap_err();
    assert_eq!(e, "Unknown bind mount option: 'bogus'. Valid options are: rw, ro, mask");
}

#[test]
fn duplicate_bind_mounts_keep_first() {
    let r = dedup_bind_mounts(vec!["/a".to_string(), "/b".to_string(), "/a".to_string()]);
    assert_eq!(r, vec!["/a".to_string(), "/b".to_string()]);
}

#[test]
fn network_and_levels_are_read() {
    assert_eq!(Network::from_str("HOST").unwrap(), Network::Host);
    assert_eq!(Network::from_str("none").unwrap(), Network::NoNetwork);
    assert!(Network::from_str("bridge").is_err());
    assert_eq!(Network::Host.to_string(), "host");
    assert_eq!(parse_log_level("debug").unwrap(), LogLevel::Debug);
    assert!(parse_log_level("loud").is_err());
    assert_eq!(LogLevel::Warn.as_str(), "WARN");
}

#[test]
fn commands_are_checked() {
    assert_eq!(validate_command(1, "ls").unwrap(), "ls");
    assert_eq!(validate_command(1, "--bogus").unwrap_err(), "Unknown option");
    assert_eq!(validate_command(1, "--").unwrap(), "--");
    assert_eq!(validate_command(2, "-l").unwrap(), "-l");
}

#[test]
fn config_values_by_key() {
    let mut config = test_config("box");
    config.bind_mounts = vec![
        BindMount {
            source: "/a".to_string(),
            target: "/a".to_string(),
            options: BindMountOptions::ReadWrite,
            argument: "/a".to_string(),
        },
        BindMount {
            source: "/m".to_string(),
            target: "/m".to_string(),
            options: BindMountOptions::Mask,
            argument: "/m:/m:mask".to_string(),
        },
        BindMount {
            source: "/b".to_string(),
            target: "/c".to_string(),
            options: BindMountOptions::ReadOnly,
            argument: "/b:/c:ro".to_string(),
        },
    ];
    assert_eq!(config_value(&config, &"bind".to_string()).unwrap().1, "/a,/b:/c:ro");
    assert_eq!(config_value(&config, &"mask".to_string()).unwrap().1, "/m");
    assert_eq!(config_value(&config, &"storage-dir".to_string()).unwrap().0, "storage_dir");
    assert_eq!(config_value(&config, &"net".to_string()).unwrap().1, "host");
    assert_eq!(config_value(&config, &"ignored".to_string()).unwrap().1, "false");
    assert_eq!(config_value(&config, &"bogus".to_string()).unwrap_err(), "Unknown key: bogus");
    assert_eq!(config_line_of(&"name".to_string(), &"box".to_string(), true), "name=box");
    assert_eq!(config_line_of(&"name".to_string(), &"box".to_string(), false), "box");
    let lines = config_lines(&config, Some(vec!["name".to_string()])).unwrap();
    assert_eq!(lines[0].2, "box");
    let lines = config_lines(&config, None).unwrap();
    assert_eq!(lines.len(), default_config_keys_of().len());
    assert_eq!(lines[0].2, "name=box");
    assert!(config_lines(&config, Some(vec!["name".to_string(), "nope".to_string()])).is_err());
    let (shown, unknown) = config_lines_until(&config, Some(vec!["name".to_string(), "nope".to_string(), "net".to_string()]));
    assert_eq!(shown.len(), 1);
    assert_eq!(shown[0].2, "name=box");
    assert_eq!(unknown.unwrap(), "Unknown key: nope");
    assert_eq!(join_commas(&vec![]), "");
}

#[test]
fn storage_directories_are_chosen() {
    assert_eq!(storage_candidates_of(&Some("/x".to_string()), "/home/u", 7), vec!["/x".to_string()]);
    assert_eq!(
        storage_candidates_of(&None, "/home/u", 1000),
        vec!["/home/u/.sandboxes".to_string(), "/tmp/sandboxes-1000".to_string()]
    );
    assert!(is_acceptable_mount_type("ext4"));
    assert!(!is_acceptable_mount_type("nfs"));
    let mounts = vec![("/".to_string(), "ext4".to_string()), ("/home".to_string(), "nfs".to_string())];
    assert_eq!(mount_type_of(&mounts, "/home"), Some("nfs".to_string()));
    assert_eq!(mount_type_of(&mounts, "/var"), None);
    assert!(no_storage_message_of().ends_with("btrfs, ext4, tmpfs, xfs, zfs"));
}

#[test]
fn default_bind_candidates_depend_on_network() {
    let host = default_bind_candidates_of(&Network::Host, &Some("/tmp/xdg".to_string()));
    assert!(host.contains(&"/tmp/xdg/bus".to_string()));
    assert!(host.contains(&"/run/systemd".to_string()));
    assert_eq!(host, vec!["/dev/fuse", "/run/dbus", "/tmp/xdg/bus", "/run/systemd"]);
    let none = default_bind_candidates_of(&Network::NoNetwork, &Some("/tmp/xdg".to_string()));
    assert!(!none.iter().any(|b| b.contains("/bus")));
    assert_eq!(none, vec!["/dev/fuse"]);
    let empty_runtime = default_bind_candidates_of(&Network::Host, &Some(String::new()));
    assert!(!empty_runtime.iter().any(|b| b.contains("/bus")));
}

#[test]
fn ephemeral_names_and_newest_sandbox() {
    assert_eq!(ephemeral_name_of("2024-01-02_03:04:05"), "ephemeral_2024-01-02_03:04:05");
    assert_eq!(with_millis("n", 7), "n.007");
    assert_eq!(with_millis("n", 42), "n.042");
    assert_eq!(with_millis("n", 123), "n.123");
    let found = vec![("a".to_string(), 5u128), ("b".to_string(), 9u128), ("c".to_string(), 9u128)];
    assert_eq!(newest_sandbox(&found).unwrap(), "b");
    assert_eq!(newest_sandbox(&vec![]).unwrap_err(), "No sandboxes found");
}
