use sandbox::config::cli::Args;
use sandbox::config::resolve::{
    apply_cli, apply_cli_early, apply_environment, finalize_config, masks_of, parse_bind_mounts, parse_bool,
    EnvSettings,
};
use sandbox::config::sources::Sources;
use sandbox::config::structs::{BindMountOptions, LogLevel, Network, PartialConfig};

fn no_env() -> EnvSettings {
    EnvSettings {
        log_level: None,
        name: None,
        storage_dir: None,
        net: None,
        ignored: None,
        bind: None,
        mask: None,
        no_default_binds: None,
    }
}

fn no_args() -> Args {
    Args {
        log_level: None,
        name: None,
        new: false,
        last: false,
        storage_dir: None,
        net: None,
        bind: None,
        mask: None,
        no_default_binds: false,
        json: false,
        no_config: false,
        ignored: false,
        action: None,
        sandboxed_command: None,
    }
}

fn source_of(sources: &Sources, key: &str) -> Option<String> {
    sources.get(key).cloned()
}

#[test]
fn test_parse_bool_words() {
    assert_eq!(parse_bool("true"), Some(true));
    assert_eq!(parse_bool("false"), Some(false));
    assert_eq!(parse_bool("True"), None);
    assert_eq!(parse_bool(""), None);
}

#[test]
fn test_env_log_level_applied() {
    let mut partial = PartialConfig::default();
    let mut sources = Sources::new();
    let mut env = no_env();
    env.log_level = Some("debug".to_string());
    assert!(apply_environment(&mut partial, &mut sources, &env, false).is_ok());
    assert_eq!(partial.log_level, Some(LogLevel::Debug));
    assert_eq!(source_of(&sources, "log_level"), Some("environment".to_string()));
}

#[test]
fn test_env_invalid_log_level() {
    let mut partial = PartialConfig::default();
    let mut sources = Sources::new();
    let mut env = no_env();
    env.log_level = Some("loud".to_string());
    let r = apply_environment(&mut partial, &mut sources, &env, false);
    assert_eq!(r, Err("Invalid log level: loud".to_string()));
}

#[test]
fn test_env_name_with_new_is_refused() {
    let mut partial = PartialConfig::default();
    let mut sources = Sources::new();
    let mut env = no_env();
    env.name = Some("box".to_string());
    let r = apply_environment(&mut partial, &mut sources, &env, true);
    assert_eq!(
        r,
        Err("Cannot use --new or --last when name is specified in config file or environment variable".to_string())
    );
}

#[test]
fn test_config_name_with_last_is_refused() {
    let mut partial = PartialConfig::default();
    partial.name = Some("from_file".to_string());
    let mut sources = Sources::new();
    let r = apply_environment(&mut partial, &mut sources, &no_env(), true);
    assert!(r.is_err());
}

#[test]
fn test_env_name_skipped_when_empty() {
    let mut partial = PartialConfig::default();
    let mut sources = Sources::new();
    let mut env = no_env();
    env.name = Some(String::new());
    assert!(apply_environment(&mut partial, &mut sources, &env, false).is_ok());
    assert_eq!(partial.name, None);
    env.name = Some("work".to_string());
    assert!(apply_environment(&mut partial, &mut sources, &env, false).is_ok());
    assert_eq!(partial.name, Some("work".to_string()));
    assert_eq!(source_of(&sources, "name"), Some("environment".to_string()));
}

#[test]
fn test_env_invalid_network() {
    let mut partial = PartialConfig::default();
    let mut sources = Sources::new();
    let mut env = no_env();
    env.net = Some("wifi".to_string());
    let r = apply_environment(&mut partial, &mut sources, &env, false);
    assert_eq!(r, Err("Invalid network type: wifi".to_string()));
}

#[test]
fn test_env_network_host() {
    let mut partial = PartialConfig::default();
    let mut sources = Sources::new();
    let mut env = no_env();
    env.net = Some("host".to_string());
    assert!(apply_environment(&mut partial, &mut sources, &env, false).is_ok());
    assert_eq!(partial.net, Some(Network::Host));
}

#[test]
fn test_env_invalid_ignored() {
    let mut partial = PartialConfig::default();
    let mut sources = Sources::new();
    let mut env = no_env();
    env.ignored = Some("yes".to_string());
    let r = apply_environment(&mut partial, &mut sources, &env, false);
    assert_eq!(r, Err("Invalid value for SANDBOX_IGNORED: yes".to_string()));
}

#[test]
fn test_env_bind_and_mask_are_added() {
    let mut partial = PartialConfig::default();
    partial.bind_mounts = Some(vec!["/data".to_string()]);
    let mut sources = Sources::new();
    let mut env = no_env();
    env.bind = Some(" /a , ,/b:/c:ro".to_string());
    env.mask = Some("/secret".to_string());
    assert!(apply_environment(&mut partial, &mut sources, &env, false).is_ok());
    assert_eq!(
        partial.bind_mounts,
        Some(vec![
            "/data".to_string(),
            "/a".to_string(),
            "/b:/c:ro".to_string(),
            "/secret:/secret:mask".to_string()
        ])
    );
    assert_eq!(source_of(&sources, "bind_mounts"), Some("environment".to_string()));
}

#[test]
fn test_cli_overrides_environment() {
    let mut partial = PartialConfig::default();
    let mut sources = Sources::new();
    let mut env = no_env();
    env.log_level = Some("warn".to_string());
    env.name = Some("env_name".to_string());
    assert!(apply_environment(&mut partial, &mut sources, &env, false).is_ok());
    let mut cli = no_args();
    cli.log_level = Some(LogLevel::Trace);
    cli.storage_dir = Some("/store".to_string());
    cli.name = Some("cli_name".to_string());
    cli.net = Some(Network::Host);
    cli.ignored = true;
    cli.bind = Some(vec!["/x".to_string()]);
    cli.mask = Some(vec!["/y".to_string()]);
    apply_cli_early(&mut partial, &mut sources, &cli);
    assert_eq!(partial.log_level, Some(LogLevel::Trace));
    assert_eq!(partial.storage_dir, Some("/store".to_string()));
    apply_cli(&mut partial, &mut sources, &cli, None);
    assert_eq!(partial.name, Some("cli_name".to_string()));
    assert_eq!(partial.net, Some(Network::Host));
    assert_eq!(partial.ignored, Some(true));
    assert_eq!(partial.bind_mounts, Some(vec!["/x".to_string(), "/y:/y:mask".to_string()]));
    assert_eq!(source_of(&sources, "name"), Some("cli".to_string()));
    assert_eq!(source_of(&sources, "log_level"), Some("cli".to_string()));
}

#[test]
fn test_cli_new_names_the_sandbox() {
    let mut partial = PartialConfig::default();
    let mut sources = Sources::new();
    let mut cli = no_args();
    cli.new = true;
    cli.name = Some("ignored_name".to_string());
    apply_cli(&mut partial, &mut sources, &cli, Some("sandbox_2024".to_string()));
    assert_eq!(partial.name, Some("sandbox_2024".to_string()));
    assert_eq!(source_of(&sources, "name"), Some("cli --new".to_string()));
}

#[test]
fn test_masks_of_paths() {
    let r = masks_of(&vec!["/a".to_string(), "/b c".to_string()]);
    assert_eq!(r, vec!["/a:/a:mask".to_string(), "/b c:/b c:mask".to_string()]);
}

#[test]
fn test_parse_bind_mounts_in_order() {
    let r = parse_bind_mounts(&vec!["/a".to_string(), "/b:/c:ro".to_string()]).unwrap();
    assert_eq!(r.len(), 2);
    assert_eq!(r[0].source, "/a");
    assert_eq!(r[0].target, "/a");
    assert!(matches!(r[0].options, BindMountOptions::ReadWrite));
    assert_eq!(r[1].source, "/b");
    assert_eq!(r[1].target, "/c");
    assert!(matches!(r[1].options, BindMountOptions::ReadOnly));
    let e = parse_bind_mounts(&vec!["/a".to_string(), "/b:/c:rx".to_string()]);
    assert_eq!(e.unwrap_err(), "Unknown bind mount option: 'rx'. Valid options are: rw, ro, mask");
}

#[test]
fn test_finalize_defaults() {
    let c = finalize_config(
        PartialConfig::default(),
        Sources::new(),
        "/store".to_string(),
        "/home/u/project".to_string(),
        "/".to_string(),
        vec![],
        vec![],
    )
    .unwrap();
    assert_eq!(c.name, "sandbox");
    assert_eq!(c.net, Network::NoNetwork);
    assert_eq!(c.log_level, LogLevel::Info);
    assert!(!c.ignored);
    assert!(!c.no_default_binds);
    assert_eq!(c.storage_dir, "/store");
    assert_eq!(c.sandbox_dir, "/store/sandbox");
    assert_eq!(c.upper_cwd, "/store/sandbox/upper/F4/home/u/project");
    assert_eq!(c.overlay_cwd, "/store/sandbox/overlay/F4/home/u/project");
    assert!(c.bind_mounts.is_empty());
    assert_eq!(source_of(&c.sources, "name"), Some("default".to_string()));
    assert_eq!(source_of(&c.sources, "sandbox_dir"), Some("derived from storage_dir".to_string()));
    assert_eq!(source_of(&c.sources, "bind_mounts"), Some("default".to_string()));
}

#[test]
fn test_finalize_binds_deduplicated() {
    let mut partial = PartialConfig::default();
    partial.bind_mounts = Some(vec!["/dev/fuse".to_string(), "/x:/y".to_string(), "/x:/y".to_string()]);
    let c = finalize_config(
        partial,
        Sources::new(),
        "/store".to_string(),
        "/".to_string(),
        "/".to_string(),
        vec!["/dev/fuse".to_string()],
        vec![],
    )
    .unwrap();
    let args: Vec<String> = c.bind_mounts.iter().map(|b| b.argument.clone()).collect();
    assert_eq!(args, vec!["/dev/fuse".to_string(), "/x:/y".to_string()]);
}

#[test]
fn test_finalize_without_default_binds() {
    let mut partial = PartialConfig::default();
    partial.no_default_binds = Some(true);
    let c = finalize_config(
        partial,
        Sources::new(),
        "/store".to_string(),
        "/".to_string(),
        "/".to_string(),
        vec!["/dev/fuse".to_string()],
        vec![],
    )
    .unwrap();
    assert!(c.bind_mounts.is_empty());
    assert!(c.no_default_binds);
}

#[test]
fn test_finalize_cwd_outside_mount_point() {
    let r = finalize_config(
        PartialConfig::default(),
        Sources::new(),
        "/store".to_string(),
        "/home/u".to_string(),
        "/mnt".to_string(),
        vec![],
        vec![],
    );
    assert_eq!(r.unwrap_err(), "prefix not found");
}

#[test]
fn test_finalize_invalid_name() {
    let mut partial = PartialConfig::default();
    partial.name = Some("a/b".to_string());
    let r = finalize_config(partial, Sources::new(), "/store".to_string(), "/".to_string(), "/".to_string(), vec![], vec![]);
    assert_eq!(r.unwrap_err(), "Invalid sandbox name: a/b");
}

#[test]
fn test_finalize_bad_bind_option() {
    let mut partial = PartialConfig::default();
    partial.bind_mounts = Some(vec!["/a:/b:bogus".to_string()]);
    let r = finalize_config(partial, Sources::new(), "/store".to_string(), "/".to_string(), "/".to_string(), vec![], vec![]);
    assert_eq!(r.unwrap_err(), "Unknown bind mount option: 'bogus'. Valid options are: rw, ro, mask");
}
