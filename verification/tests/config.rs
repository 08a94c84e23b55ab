use rqbit_fuse::config::{
    config_format, config_location_choice, default_config_locations, load_config, CliArgs, Config, ConfigFormat, EnvOverrides,
};
use rqbit_fuse::error::RqbitFuseError;

fn no_env() -> EnvOverrides {
    EnvOverrides {
        api_url: None,
        mount_point: None,
        metadata_ttl: None,
        max_entries: None,
        read_timeout: None,
        log_level: None,
        auth_userpass: None,
        auth_username: None,
        auth_password: None,
    }
}

#[test]
fn test_default_config() {
    let config = Config::default();
    assert_eq!(config.api_url, "http://127.0.0.1:3030");
    assert_eq!(config.metadata_ttl, 60);
    assert_eq!(config.max_entries, 1000);
    assert_eq!(config.mount_point, "/mnt/torrents");
    assert_eq!(config.read_timeout, 30);
}

#[test]
fn test_merge_from_cli() {
    let config = Config::default();
    let cli = CliArgs {
        api_url: Some("http://custom:8080".to_string()),
        mount_point: Some("/custom/mount".to_string()),
        config_file: None,
        username: None,
        password: None,
    };

    let merged = config.merge_from_cli(&cli);

    assert_eq!(merged.api_url, "http://custom:8080");
    assert_eq!(merged.mount_point, "/custom/mount");
}

#[test]
fn test_merge_auth_from_cli() {
    let config = Config::default();
    let cli = CliArgs {
        api_url: None,
        mount_point: None,
        config_file: None,
        username: Some("testuser".to_string()),
        password: Some("testpass".to_string()),
    };

    let merged = config.merge_from_cli(&cli);

    assert_eq!(merged.api_username, Some("testuser".to_string()));
    assert_eq!(merged.api_password, Some("testpass".to_string()));
}

#[test]
fn test_validate_default_config() {
    let config = Config::default();
    assert!(config.validate().is_ok());
}

#[test]
fn test_validate_empty_url() {
    let mut config = Config::default();
    config.api_url = "".to_string();
    let result = config.validate();
    assert!(result.is_err());
    let err = result.unwrap_err();
    assert!(matches!(err, RqbitFuseError::ValidationError(_)));
}

#[test]
fn test_validate_invalid_url() {
    let mut config = Config::default();
    config.api_url = "not-a-url".to_string();
    let result = config.validate();
    assert!(result.is_err());
    let err = result.unwrap_err();
    assert!(matches!(err, RqbitFuseError::ValidationError(_)));
}

#[test]
fn test_validate_url_without_scheme() {
    // Any parseable URL is accepted: "localhost" is taken as the scheme.
    let mut config = Config::default();
    config.api_url = "localhost:3030".to_string();
    let result = config.validate();
    assert!(result.is_ok(), "URL without explicit scheme should be valid");
}

#[test]
fn test_validate_url_with_non_http_scheme() {
    let mut config = Config::default();
    config.api_url = "ftp://localhost:3030".to_string();
    let result = config.validate();
    assert!(result.is_ok(), "URL with non-http scheme should be valid");
}

#[test]
fn test_validate_relative_mount_point() {
    let mut config = Config::default();
    config.mount_point = "relative/path".to_string();
    let result = config.validate();
    assert!(result.is_err());
}

#[test]
fn validation_messages() {
    let mut config = Config::default();
    config.api_url = "".to_string();
    assert_eq!(
        config.validate().unwrap_err().message(),
        "Validation error: api_url: URL cannot be empty"
    );

    let mut config = Config::default();
    config.mount_point = "relative/path".to_string();
    assert_eq!(
        config.validate().unwrap_err().message(),
        "Validation error: mount_point: Mount point must be an absolute path"
    );

    let mut config = Config::default();
    config.log_level = "ERROR".to_string();
    assert_eq!(
        config.validate().unwrap_err().message(),
        "Validation error: log_level: Invalid log level 'ERROR'. Valid levels: error, warn, info, debug, trace"
    );

    for level in ["error", "warn", "info", "debug", "trace"] {
        let mut config = Config::default();
        config.log_level = level.to_string();
        assert!(config.validate().is_ok());
    }

    let mut config = Config::default();
    config.api_url = "not-a-url".to_string();
    let msg = config.validate().unwrap_err().message();
    assert!(msg.starts_with("Validation error: api_url: Invalid URL format: "));
}

#[test]
fn environment_overrides_the_file() {
    let mut env = no_env();
    env.api_url = Some("http://env:1".to_string());
    env.metadata_ttl = Some("+15".to_string());
    env.max_entries = Some("7".to_string());
    env.read_timeout = Some("9".to_string());
    env.log_level = Some("debug".to_string());
    env.auth_username = Some("u".to_string());
    env.auth_password = Some("p".to_string());
    let c = Config::default().merge_from_env(&env).unwrap();
    assert_eq!(c.api_url, "http://env:1");
    assert_eq!(c.mount_point, "/mnt/torrents");
    assert_eq!(c.metadata_ttl, 15);
    assert_eq!(c.max_entries, 7);
    assert_eq!(c.read_timeout, 9);
    assert_eq!(c.log_level, "debug");
    assert_eq!(c.api_username, Some("u".to_string()));
    assert_eq!(c.api_password, Some("p".to_string()));
}

#[test]
fn combined_credentials_win() {
    let mut env = no_env();
    env.auth_userpass = Some("alice:s:ecret".to_string());
    env.auth_username = Some("bob".to_string());
    let c = Config::default().merge_from_env(&env).unwrap();
    assert_eq!(c.api_username, Some("alice".to_string()));
    assert_eq!(c.api_password, Some("s:ecret".to_string()));

    // Without a colon the combined variable is ignored, and so are the
    // separate ones.
    let mut env = no_env();
    env.auth_userpass = Some("nocolon".to_string());
    env.auth_username = Some("bob".to_string());
    let c = Config::default().merge_from_env(&env).unwrap();
    assert_eq!(c.api_username, None);
    assert_eq!(c.api_password, None);
}

#[test]
fn malformed_environment_numbers() {
    let mut env = no_env();
    env.metadata_ttl = Some("abc".to_string());
    match Config::default().merge_from_env(&env) {
        Err(RqbitFuseError::InvalidArgument(m)) => assert_eq!(m, "TORRENT_FUSE_METADATA_TTL has invalid format"),
        other => panic!("unexpected {:?}", other),
    }

    let mut env = no_env();
    env.max_entries = Some("".to_string());
    match Config::default().merge_from_env(&env) {
        Err(RqbitFuseError::InvalidArgument(m)) => assert_eq!(m, "TORRENT_FUSE_MAX_ENTRIES has invalid format"),
        other => panic!("unexpected {:?}", other),
    }

    // The read timeout takes digits only, without a sign.
    let mut env = no_env();
    env.read_timeout = Some("+5".to_string());
    match Config::default().merge_from_env(&env) {
        Err(RqbitFuseError::InvalidArgument(m)) => assert_eq!(m, "TORRENT_FUSE_READ_TIMEOUT has invalid format"),
        other => panic!("unexpected {:?}", other),
    }
}

#[test]
fn command_line_wins_over_environment() {
    let mut env = no_env();
    env.api_url = Some("http://env:1".to_string());
    env.mount_point = Some("/env".to_string());
    let cli = CliArgs {
        api_url: Some("http://cli:2".to_string()),
        mount_point: None,
        config_file: None,
        username: None,
        password: None,
    };
    let mut found = Config::default();
    found.metadata_ttl = 99;
    let c = load_config(Ok(found), &env, &cli).unwrap();
    assert_eq!(c.api_url, "http://cli:2");
    assert_eq!(c.mount_point, "/env");
    assert_eq!(c.metadata_ttl, 99);

    let loaded = Config::load(Ok(Config::default()), &env).unwrap();
    assert_eq!(loaded.api_url, "http://env:1");

    // A file that could not be read is the answer, whatever else is set.
    let unreadable = load_config(Err(RqbitFuseError::IoError("denied".to_string())), &env, &cli);
    assert!(matches!(unreadable, Err(RqbitFuseError::IoError(ref m)) if m == "denied"));
}

#[test]
fn the_first_existing_config_location_is_used() {
    assert_eq!(config_location_choice(&vec![false, true, true]), Some(1));
    assert_eq!(config_location_choice(&vec![true, false, true]), Some(0));
    assert_eq!(config_location_choice(&vec![false, false]), None);
    assert_eq!(config_location_choice(&vec![]), None);
}

#[test]
fn config_file_formats() {
    assert_eq!(config_format(Some("json")), ConfigFormat::Json);
    assert_eq!(config_format(Some("JSON")), ConfigFormat::Json);
    assert_eq!(config_format(Some("Json")), ConfigFormat::Json);
    assert_eq!(config_format(Some("toml")), ConfigFormat::Toml);
    assert_eq!(config_format(Some("TOML")), ConfigFormat::Toml);
    assert_eq!(config_format(Some("yaml")), ConfigFormat::Toml);
    assert_eq!(config_format(None), ConfigFormat::Toml);
}

#[test]
fn config_file_locations() {
    assert_eq!(
        default_config_locations(Some("/home/u/.config")),
        vec![
            "/home/u/.config/rqbit-fuse/config.toml".to_string(),
            "/etc/rqbit-fuse/config.toml".to_string(),
            "./rqbit-fuse.toml".to_string(),
        ]
    );
    assert_eq!(default_config_locations(Some("/cfg/"))[0], "/cfg/rqbit-fuse/config.toml");
    assert_eq!(
        default_config_locations(None),
        vec!["/etc/rqbit-fuse/config.toml".to_string(), "./rqbit-fuse.toml".to_string()]
    );
}
