use slafling::config::{
    default_token_store, describe_token_source, format_size, generate_init_config, is_headless_env,
    is_truthy, parse_file_size, resolve, resolve_from_env, resolve_token, resolve_token_from_env,
    resolve_token_store, validate_config, validate_search_types_str, config_template,
    ConfigFile, DefaultConfig,
    EnvSnapshot, Profile, DEFAULT_MAX_FILE_SIZE, KB, MB,
};

fn minimal_config() -> ConfigFile {
    ConfigFile {
        default: DefaultConfig {
            channel: Some("#general".to_string()),
            max_file_size: None,
            confirm: None,
            output: None,
            search_types: None,
            token_store: None,
        },
        profiles: Vec::new(),
    }
}

fn env_with_token(token: &str) -> EnvSnapshot {
    let mut env = EnvSnapshot::empty();
    env.token = Some(token.to_string());
    env
}

#[test]
fn valid_output_values() {
    for val in &["table", "tsv", "json", "JSON", "Table"] {
        let mut cfg = minimal_config();
        cfg.default.output = Some(val.to_string());
        assert!(
            validate_config(&cfg, false).is_ok(),
            "expected '{val}' to be valid"
        );
    }
}

#[test]
fn invalid_output_value() {
    let mut cfg = minimal_config();
    cfg.default.output = Some("yaml".to_string());
    let err = validate_config(&cfg, false).unwrap_err();
    assert!(err.message().contains("invalid output 'yaml'"));
}

#[test]
fn valid_search_types() {
    let mut cfg = minimal_config();
    cfg.default.search_types = Some(vec![
        "public_channel".to_string(),
        "private_channel".to_string(),
        "im".to_string(),
        "mpim".to_string(),
    ]);
    assert!(validate_config(&cfg, false).is_ok());
}

#[test]
fn invalid_search_type() {
    let mut cfg = minimal_config();
    cfg.default.search_types = Some(vec!["public_channel".to_string(), "foo".to_string()]);
    let err = validate_config(&cfg, false).unwrap_err();
    assert!(err.message().contains("invalid search_types 'foo'"));
}

#[test]
fn invalid_profile_output() {
    let mut cfg = minimal_config();
    cfg.profiles.push((
        "work".to_string(),
        Profile {
            channel: None,
            max_file_size: None,
            confirm: None,
            output: Some("xml".to_string()),
            search_types: None,
        },
    ));
    let err = validate_config(&cfg, false).unwrap_err();
    assert!(err.message().contains("profiles.work"));
}

#[test]
fn valid_token_store_file() {
    for val in &["file", "FILE"] {
        let mut cfg = minimal_config();
        cfg.default.token_store = Some(val.to_string());
        assert!(
            validate_config(&cfg, false).is_ok(),
            "expected '{val}' to be valid"
        );
    }
}

#[test]
fn valid_token_store_keychain() {
    for val in &["keychain", "Keychain"] {
        let mut cfg = minimal_config();
        cfg.default.token_store = Some(val.to_string());
        assert!(
            validate_config(&cfg, true).is_ok(),
            "expected '{val}' to be valid"
        );
    }
}

#[test]
fn keychain_rejected_on_non_macos() {
    let mut cfg = minimal_config();
    cfg.default.token_store = Some("keychain".to_string());
    let err = validate_config(&cfg, false).unwrap_err();
    assert!(err.message().contains("only supported on macOS"));
}

#[test]
fn invalid_token_store_value() {
    let mut cfg = minimal_config();
    cfg.default.token_store = Some("redis".to_string());
    let err = validate_config(&cfg, false).unwrap_err();
    assert!(err.message().contains("invalid token_store 'redis'"));
}

#[test]
fn default_token_store_returns_valid_value() {
    for supported in [false, true] {
        let val = default_token_store(supported);
        assert!(
            val == "keychain" || val == "file",
            "default_token_store() returned '{val}' which is not valid"
        );
    }
}

#[test]
fn none_values_are_valid() {
    let cfg = minimal_config();
    assert!(validate_config(&cfg, false).is_ok());
}

#[test]
fn init_config_template_has_token_store_needle() {
    let template = config_template();
    assert!(
        template.contains("# token_store = \"keychain\""),
        "the template must contain the token_store needle"
    );
}

#[test]
fn init_config_has_platform_default_token_store() {
    let content = generate_init_config(false);
    let expected = format!("# token_store = \"{}\"", default_token_store(false));
    assert!(
        content.contains(&expected),
        "generated config should contain '{expected}'"
    );
}

#[test]
fn init_config_has_no_token_field() {
    let content = generate_init_config(false);
    assert!(
        !content.contains("token ="),
        "config should not contain token field"
    );
}

#[test]
fn init_generates_valid_toml() {
    let toml_str = generate_init_config(false);
    let parsed: toml::Value = toml::from_str(&toml_str).expect("generated TOML should parse");
    let default = parsed.get("default").expect("[default] section");
    assert!(default.get("channel").is_none());
}

#[test]
fn toml_without_channel_parses() {
    let toml_str = generate_init_config(false);
    let parsed: toml::Value = toml::from_str(&toml_str).expect("should parse without channel");
    assert!(parsed.get("default").unwrap().get("channel").is_none());
}

#[test]
fn validate_search_types_str_valid() {
    assert!(validate_search_types_str("public_channel").is_ok());
    assert!(validate_search_types_str("public_channel,private_channel").is_ok());
    assert!(validate_search_types_str("public_channel,private_channel,im,mpim").is_ok());
}

#[test]
fn validate_search_types_str_invalid() {
    let err = validate_search_types_str("public_channel,foo").unwrap_err();
    assert!(err.message().contains("invalid search type 'foo'"));
}

#[test]
fn resolve_token_store_lowercases() {
    let mut cfg = minimal_config();
    cfg.default.token_store = Some("ReDiS".to_string());
    assert_eq!(resolve_token_store(&cfg, false), "redis");
    cfg.default.token_store = Some("KeyChain".to_string());
    assert_eq!(resolve_token_store(&cfg, false), "keychain");
    cfg.default.token_store = Some("FILE".to_string());
    assert_eq!(resolve_token_store(&cfg, false), "file");
    cfg.default.token_store = None;
    assert_eq!(resolve_token_store(&cfg, false), "file");
}

#[test]
fn resolve_reports_lowercased_invalid_store() {
    let mut cfg = minimal_config();
    cfg.default.token_store = Some("ReDiS".to_string());
    let err = resolve(&cfg, None, &EnvSnapshot::empty(), Some("xoxb-x".to_string()), false)
        .unwrap_err();
    assert!(err.message().contains("invalid token_store 'redis'"));
}

#[test]
fn resolve_token_invalid_store() {
    let err = resolve_token("redis", &EnvSnapshot::empty(), None).unwrap_err();
    assert!(err.message().contains("invalid token_store 'redis'"));
}

#[test]
fn resolve_token_env_takes_priority() {
    let env = env_with_token("xoxb-env-test");
    let result = resolve_token("file", &env, Some("xoxb-stored".to_string()));
    assert_eq!(result.unwrap(), "xoxb-env-test");
}

#[test]
fn resolve_token_empty_env_is_ignored() {
    let env = env_with_token("");
    let result = resolve_token("file", &env, None);
    assert!(result.is_err());
    assert!(result.unwrap_err().message().contains("token is not configured"));
}

#[test]
fn describe_token_source_env() {
    let env = env_with_token("xoxb-env-test");
    let (source, location) =
        describe_token_source("file", &env, false, &"/tmp/ignored".to_string()).unwrap();
    assert_eq!(source, "env");
    assert_eq!(location, "SLAFLING_TOKEN");
}

#[test]
fn describe_token_source_file() {
    let location = "/home/u/.local/share/slafling/tokens/default".to_string();
    let (source, loc) =
        describe_token_source("file", &EnvSnapshot::empty(), true, &location).unwrap();
    assert_eq!(source, "file");
    assert_eq!(loc, location);
}

#[test]
fn is_headless_env_values() {
    for val in &["1", "true", "yes", "TRUE", "Yes"] {
        let mut env = EnvSnapshot::empty();
        env.headless = Some(val.to_string());
        assert!(is_headless_env(&env), "expected '{val}' to enable headless");
    }
    for val in &["0", "false", "no", ""] {
        let mut env = EnvSnapshot::empty();
        env.headless = Some(val.to_string());
        assert!(!is_headless_env(&env), "expected '{val}' to not enable headless");
    }
    assert!(!is_headless_env(&EnvSnapshot::empty()));
}

#[test]
fn resolve_from_env_success() {
    let mut env = EnvSnapshot::empty();
    env.token = Some("xoxb-headless".to_string());
    env.channel = Some("#test".to_string());
    env.max_file_size = Some("50MB".to_string());
    env.confirm = Some("true".to_string());

    let cfg = resolve_from_env(&env).unwrap();
    assert_eq!(cfg.token, "xoxb-headless");
    assert_eq!(cfg.channel, "#test");
    assert_eq!(cfg.max_file_size, 50 * MB);
    assert!(cfg.confirm);
}

#[test]
fn resolve_from_env_missing_channel() {
    let env = env_with_token("xoxb-test");
    let err = resolve_from_env(&env).unwrap_err();
    assert!(err.message().contains("SLAFLING_CHANNEL must be set"));
}

#[test]
fn resolve_from_env_missing_token() {
    let err = resolve_from_env(&EnvSnapshot::empty()).unwrap_err();
    assert!(err.message().contains("SLAFLING_TOKEN must be set"));
}

#[test]
fn resolve_from_env_defaults() {
    let mut env = EnvSnapshot::empty();
    env.token = Some("xoxb-test".to_string());
    env.channel = Some("#general".to_string());

    let cfg = resolve_from_env(&env).unwrap();
    assert_eq!(cfg.max_file_size, DEFAULT_MAX_FILE_SIZE);
    assert!(!cfg.confirm);
}

#[test]
fn resolve_token_from_env_requires_value() {
    assert!(resolve_token_from_env(&EnvSnapshot::empty()).is_err());
    let env = env_with_token("xoxb-x");
    assert_eq!(resolve_token_from_env(&env).unwrap(), "xoxb-x");
}

#[test]
fn layered_resolution_precedence() {
    // Default only: the default channel wins.
    let mut cfg = minimal_config();
    cfg.default.confirm = Some(true);
    let env = env_with_token("xoxb-t");
    let rc = resolve(&cfg, None, &env, None, false).unwrap();
    assert_eq!(rc.channel, "#general");
    assert!(rc.confirm);
    assert_eq!(rc.max_file_size, DEFAULT_MAX_FILE_SIZE);

    // Default plus profile: the profile's present fields win.
    cfg.profiles.push((
        "work".to_string(),
        Profile {
            channel: Some("#work".to_string()),
            max_file_size: Some("1KB".to_string()),
            confirm: Some(false),
            output: None,
            search_types: None,
        },
    ));
    let name = "work".to_string();
    let rc = resolve(&cfg, Some(&name), &env, None, false).unwrap();
    assert_eq!(rc.channel, "#work");
    assert!(!rc.confirm);
    assert_eq!(rc.max_file_size, KB);

    // Default plus profile plus environment: the environment wins.
    let mut env2 = env_with_token("xoxb-t");
    env2.channel = Some("#env".to_string());
    env2.max_file_size = Some("2KB".to_string());
    env2.confirm = Some("yes".to_string());
    let rc = resolve(&cfg, Some(&name), &env2, None, false).unwrap();
    assert_eq!(rc.channel, "#env");
    assert!(rc.confirm);
    assert_eq!(rc.max_file_size, 2 * KB);
}

#[test]
fn layered_resolution_missing_required_fields() {
    // No layer defines the channel.
    let mut cfg = minimal_config();
    cfg.default.channel = None;
    let env = env_with_token("xoxb-t");
    let err = resolve(&cfg, None, &env, None, false).unwrap_err();
    assert!(err.message().contains("channel is not configured"));

    // No source supplies the credential.
    let cfg = minimal_config();
    let err = resolve(&cfg, None, &EnvSnapshot::empty(), None, false).unwrap_err();
    assert!(err.message().contains("token is not configured"));
}

#[test]
fn resolve_unknown_profile_fails() {
    let cfg = minimal_config();
    let env = env_with_token("xoxb-t");
    let name = "nope".to_string();
    let err = resolve(&cfg, Some(&name), &env, None, false).unwrap_err();
    assert!(err.message().contains("profile 'nope' not found"));
}

#[test]
fn resolve_stored_token_used_when_env_absent() {
    let cfg = minimal_config();
    let rc = resolve(
        &cfg,
        None,
        &EnvSnapshot::empty(),
        Some("xoxb-stored".to_string()),
        false,
    )
    .unwrap();
    assert_eq!(rc.token, "xoxb-stored");
}

#[test]
fn parse_file_size_values() {
    assert_eq!(parse_file_size("0").unwrap(), 0);
    assert_eq!(parse_file_size("123").unwrap(), 123);
    assert_eq!(parse_file_size("123B").unwrap(), 123);
    assert_eq!(parse_file_size("1KB").unwrap(), 1024);
    assert_eq!(parse_file_size("1k").unwrap(), 1024);
    assert_eq!(parse_file_size("1.5MB").unwrap(), 1_572_864);
    assert_eq!(parse_file_size("100MB").unwrap(), 104_857_600);
    assert_eq!(parse_file_size("2g").unwrap(), 2_147_483_648);
    assert_eq!(parse_file_size(" 1.5 MB ").unwrap(), 1_572_864);
    assert_eq!(parse_file_size("0.5KB").unwrap(), 512);
}

#[test]
fn parse_file_size_rejects_bad_number() {
    let err = parse_file_size("abcMB").unwrap_err();
    assert!(err.message().contains("invalid number in file size"));
    assert!(parse_file_size("").is_err());
    assert!(parse_file_size("1.2.3KB").is_err());
    assert!(parse_file_size(".").is_err());
    assert!(parse_file_size("-5KB").is_err());
}

#[test]
fn parse_file_size_rejects_bad_unit() {
    let err = parse_file_size("5XB").unwrap_err();
    assert!(err.message().contains("unknown file size unit: 'XB'"));
    assert!(parse_file_size("5 M B").is_err());
}

#[test]
fn format_size_values() {
    assert_eq!(format_size(500), "500B");
    assert_eq!(format_size(1024), "1.0KB");
    assert_eq!(format_size(1536), "1.5KB");
    assert_eq!(format_size(104_857_600), "100.0MB");
    assert_eq!(format_size(1_073_741_824), "1.0GB");
}

#[test]
fn size_round_trip_within_tolerance() {
    for bytes in [
        0u64,
        123,
        1023,
        1024,
        1536,
        10_000,
        1_048_576,
        5_000_000,
        1_073_741_824,
        5_000_000_000,
    ] {
        let formatted = format_size(bytes);
        let reparsed = parse_file_size(&formatted).unwrap();
        let unit = if bytes >= 1_073_741_824 {
            1_073_741_824u64
        } else if bytes >= 1_048_576 {
            1_048_576
        } else if bytes >= 1024 {
            1024
        } else {
            1
        };
        let diff = reparsed.abs_diff(bytes);
        assert!(
            diff <= unit / 20 + 1,
            "round trip of {bytes} gave {reparsed} via '{formatted}'"
        );
    }
}

#[test]
fn is_truthy_values() {
    assert!(is_truthy("1"));
    assert!(is_truthy("TRUE"));
    assert!(is_truthy("Yes"));
    assert!(!is_truthy("0"));
    assert!(!is_truthy(""));
    assert!(!is_truthy("on"));
}
