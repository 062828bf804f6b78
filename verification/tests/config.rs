//! Server configuration.
use mydb::config::{secret_from_value_or_file, Environment, SecretFile, ServerConfig};

fn empty_environment() -> Environment {
    Environment {
        port: None,
        thread_count: None,
        http_port: None,
        data_dir: None,
        group_commit_window_us: None,
        root_password: Ok(None),
        admin_password: Ok(None),
        log_level: None,
        local_infile: None,
        secure_file_priv: None,
        max_load_data_size: None,
        enforce_strong_passwords: None,
    }
}

#[test]
fn secret_file_strips_one_terminal_newline_only() {
    let value = secret_from_value_or_file(
        "MYDB_ROOT_PASSWORD",
        None,
        Some(SecretFile {
            path: "secret".to_string(),
            content: Ok("correct horse battery staple\n".to_string()),
        }),
    )
    .unwrap();
    assert_eq!(value.as_deref(), Some("correct horse battery staple"));
    let value = secret_from_value_or_file(
        "MYDB_ROOT_PASSWORD",
        None,
        Some(SecretFile { path: "secret".to_string(), content: Ok("two\n\n".to_string()) }),
    )
    .unwrap();
    assert_eq!(value.as_deref(), Some("two\n"));
}

#[test]
fn value_and_file_cannot_both_define_one_secret() {
    assert!(secret_from_value_or_file(
        "MYDB_ROOT_PASSWORD",
        Some("one".to_string()),
        Some(SecretFile { path: "two".to_string(), content: Err("no such file".to_string()) }),
    )
    .is_err());
}

#[test]
fn test_default_config() {
    let config = ServerConfig::default();

    assert_eq!(config.server.host, "0.0.0.0");
    assert_eq!(config.server.port, 3306);
    assert_eq!(config.server.max_connections, 1000);
    assert_eq!(config.storage.engine, "neko233");
    assert_eq!(config.storage.buffer_pool_size, "1G");
    assert_eq!(config.storage.group_commit_window_us, 250);
    assert_eq!(config.logging.level, "info");
    assert!(config.security.local_infile);
    assert_eq!(config.security.max_load_data_size, 1024 * 1024 * 1024);
}

#[test]
fn environment_overrides_the_file() {
    let mut env = empty_environment();
    env.port = Some("3307".to_string());
    env.root_password = Ok(Some("a secret".to_string()));
    env.local_infile = Some("false".to_string());
    let config = ServerConfig::default().apply_env(&env).unwrap();
    assert_eq!(config.server.port, 3307);
    assert_eq!(config.security.default_password, "a secret");
    assert!(!config.security.local_infile);
    assert_eq!(config.http.port, ServerConfig::default().http.port);
}

#[test]
fn environment_must_hold_numbers() {
    for bad in ["70000", "", "+", "-1", "12x", "99999999x", "++5", "é"] {
        let mut env = empty_environment();
        env.port = Some(bad.to_string());
        let error = ServerConfig::default().apply_env(&env).unwrap_err();
        assert_eq!(error.to_string(), bad.parse::<u16>().unwrap_err().to_string());
    }
    let mut env = empty_environment();
    env.port = Some("+80".to_string());
    assert_eq!(ServerConfig::default().apply_env(&env).unwrap().server.port, 80);
}

#[test]
fn the_first_variable_that_cannot_be_read_is_named() {
    let mut env = empty_environment();
    env.root_password = secret_from_value_or_file("MYDB_ROOT_PASSWORD", Some("".to_string()), None);
    env.max_load_data_size = Some("x".to_string());
    let error = ServerConfig::default().apply_env(&env).unwrap_err();
    assert_eq!(error.to_string(), "MYDB_ROOT_PASSWORD must not be empty");
    env.http_port = Some("".to_string());
    let error = ServerConfig::default().apply_env(&env).unwrap_err();
    assert_eq!(error.to_string(), "cannot parse integer from empty string");
}

#[test]
fn an_empty_environment_changes_nothing() {
    let config = ServerConfig::default().apply_env(&empty_environment()).unwrap();
    assert!(config.security.same(&ServerConfig::default().security));
    assert!(config.storage.same(&ServerConfig::default().storage));
}
