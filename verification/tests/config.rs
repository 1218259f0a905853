use localbill::config::{parse, ConfigFile, EnvSnapshot, EnvVar};

fn file_with_transaction_dir(dir: &str) -> ConfigFile {
    let mut f = ConfigFile::empty();
    f.transaction_dir = Some(dir.to_string());
    f
}

#[test]
fn config_env_overrides_file() {
    let env = EnvSnapshot::new().set(EnvVar::TransactionDir, "/from/env");
    let cfg = parse(Some(Ok(file_with_transaction_dir("/from/file"))), &env).unwrap();
    assert_eq!(cfg.transaction_dir, "/from/env");
}

#[test]
fn config_falls_back_to_file_then_default() {
    let env = EnvSnapshot::new().set(EnvVar::Home, "/home/u");
    let cfg = parse(Some(Ok(file_with_transaction_dir("/from/file"))), &env).unwrap();
    assert_eq!(cfg.transaction_dir, "/from/file");
    // data_dir defaults to transaction_dir.
    assert_eq!(cfg.data_dir, "/from/file");
    assert_eq!(cfg.api_port, 8087);
}

#[test]
fn config_rejects_invalid_yaml_with_its_message() {
    let env = EnvSnapshot::new();
    let err = parse(Some(Err("bad indent".to_string())), &env).unwrap_err();
    assert_eq!(err.message(), "Config error: Invalid config YAML: bad indent");
}

#[test]
fn config_without_file_uses_home_defaults() {
    let env = EnvSnapshot::new().set(EnvVar::Home, "/home/u");
    let cfg = parse(None, &env).unwrap();
    assert_eq!(cfg.api_host, "192.168.1.2");
    assert_eq!(cfg.api_endpoint, "/queue");
    assert_eq!(cfg.schema_file, None);
}

#[test]
fn last_env_setting_wins() {
    let env = EnvSnapshot::new()
        .set(EnvVar::ApiHost, "a")
        .set(EnvVar::ApiHost, "b");
    assert_eq!(env.var(EnvVar::ApiHost), Some("b".to_string()));
    assert_eq!(env.var(EnvVar::ApiPort), None);
}

#[test]
fn api_port_from_env_only_when_it_is_a_port() {
    let cfg = parse(None, &EnvSnapshot::new().set(EnvVar::ApiPort, "9000")).unwrap();
    assert_eq!(cfg.api_port, 9000);
    let cfg = parse(None, &EnvSnapshot::new().set(EnvVar::ApiPort, "99999")).unwrap();
    assert_eq!(cfg.api_port, 8087);
    assert_eq!(cfg.api_base_url(), "http://192.168.1.2:8087/queue");
}
