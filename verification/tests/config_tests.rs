use frps_defender::config::{default_block, default_db_path, default_listen, Config, ConfigError, ProxyConfig};

#[test]
fn defaults_when_file_absent() {
    let config = Config::when_file_absent(false).unwrap();
    assert_eq!(config.listen, "127.0.0.1:7200");
    assert_eq!(config.block, vec!["all"]);
    assert!(config.proxies.is_empty());
}

#[test]
fn error_when_required_file_absent() {
    assert!(Config::when_file_absent(true).is_err());
    assert_eq!(Config::when_file_absent(true).err(), Some(ConfigError::NotFound));
}

#[test]
fn ipdata_api_key_defaults_to_none() {
    let config = Config::when_file_absent(false).unwrap();
    assert!(config.ipdata_api_key.is_none());
}

#[test]
fn db_path_defaults_correctly() {
    let config = Config::when_file_absent(false).unwrap();
    assert_eq!(config.db_path, "/var/tmp/frps-defender/blocks.db");
}

#[test]
fn default_values() {
    assert_eq!(default_listen(), "127.0.0.1:7200");
    assert_eq!(default_block(), vec!["all".to_string()]);
    assert_eq!(default_db_path(), "/var/tmp/frps-defender/blocks.db");
    let config = Config::default();
    assert_eq!(config.block, vec!["all"]);
}

fn config_with_proxy() -> Config {
    Config {
        listen: "127.0.0.1:7200".to_string(),
        block: vec!["aws".to_string()],
        proxies: vec![("ssh".to_string(), ProxyConfig { block: vec!["vpn".to_string()] })],
        ipdata_api_key: None,
        db_path: String::new(),
    }
}

#[test]
fn providers_for_uses_proxy_entry() {
    let config = config_with_proxy();
    assert_eq!(config.providers_for("ssh"), &["vpn"]);
}

#[test]
fn providers_for_falls_back_to_global() {
    let config = config_with_proxy();
    assert_eq!(config.providers_for("other"), &["aws"]);
    assert_eq!(config.providers_for(""), &["aws"]);
}
