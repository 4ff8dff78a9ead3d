use config_server::config::{Environment, ServerConfig, ServerConfigError};
use config_server::text::{parse_bool, parse_i64, parse_u16};

fn env(pairs: &[(&str, &str)]) -> Environment {
    let mut e = Environment::new();
    for (name, value) in pairs {
        e.set(name.to_string(), value.to_string());
    }
    e
}

#[test]
fn from_env_defaults() {
    let config = ServerConfig::from_env(&Environment::new()).unwrap();
    assert_eq!(config.server_port, 8888);
    assert_eq!(config.health_port, 8889);
    assert_eq!(config.metrics_port, 8890);
    assert_eq!(config.config_path, "./configs");
    assert_eq!(config.git_uri, None);
    assert_eq!(config.git_username, None);
    assert_eq!(config.git_password, None);
    assert_eq!(config.encrypt_key, "default-secret-key-32-characters");
    assert_eq!(config.default_label, "master");
    assert_eq!(
        config.search_locations,
        vec!["classpath:/".to_string(), "classpath:/config/".to_string()]
    );
}

#[test]
fn from_env_reads_what_is_set() {
    let config = ServerConfig::from_env(&env(&[
        ("SERVER_PORT", "9000"),
        ("HEALTH_PORT", "+9001"),
        ("METRICS_PORT", "65535"),
        ("CONFIG_PATH", "/etc/configs"),
        ("GIT_URI", "https://example.invalid/repo.git"),
        ("GIT_USERNAME", "user"),
        ("GIT_PASSWORD", "pass"),
        ("ENCRYPT_KEY", "k"),
        ("DEFAULT_LABEL", "main"),
        ("SEARCH_LOCATIONS", " a , b,c "),
    ]))
    .unwrap();
    assert_eq!(config.server_port, 9000);
    assert_eq!(config.health_port, 9001);
    assert_eq!(config.metrics_port, 65535);
    assert_eq!(config.config_path, "/etc/configs");
    assert_eq!(config.git_uri.as_deref(), Some("https://example.invalid/repo.git"));
    assert_eq!(config.git_username.as_deref(), Some("user"));
    assert_eq!(config.git_password.as_deref(), Some("pass"));
    assert_eq!(config.encrypt_key, "k");
    assert_eq!(config.default_label, "main");
    assert_eq!(
        config.search_locations,
        vec!["a".to_string(), "b".to_string(), "c".to_string()]
    );
}

#[test]
fn from_env_rejects_malformed_ports_in_order() {
    assert_eq!(
        ServerConfig::from_env(&env(&[("SERVER_PORT", "abc"), ("HEALTH_PORT", "x")])).unwrap_err(),
        ServerConfigError::ServerPort
    );
    assert_eq!(
        ServerConfig::from_env(&env(&[("HEALTH_PORT", "65536"), ("METRICS_PORT", "")]))
            .unwrap_err(),
        ServerConfigError::HealthPort
    );
    assert_eq!(
        ServerConfig::from_env(&env(&[("METRICS_PORT", " 80")])).unwrap_err(),
        ServerConfigError::MetricsPort
    );
}

#[test]
fn environment_later_value_counts() {
    let e = env(&[("A", "1"), ("B", "2"), ("A", "3")]);
    assert_eq!(e.get("A"), Some("3"));
    assert_eq!(e.get("B"), Some("2"));
    assert_eq!(e.get("C"), None);
    assert_eq!(e.get_or("C", "d"), "d");
    assert_eq!(e.get_or("B", "d"), "2");
}

#[test]
fn parse_u16_follows_the_standard_parser() {
    for text in ["0", "8888", "65535", "+1", "007", "65536", "", "+", "-", "-1", "-0", "1 ", " 1",
        "1.0", "0x10", "99999999999999999999999999", "１２"] {
        assert_eq!(parse_u16(text), text.parse::<u16>().ok(), "{:?}", text);
    }
}

#[test]
fn parse_i64_follows_the_standard_parser() {
    for text in ["0", "-0", "+0", "42", "-42", "9223372036854775807", "9223372036854775808",
        "-9223372036854775808", "-9223372036854775809", "", "+", "-", "--1", "+-1", "1e3", "1.5",
        "00000000000000000000000000000012", "abc", "12a"] {
        assert_eq!(parse_i64(text), text.parse::<i64>().ok(), "{:?}", text);
    }
}

#[test]
fn parse_bool_follows_the_standard_parser() {
    for text in ["true", "false", "True", "TRUE", "", "1", "0", "yes", " true", "truee", "fals"] {
        assert_eq!(parse_bool(text), text.parse::<bool>().ok(), "{:?}", text);
    }
}
