use config_server::client::builder::ConfigClientBuilder;
use config_server::client::ConfigClient;

#[test]
fn builder_defaults() {
    let client = ConfigClientBuilder::new().build();
    assert_eq!(client.server_url(), "http://localhost:8888");
    assert_eq!(client.application(), "application");
    assert_eq!(client.profile(), "default");
    assert_eq!(client.label(), "master");
    let client = ConfigClientBuilder::default().build();
    assert_eq!(client.label(), "master");
}

#[test]
fn builder_keeps_what_was_set() {
    let client = ConfigClientBuilder::new()
        .server_url("http://config:9000/")
        .application("myapp")
        .profile("dev,prod")
        .label("release")
        .build();
    assert_eq!(client.server_url(), "http://config:9000/");
    assert_eq!(client.application(), "myapp");
    assert_eq!(client.profile(), "dev,prod");
    assert_eq!(client.label(), "release");
    let client = ConfigClientBuilder::new().label("a").label("b").application("x").build();
    assert_eq!(client.label(), "b");
    assert_eq!(client.application(), "x");
    assert_eq!(client.profile(), "default");
}

#[test]
fn client_new_keeps_its_coordinates() {
    let client = ConfigClient::new(
        "http://h".to_string(),
        "a".to_string(),
        "p".to_string(),
        "l".to_string(),
    );
    assert_eq!(client.server_url(), "http://h");
    assert_eq!(client.application(), "a");
    assert_eq!(client.profile(), "p");
    assert_eq!(client.label(), "l");
}

use config_server::client::error::ConfigError;
use config_server::client::report::{
    config_report, format_entry, list_entries, mask_value, sort_entries,
};
use config_server::client::source::{render, ConfigSource};
use config_server::parser::{parse, Format};
use config_server::value::{ConfigValue, Number};

fn answer() -> ConfigValue {
    parse(
        r#"{
            "name": "myapp",
            "profiles": ["dev", 7, "prod"],
            "label": "main",
            "version": null,
            "propertySources": [
                {"name": "application.yml", "source": {"a": 1, "b": "base", "list": [1, 2]}},
                {"name": "broken", "source": "not an object"},
                {"name": "myapp-dev.yml", "source": {"a": 2, "flag": "true", "n": "-12", "x": 1.5, "t": false, "z": null, "big": 18446744073709551615}}
            ]
        }"#,
        Format::Json,
    )
    .unwrap()
}

#[test]
fn from_response_merges_sources_in_order() {
    let source = ConfigSource::from_response(&answer());
    assert_eq!(source.name, "myapp");
    assert_eq!(source.profiles, vec!["dev".to_string(), "prod".to_string()]);
    assert_eq!(source.label, "main");
    assert_eq!(source.version, None);
    assert_eq!(source.properties.len(), 9);
    assert_eq!(source.get_property("a"), Some(&ConfigValue::Number(Number::PosInt(2))));
    assert_eq!(source.get_property("b"), Some(&ConfigValue::Text("base".to_string())));
    assert_eq!(source.get_property("missing"), None);
}

#[test]
fn from_response_is_lenient() {
    let empty = ConfigSource::from_response(&ConfigValue::Null);
    assert_eq!(empty.name, "");
    assert_eq!(empty.label, "");
    assert!(empty.profiles.is_empty());
    assert_eq!(empty.version, None);
    assert_eq!(empty.properties.len(), 0);
    let odd = parse(
        r#"{"name": 5, "profiles": "dev", "version": "v1", "propertySources": {"a": 1}}"#,
        Format::Json,
    )
    .unwrap();
    let source = ConfigSource::from_response(&odd);
    assert_eq!(source.name, "");
    assert!(source.profiles.is_empty());
    assert_eq!(source.version.as_deref(), Some("v1"));
    assert_eq!(source.properties.len(), 0);
}

#[test]
fn typed_getters() {
    let source = ConfigSource::from_response(&answer());
    assert_eq!(source.get_string("b").as_deref(), Some("base"));
    assert_eq!(source.get_string("a"), None);
    assert_eq!(source.get_string("missing"), None);
    assert_eq!(source.get_string_or("b", "d"), "base");
    assert_eq!(source.get_string_or("a", "d"), "d");
    assert_eq!(source.get_bool("flag"), Some(true));
    assert_eq!(source.get_bool("t"), Some(false));
    assert_eq!(source.get_bool("b"), None);
    assert_eq!(source.get_bool("a"), None);
    assert_eq!(source.get_i64("a"), Some(2));
    assert_eq!(source.get_i64("n"), Some(-12));
    assert_eq!(source.get_i64("x"), None);
    assert_eq!(source.get_i64("big"), None);
    assert_eq!(source.get_i64("b"), None);
    assert_eq!(source.get_i64("missing"), None);
}

#[test]
fn flat_properties_render_every_kind() {
    let source = ConfigSource::from_response(&answer());
    let flat = source.get_flat_properties();
    assert_eq!(flat.len(), 9);
    let get = |key: &str| flat.iter().find(|(k, _)| k == key).map(|(_, v)| v.as_str());
    assert_eq!(get("a"), Some("2"));
    assert_eq!(get("b"), Some("base"));
    assert_eq!(get("list"), Some("[1,2]"));
    assert_eq!(get("flag"), Some("true"));
    assert_eq!(get("n"), Some("-12"));
    assert_eq!(get("x"), Some("1.5"));
    assert_eq!(get("t"), Some("false"));
    assert_eq!(get("z"), Some("null"));
    assert_eq!(get("big"), Some("18446744073709551615"));
}

#[test]
fn render_writes_integers_in_decimal_and_structures_as_json() {
    assert_eq!(render(&ConfigValue::Number(Number::PosInt(0))), "0");
    assert_eq!(render(&ConfigValue::Number(Number::NegInt(i64::MIN))), "-9223372036854775808");
    assert_eq!(render(&ConfigValue::Number(Number::Float("2.5e10".to_string()))), "2.5e10");
    let tree = ConfigValue::Object(vec![
        ("k".to_string(), ConfigValue::Text("a\"b".to_string())),
        ("n".to_string(), ConfigValue::Number(Number::Float("1.5".to_string()))),
        ("l".to_string(), ConfigValue::Array(vec![ConfigValue::Null, ConfigValue::Bool(true)])),
    ]);
    assert_eq!(render(&tree), r#"{"k":"a\"b","l":[null,true],"n":1.5}"#);
}

#[test]
fn error_messages() {
    assert_eq!(ConfigError::Request("refused".to_string()).message(), "Request error: refused");
    assert_eq!(ConfigError::Http(404).message(), "HTTP error: 404");
    assert_eq!(ConfigError::Http(0).message(), "HTTP error: 0");
    assert_eq!(ConfigError::Parse("bad".to_string()).message(), "Parse error: bad");
    assert_eq!(ConfigError::NotFound("key".to_string()).message(), "Not found: key");
}

#[test]
fn client_addresses_drop_trailing_slashes() {
    let client = ConfigClientBuilder::new()
        .server_url("http://config:9000///")
        .application("myapp")
        .profile("dev")
        .label("main")
        .build();
    assert_eq!(client.config_url(), "http://config:9000/myapp/dev/main");
    assert_eq!(client.encrypt_url(), "http://config:9000/encrypt");
    assert_eq!(client.decrypt_url(), "http://config:9000/decrypt");
    assert_eq!(client.refresh_url(), "http://config:9000/refresh");
    let plain = ConfigClientBuilder::new().build();
    assert_eq!(plain.config_url(), "http://localhost:8888/application/default/master");
}

#[test]
fn client_reads_answers() {
    let client = ConfigClientBuilder::new().build();
    let body = r#"{"name": "application", "propertySources": [{"source": {"k": "v"}}]}"#;
    let source = client.fetch_config(200, body).unwrap();
    assert_eq!(source.get_string("k").as_deref(), Some("v"));
    assert!(matches!(client.fetch_config(404, body), Err(ConfigError::Http(404))));
    assert!(matches!(client.fetch_config(199, body), Err(ConfigError::Http(199))));
    assert!(matches!(client.fetch_config(300, body), Err(ConfigError::Http(300))));
    assert!(client.fetch_config(299, body).is_ok());
    assert!(matches!(
        client.fetch_config(200, "not json"),
        Err(ConfigError::Request(m)) if m == "error decoding response body"
    ));
    assert_eq!(client.encrypt_value(200, r#"{"encrypted": "{cipher}abc"}"#).unwrap(), "{cipher}abc");
    assert_eq!(client.encrypt_value(200, r#"{"other": 1}"#).unwrap(), "");
    assert_eq!(client.encrypt_value(200, r#"{"encrypted": 5}"#).unwrap(), "");
    assert!(matches!(client.encrypt_value(500, "{}"), Err(ConfigError::Http(500))));
    assert_eq!(client.decrypt_value(200, r#"{"decrypted": "plain"}"#).unwrap(), "plain");
    assert!(matches!(client.decrypt_value(200, "{"), Err(ConfigError::Request(_))));
    assert!(client.refresh_server_config(204).is_ok());
    assert!(matches!(client.refresh_server_config(500), Err(ConfigError::Http(500))));
}

#[test]
fn masking_rule() {
    assert_eq!(mask_value("db.PASSWORD", "hunter2"), "***MASKED***");
    assert_eq!(mask_value("my-Secret-token", "x"), "***MASKED***");
    assert_eq!(mask_value("api.KeY", "x"), "***MASKED***");
    assert_eq!(mask_value("monkey", "x"), "***MASKED***");
    assert_eq!(mask_value("plain", "{cipher}abc"), "***MASKED***");
    assert_eq!(mask_value("plain", "a{cipher}"), "a{cipher}");
    assert_eq!(mask_value("server.port", "8080"), "8080");
    assert_eq!(mask_value("", ""), "");
    assert_eq!(mask_value("ke", "y"), "y");
}

#[test]
fn entry_lines_pad_the_key_to_thirty() {
    assert_eq!(format_entry("server.port", "8080"), format!("{:<30} = {}", "server.port", "8080"));
    let long = "a.very.long.configuration.name.that.is.wide";
    assert_eq!(format_entry(long, "v"), format!("{:<30} = {}", long, "v"));
    assert_eq!(format_entry("größe", "1"), format!("{:<30} = {}", "größe", "1"));
    assert_eq!(format_entry("db.password", "p"), format!("{:<30} = {}", "db.password", "***MASKED***"));
}

fn pairs(items: &[(&str, &str)]) -> Vec<(String, String)> {
    items.iter().map(|(k, v)| (k.to_string(), v.to_string())).collect()
}

#[test]
fn entries_sort_like_strings() {
    let input = pairs(&[("b", "1"), ("a", "2"), ("B", "3"), ("ab", "4"), ("", "5"), ("é", "6"), ("a", "7"), ("z", "8")]);
    let mut expected = input.clone();
    expected.sort_by_key(|(k, _)| k.clone());
    assert_eq!(sort_entries(&input), expected);
    assert_eq!(sort_entries(&pairs(&[])), pairs(&[]));
}

#[test]
fn report_lists_sorted_and_masked() {
    let lines = config_report(&pairs(&[("server.port", "8080"), ("db.password", "x"), ("app", "demo")]));
    assert_eq!(
        lines,
        vec![
            "\n📋 All loaded configurations:".to_string(),
            "-".repeat(50),
            format!("{:<30} = {}", "app", "demo"),
            format!("{:<30} = {}", "db.password", "***MASKED***"),
            format!("{:<30} = {}", "server.port", "8080"),
            "-".repeat(50),
            "Total configurations: 3\n".to_string(),
        ]
    );
    assert_eq!(
        config_report(&pairs(&[])),
        vec![
            "\n📋 All loaded configurations:".to_string(),
            "-".repeat(50),
            "No configurations loaded.".to_string(),
        ]
    );
    assert_eq!(list_entries(&pairs(&[("b", "1"), ("a", "2")]))[2], format!("{:<30} = {}", "b", "1"));
}
