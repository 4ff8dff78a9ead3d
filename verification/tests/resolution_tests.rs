use config_server::config::ServerConfig;
use config_server::error::RepositoryError;
use config_server::repository::directory::Directory;
use config_server::repository::file::{candidates, probed_names, FileRepository};
use config_server::repository::git::{Checkout, GitRepository, Startup};
use config_server::repository::{ConfigRepository, Mirror};
use config_server::value::{ConfigValue, Number};

fn dir(files: &[(&str, &str)]) -> Directory {
    let mut d = Directory::new();
    for (name, content) in files {
        d.add(name.to_string(), format!("./configs/{}", name), Some(content.to_string()));
    }
    d
}

fn number(n: u64) -> ConfigValue {
    ConfigValue::Number(Number::PosInt(n))
}

fn settings(git_uri: Option<&str>) -> ServerConfig {
    ServerConfig {
        server_port: 8888,
        health_port: 8889,
        metrics_port: 8890,
        config_path: "./configs".to_string(),
        git_uri: git_uri.map(|s| s.to_string()),
        git_username: None,
        git_password: None,
        encrypt_key: "default-secret-key-32-characters".to_string(),
        default_label: "master".to_string(),
        search_locations: vec!["classpath:/".to_string()],
    }
}

fn no_mirror() -> Mirror {
    Mirror { checkout: Checkout::Failed, tree: Directory::new() }
}

#[test]
fn example_single_source_with_server_port() {
    let files = dir(&[("application.yml", "server:\n  port: 8080\n")]);
    let mut repository = ConfigRepository::new(settings(None), true, false).unwrap();
    let config =
        repository.get_config("application", "", "master", &no_mirror(), &files).unwrap();
    assert_eq!(config.property_sources.len(), 1);
    assert_eq!(config.property_sources[0].source.get("server.port"), Some(&number(8080)));
    assert_eq!(config.property_sources[0].name, "./configs/application.yml");
    assert_eq!(config.name, "application");
    assert_eq!(config.profiles, vec!["".to_string()]);
    assert_eq!(config.label, "master");
    assert_eq!(config.version, None);
}

#[test]
fn precedence_profile_overrides_default() {
    let files = dir(&[("application.yml", "a: 1\n"), ("application-dev.yml", "a: 2\n")]);
    let repo = FileRepository::new("./configs", true).unwrap();
    let config = repo.get_config(&files, "application", "dev", "main").unwrap();
    assert_eq!(config.property_sources.len(), 2);
    assert_eq!(config.property_sources[0].name, "./configs/application.yml");
    assert_eq!(config.property_sources[1].name, "./configs/application-dev.yml");
    assert_eq!(config.effective().get("a"), Some(&number(2)));
}

#[test]
fn precedence_order_is_defaults_then_application_each_with_profiles() {
    let files = dir(&[
        ("myapp-prod.yml", "k: 5\nonly_app_prod: 1\n"),
        ("myapp-dev.yml", "k: 4\n"),
        ("myapp.yml", "k: 3\nonly_app: 1\n"),
        ("application-prod.yml", "k: 2\n"),
        ("application-dev.yml", "k: 1\n"),
        ("application.yml", "k: 0\nonly_default: 1\n"),
    ]);
    let repo = FileRepository::new("./configs", true).unwrap();
    let config = repo.get_config(&files, "myapp", "dev, prod", "main").unwrap();
    let names: Vec<&str> = config.property_sources.iter().map(|s| s.name.as_str()).collect();
    assert_eq!(
        names,
        vec![
            "./configs/application.yml",
            "./configs/application-dev.yml",
            "./configs/application-prod.yml",
            "./configs/myapp.yml",
            "./configs/myapp-dev.yml",
            "./configs/myapp-prod.yml",
        ]
    );
    assert_eq!(config.profiles, vec!["dev".to_string(), "prod".to_string()]);
    let effective = config.effective();
    assert_eq!(effective.get("k"), Some(&number(5)));
    assert_eq!(effective.get("only_default"), Some(&number(1)));
    assert_eq!(effective.get("only_app"), Some(&number(1)));
    assert_eq!(effective.get("only_app_prod"), Some(&number(1)));
    assert_eq!(effective.len(), 4);
}

#[test]
fn profiles_apply_in_the_order_asked_for() {
    let files = dir(&[("application-dev.yml", "k: 1\n"), ("application-prod.yml", "k: 2\n")]);
    let repo = FileRepository::new("./configs", true).unwrap();
    let config = repo.get_config(&files, "application", "prod,dev", "main").unwrap();
    assert_eq!(config.property_sources.len(), 2);
    assert_eq!(config.property_sources[0].name, "./configs/application-prod.yml");
    assert_eq!(config.effective().get("k"), Some(&number(1)));
}

#[test]
fn application_named_application_is_probed_once() {
    let files = dir(&[("application.yml", "a: 1\n"), ("application-dev.yml", "a: 2\n")]);
    let repo = FileRepository::new("./configs", true).unwrap();
    let config = repo.get_config(&files, "application", "dev", "main").unwrap();
    assert_eq!(config.property_sources.len(), 2);
}

#[test]
fn extension_probe_prefers_yml_over_json() {
    let files = dir(&[
        ("application.json", "{\"from\": \"json\", \"json_only\": 1}"),
        ("application.yml", "from: yml\n"),
    ]);
    let repo = FileRepository::new("./configs", true).unwrap();
    let config = repo.get_config(&files, "application", "", "main").unwrap();
    assert_eq!(config.property_sources.len(), 1);
    let source = &config.property_sources[0];
    assert_eq!(source.name, "./configs/application.yml");
    assert_eq!(source.source.get("from"), Some(&ConfigValue::Text("yml".to_string())));
    assert_eq!(source.source.get("json_only"), None);
    assert_eq!(source.source.len(), 1);
}

#[test]
fn extension_probe_order_is_yml_yaml_properties_json() {
    let repo = FileRepository::new("./configs", true).unwrap();
    let all = dir(&[
        ("a.json", "{\"k\": \"json\"}"),
        ("a.properties", "k=properties"),
        ("a.yaml", "k: yaml\n"),
    ]);
    let source = repo.load_property_source(&all, "a", None).unwrap();
    assert_eq!(source.name, "./configs/a.yaml");
    let two = dir(&[("a.json", "{\"k\": \"json\"}"), ("a.properties", "k=properties")]);
    let source = repo.load_property_source(&two, "a", None).unwrap();
    assert_eq!(source.name, "./configs/a.properties");
    assert_eq!(source.source.get("k"), Some(&ConfigValue::Text("properties".to_string())));
    let one = dir(&[("a.json", "{\"k\": \"json\"}")]);
    let source = repo.load_property_source(&one, "a", None).unwrap();
    assert_eq!(source.name, "./configs/a.json");
}

#[test]
fn malformed_first_extension_is_not_replaced_by_a_later_one() {
    let files = dir(&[("a.yml", "k: [1, 2\n"), ("a.json", "{\"k\": 1}")]);
    let repo = FileRepository::new("./configs", true).unwrap();
    let err = repo.load_property_source(&files, "a", None).unwrap_err();
    assert!(matches!(err, RepositoryError::Parse(e) if e.format == config_server::parser::Format::Yaml));
}

#[test]
fn load_property_source_errors() {
    let repo = FileRepository::new("./configs", true).unwrap();
    assert_eq!(
        repo.load_property_source(&Directory::new(), "a", None).unwrap_err(),
        RepositoryError::NotFound
    );
    let mut unreadable = Directory::new();
    unreadable.add("a-dev.yml".to_string(), "./configs/a-dev.yml".to_string(), None);
    assert_eq!(
        repo.load_property_source(&unreadable, "a", Some("dev")).unwrap_err(),
        RepositoryError::NotFound
    );
    let broken = dir(&[("a.json", "{")]);
    assert!(matches!(
        repo.load_property_source(&broken, "a", None).unwrap_err(),
        RepositoryError::Parse(_)
    ));
}

#[test]
fn leniency_malformed_profile_file_is_skipped() {
    let files = dir(&[
        ("application.yml", "server:\n  port: 8080\nname: base\n"),
        ("application-dev.json", "{ this is not json"),
    ]);
    let mut repository = ConfigRepository::new(settings(None), true, false).unwrap();
    let config = repository.get_config("application", "dev", "main", &no_mirror(), &files).unwrap();
    assert_eq!(config.property_sources.len(), 1);
    assert_eq!(config.property_sources[0].source.get("server.port"), Some(&number(8080)));
    assert_eq!(
        config.property_sources[0].source.get("name"),
        Some(&ConfigValue::Text("base".to_string()))
    );
}

#[test]
fn later_name_in_directory_replaces_earlier() {
    let mut d = Directory::new();
    d.add("a.yml".to_string(), "first".to_string(), Some("k: 1\n".to_string()));
    d.add("a.yml".to_string(), "second".to_string(), Some("k: 2\n".to_string()));
    assert_eq!(d.lookup("a.yml").unwrap().path, "second");
    assert!(d.lookup("b.yml").is_none());
}

#[test]
fn file_repository_needs_its_directory() {
    assert_eq!(
        FileRepository::new("./configs", false).unwrap_err(),
        RepositoryError::BackendUnavailable
    );
    assert_eq!(FileRepository::new("./configs", true).unwrap().base_path(), "./configs");
}

#[test]
fn not_found_when_nothing_matches() {
    let mut repository = ConfigRepository::new(settings(None), true, false).unwrap();
    let files = dir(&[("other.yml", "a: 1\n")]);
    assert_eq!(
        repository.get_config("myapp", "dev", "main", &no_mirror(), &files).unwrap_err(),
        RepositoryError::NotFound
    );
    assert!(repository.lookup("myapp", "dev", "main").is_none());
}

#[test]
fn cache_coherency_until_refresh() {
    let mut repository = ConfigRepository::new(settings(None), true, false).unwrap();
    let before = dir(&[("application.yml", "v: 1\n")]);
    let after = dir(&[("application.yml", "v: 2\n")]);
    let first = repository.get_config("application", "", "main", &no_mirror(), &before).unwrap();
    let second = repository.get_config("application", "", "main", &no_mirror(), &after).unwrap();
    assert_eq!(first.property_sources[0].source.get("v"), Some(&number(1)));
    assert_eq!(second.property_sources[0].source.get("v"), Some(&number(1)));
    assert_eq!(second.name, first.name);
    assert_eq!(second.profiles, first.profiles);
    assert_eq!(second.label, first.label);
    assert_eq!(second.property_sources.len(), first.property_sources.len());
    assert!(repository.refresh().is_none());
    assert!(repository.lookup("application", "", "main").is_none());
    assert_eq!(repository.complete_refresh(false), Ok(()));
    let third = repository.get_config("application", "", "main", &no_mirror(), &after).unwrap();
    assert_eq!(third.property_sources[0].source.get("v"), Some(&number(2)));
}

#[test]
fn cache_key_is_the_whole_triple() {
    assert_eq!(ConfigRepository::request_key("app", "dev,prod", "main"), "app:dev,prod:main");
    let mut repository = ConfigRepository::new(settings(None), true, false).unwrap();
    let files = dir(&[("application.yml", "v: 1\n")]);
    repository.get_config("application", "dev", "main", &no_mirror(), &files).unwrap();
    assert!(repository.lookup("application", "dev", "main").is_some());
    assert!(repository.lookup("application", "dev", "other").is_none());
    assert!(repository.lookup("application", "", "main").is_none());
}

#[test]
fn fallback_when_git_is_unreachable() {
    let mut repository =
        ConfigRepository::new(settings(Some("https://example.invalid/repo.git")), true, true)
            .unwrap();
    assert!(repository.git_repo().is_some());
    let files = dir(&[("application.yml", "from: files\n")]);
    let config = repository.get_config("application", "", "main", &no_mirror(), &files).unwrap();
    assert_eq!(config.property_sources.len(), 1);
    assert_eq!(
        config.property_sources[0].source.get("from"),
        Some(&ConfigValue::Text("files".to_string()))
    );
}

#[test]
fn git_is_preferred_when_it_answers() {
    let mut repository =
        ConfigRepository::new(settings(Some("https://example.invalid/repo.git")), true, true)
            .unwrap();
    let files = dir(&[("application.yml", "from: files\n")]);
    let mirror = Mirror { checkout: Checkout::Moved, tree: dir(&[("application.yml", "from: git\n")]) };
    let config = repository.get_config("application", "", "main", &mirror, &files).unwrap();
    assert_eq!(
        config.property_sources[0].source.get("from"),
        Some(&ConfigValue::Text("git".to_string()))
    );
    let stale = Mirror { checkout: Checkout::Kept, tree: dir(&[("application.yml", "from: stale\n")]) };
    let config = repository.get_config("application", "", "nolabel", &stale, &files).unwrap();
    assert_eq!(
        config.property_sources[0].source.get("from"),
        Some(&ConfigValue::Text("stale".to_string()))
    );
}

#[test]
fn git_without_match_falls_back_to_files() {
    let mut repository =
        ConfigRepository::new(settings(Some("https://example.invalid/repo.git")), true, true)
            .unwrap();
    let files = dir(&[("application.yml", "from: files\n")]);
    let mirror = Mirror { checkout: Checkout::Moved, tree: Directory::new() };
    let config = repository.get_config("application", "", "main", &mirror, &files).unwrap();
    assert_eq!(
        config.property_sources[0].source.get("from"),
        Some(&ConfigValue::Text("files".to_string()))
    );
    let empty = Directory::new();
    assert_eq!(
        repository.get_config("other", "", "main", &mirror, &empty).unwrap_err(),
        RepositoryError::NotFound
    );
}

#[test]
fn backend_unavailable_when_git_fails_and_files_match_nothing() {
    let mut repository =
        ConfigRepository::new(settings(Some("https://example.invalid/repo.git")), true, true)
            .unwrap();
    assert_eq!(
        repository
            .get_config("application", "", "main", &no_mirror(), &Directory::new())
            .unwrap_err(),
        RepositoryError::BackendUnavailable
    );
}

#[test]
fn mirror_is_ignored_without_git() {
    let mut repository = ConfigRepository::new(settings(None), true, false).unwrap();
    assert!(repository.git_repo().is_none());
    let mirror = Mirror { checkout: Checkout::Moved, tree: dir(&[("application.yml", "from: git\n")]) };
    assert_eq!(
        repository.get_config("application", "", "main", &mirror, &Directory::new()).unwrap_err(),
        RepositoryError::NotFound
    );
}

#[test]
fn repository_needs_its_base_directory_only() {
    assert!(matches!(
        ConfigRepository::new(settings(None), false, true),
        Err(RepositoryError::BackendUnavailable)
    ));
    assert!(ConfigRepository::new(settings(Some("uri")), false, true).is_err());
    assert!(ConfigRepository::new(settings(Some("uri")), true, true).is_ok());
    assert!(ConfigRepository::new(settings(None), true, false).is_ok());
    let without_clone = ConfigRepository::new(settings(Some("uri")), true, false).unwrap();
    assert!(without_clone.git_repo().is_none());
    assert_eq!(without_clone.config().git_uri.as_deref(), Some("uri"));
    assert_eq!(without_clone.file_repo().base_path(), "./configs");
    assert!(without_clone.lookup("application", "", "main").is_none());
}

#[test]
fn engine_comes_up_and_falls_back_when_the_clone_could_not_be_made() {
    let mut repository =
        ConfigRepository::new(settings(Some("https://example.invalid/repo.git")), true, false)
            .unwrap();
    let files = dir(&[("application.yml", "from: files\n")]);
    // Whatever the mirror is said to hold, it counts as out of reach.
    let mirror = Mirror { checkout: Checkout::Moved, tree: dir(&[("application.yml", "from: git\n")]) };
    let config = repository.get_config("application", "", "main", &mirror, &files).unwrap();
    assert_eq!(
        config.property_sources[0].source.get("from"),
        Some(&ConfigValue::Text("files".to_string()))
    );
    assert_eq!(
        repository.get_config("other", "", "main", &mirror, &Directory::new()).unwrap_err(),
        RepositoryError::BackendUnavailable
    );
    assert!(repository.refresh().is_none());
    assert!(repository.lookup("application", "", "main").is_none());
    assert_eq!(repository.complete_refresh(true), Err(RepositoryError::BackendUnavailable));
    assert_eq!(repository.complete_refresh(false), Err(RepositoryError::BackendUnavailable));
}

#[test]
fn git_backend_carries_the_configured_remote_and_login() {
    let mut config = settings(Some("https://example.invalid/repo.git"));
    config.git_username = Some("user".to_string());
    config.git_password = Some("pass".to_string());
    let mut repository = ConfigRepository::new(config, true, true).unwrap();
    let git = repository.git_repo().unwrap();
    assert_eq!(git.git_uri(), "https://example.invalid/repo.git");
    assert_eq!(git.repo_path(), "./git-config-repo");
    let credentials = git.credentials().unwrap();
    assert_eq!((credentials.username.as_str(), credentials.password.as_str()), ("user", "pass"));
    let fetch = repository.refresh().unwrap();
    assert_eq!(fetch.remote, "origin");
    assert_eq!(fetch.refspec, "refs/heads/*:refs/remotes/origin/*");
    let credentials = fetch.credentials.unwrap();
    assert_eq!((credentials.username.as_str(), credentials.password.as_str()), ("user", "pass"));
    assert_eq!(repository.git_repo().unwrap().git_uri(), "https://example.invalid/repo.git");
}

#[test]
fn cache_key_is_shared_by_coordinates_that_differ_in_their_colons() {
    assert_eq!(
        ConfigRepository::request_key("a:b", "c", "d"),
        ConfigRepository::request_key("a", "b:c", "d")
    );
    assert_ne!(
        ConfigRepository::request_key("a", "b", "c"),
        ConfigRepository::request_key("a", "c", "b")
    );
}

#[test]
fn refresh_clears_first_and_surfaces_a_failed_pull() {
    let mut with_git = ConfigRepository::new(settings(Some("uri")), true, true).unwrap();
    let mirror = Mirror { checkout: Checkout::Moved, tree: dir(&[("application.yml", "a: 1\n")]) };
    with_git.get_config("application", "", "main", &mirror, &Directory::new()).unwrap();
    assert!(with_git.lookup("application", "", "main").is_some());
    assert!(with_git.refresh().is_some());
    assert!(with_git.lookup("application", "", "main").is_none());
    assert_eq!(with_git.complete_refresh(false), Err(RepositoryError::BackendUnavailable));
    assert_eq!(with_git.complete_refresh(true), Ok(()));
    let mut without = ConfigRepository::new(settings(None), true, false).unwrap();
    assert!(without.refresh().is_none());
    assert_eq!(without.complete_refresh(false), Ok(()));
    assert_eq!(without.complete_refresh(true), Ok(()));
}

#[test]
fn git_backend_rules() {
    assert_eq!(GitRepository::branch_reference("main"), "refs/remotes/origin/main");
    assert_eq!(GitRepository::clone_path(), "./git-config-repo");
    assert!(matches!(GitRepository::startup(true, Some("u"), Some("p")), Startup::Open));
    assert!(matches!(
        GitRepository::startup(false, Some("u"), Some("p")),
        Startup::Clone { credentials: Some(c) } if c.username == "u" && c.password == "p"
    ));
    assert!(matches!(
        GitRepository::startup(false, Some("u"), None),
        Startup::Clone { credentials: None }
    ));
    assert!(GitRepository::new("uri", None, None, false).is_err());
    let git = GitRepository::new("uri", Some("u"), Some("p"), true).unwrap();
    assert_eq!(git.git_uri(), "uri");
    assert_eq!(git.repo_path(), "./git-config-repo");
    let fetch = git.fetch_request();
    assert_eq!(fetch.remote, "origin");
    assert_eq!(fetch.refspec, "refs/heads/*:refs/remotes/origin/*");
    assert_eq!(fetch.credentials.unwrap().username, "u");
    assert_eq!(git.pull(true), Ok(()));
    assert_eq!(git.pull(false), Err(RepositoryError::BackendUnavailable));
    assert_eq!(git.checkout_label(Checkout::Kept), Ok(()));
    assert_eq!(git.checkout_label(Checkout::Moved), Ok(()));
    assert_eq!(git.checkout_label(Checkout::Failed), Err(RepositoryError::BackendUnavailable));
    let tree = dir(&[("application.yml", "a: 1\n")]);
    assert!(git.get_config(Checkout::Failed, &tree, "application", "", "main").is_err());
    let config = git.get_config(Checkout::Kept, &tree, "application", "", "main").unwrap();
    assert_eq!(config.property_sources.len(), 1);
}

#[test]
fn candidates_list_every_probe_in_order() {
    assert_eq!(
        probed_names("myapp", "dev,prod"),
        vec!["application", "application-dev", "application-prod", "myapp", "myapp-dev", "myapp-prod"]
    );
    assert_eq!(probed_names("application", ""), vec!["application", "application-"]);
    assert_eq!(
        candidates("application", "dev"),
        vec![
            "application.yml",
            "application.yaml",
            "application.properties",
            "application.json",
            "application-dev.yml",
            "application-dev.yaml",
            "application-dev.properties",
            "application-dev.json",
        ]
    );
    assert_eq!(candidates("app", "a, b").len(), 24);
}
