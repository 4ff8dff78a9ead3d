//! The server's own settings, and how they are read from the environment.

use crate::text::{
    comma_list, last_named, lemma_last_named, optional_text, owned_text, pair_texts, parse_u16,
    parse_u16_spec, split_comma_list, texts,
};
use vstd::prelude::*;

verus! {

/// The variables of a process environment, as names with their values.
#[derive(Debug)]
pub struct Environment {
    pub variables: Vec<(String, String)>,
}

/// The value that a list of variables gives to `name`. Where a name stands
/// twice, the later entry counts.
pub open spec fn variable(variables: Seq<(String, String)>, name: Seq<char>) -> Option<Seq<char>> {
    last_named(pair_texts(variables), name)
}

impl Environment {
    /// An environment without variables.
    pub fn new() -> (out: Environment)
        ensures
            out.variables@.len() == 0,
    {
        Environment { variables: Vec::new() }
    }

    /// The value of `name`, if it is set.
    pub open spec fn value(&self, name: Seq<char>) -> Option<Seq<char>> {
        variable(self.variables@, name)
    }

    /// Sets `name` to `value`, in place of what it was set to.
    pub fn set(&mut self, name: String, value: String)
        ensures
            final(self).value(name@) == Some(value@),
            forall|other: Seq<char>|
                other != name@ ==> final(self).value(other) == old(self).value(other),
    {
        let ghost before = self.variables@;
        self.variables.push((name, value));
        assert(pair_texts(self.variables@).drop_last() =~= pair_texts(before));
    }

    /// The value of `name`, if it is set.
    pub fn get(&self, name: &str) -> (out: Option<&str>)
        ensures
            match out {
                Some(value) => self.value(name@) == Some(value@),
                None => self.value(name@) is None,
            },
    {
        let wanted = name.to_owned();
        let mut at: usize = self.variables.len();
        while at > 0
            invariant
                at <= self.variables@.len(),
                wanted@ == name@,
                forall|j: int|
                    at <= j < self.variables@.len() ==> self.variables@[j].0@ != name@,
            decreases at,
        {
            at -= 1;
            if self.variables[at].0 == wanted {
                proof {
                    lemma_last_named(pair_texts(self.variables@), name@, at as int);
                }
                return Some(self.variables[at].1.as_str());
            }
        }
        proof {
            lemma_last_named(pair_texts(self.variables@), name@, -1);
        }
        None
    }

    /// The value of `name`, or `default` where it is not set.
    pub open spec fn setting(&self, name: Seq<char>, default: Seq<char>) -> Seq<char> {
        match self.value(name) {
            Some(value) => value,
            None => default,
        }
    }

    /// The value of `name`, or `default` where it is not set.
    pub fn get_or<'a>(&'a self, name: &str, default: &'a str) -> (out: &'a str)
        ensures
            out@ == self.setting(name@, default@),
    {
        match self.get(name) {
            Some(value) => value,
            None => default,
        }
    }
}

/// The settings that the server starts with.
#[derive(Debug)]
pub struct ServerConfig {
    pub server_port: u16,
    pub health_port: u16,
    pub metrics_port: u16,
    pub config_path: String,
    pub git_uri: Option<String>,
    pub git_username: Option<String>,
    pub git_password: Option<String>,
    pub encrypt_key: String,
    pub default_label: String,
    pub search_locations: Vec<String>,
}

/// The mathematical content of a [`ServerConfig`].
pub struct ServerConfigView {
    pub server_port: int,
    pub health_port: int,
    pub metrics_port: int,
    pub config_path: Seq<char>,
    pub git_uri: Option<Seq<char>>,
    pub git_username: Option<Seq<char>>,
    pub git_password: Option<Seq<char>>,
    pub encrypt_key: Seq<char>,
    pub default_label: Seq<char>,
    pub search_locations: Seq<Seq<char>>,
}

impl View for ServerConfig {
    type V = ServerConfigView;

    open spec fn view(&self) -> ServerConfigView {
        ServerConfigView {
            server_port: self.server_port as int,
            health_port: self.health_port as int,
            metrics_port: self.metrics_port as int,
            config_path: self.config_path@,
            git_uri: optional_text(self.git_uri),
            git_username: optional_text(self.git_username),
            git_password: optional_text(self.git_password),
            encrypt_key: self.encrypt_key@,
            default_label: self.default_label@,
            search_locations: texts(self.search_locations@),
        }
    }
}

/// A port setting that does not write a port number.
#[derive(Clone, Copy, Debug, PartialEq, Eq, Structural)]
pub enum ServerConfigError {
    /// `SERVER_PORT` is malformed.
    ServerPort,
    /// `HEALTH_PORT` is malformed.
    HealthPort,
    /// `METRICS_PORT` is malformed.
    MetricsPort,
}

/// The settings that an environment describes. What is not set has its
/// default; a port that is set to anything but a port number is an error,
/// the first of them in the order server, health, metrics.
pub open spec fn settings_of(env: Environment) -> Result<ServerConfigView, ServerConfigError> {
    let server = parse_u16_spec(env.setting("SERVER_PORT"@, "8888"@));
    let health = parse_u16_spec(env.setting("HEALTH_PORT"@, "8889"@));
    let metrics = parse_u16_spec(env.setting("METRICS_PORT"@, "8890"@));
    if server is None {
        Err(ServerConfigError::ServerPort)
    } else if health is None {
        Err(ServerConfigError::HealthPort)
    } else if metrics is None {
        Err(ServerConfigError::MetricsPort)
    } else {
        Ok(
            ServerConfigView {
                server_port: server->Some_0,
                health_port: health->Some_0,
                metrics_port: metrics->Some_0,
                config_path: env.setting("CONFIG_PATH"@, "./configs"@),
                git_uri: env.value("GIT_URI"@),
                git_username: env.value("GIT_USERNAME"@),
                git_password: env.value("GIT_PASSWORD"@),
                encrypt_key: env.setting("ENCRYPT_KEY"@, "default-secret-key-32-characters"@),
                default_label: env.setting("DEFAULT_LABEL"@, "master"@),
                search_locations: comma_list(
                    env.setting("SEARCH_LOCATIONS"@, "classpath:/,classpath:/config/"@),
                ),
            },
        )
    }
}

impl ServerConfig {
    /// Reads the settings from the variables of `env`: `SERVER_PORT`,
    /// `HEALTH_PORT`, `METRICS_PORT`, `CONFIG_PATH`, `GIT_URI`,
    /// `GIT_USERNAME`, `GIT_PASSWORD`, `ENCRYPT_KEY`, `DEFAULT_LABEL` and
    /// `SEARCH_LOCATIONS`, a comma-separated list.
    pub fn from_env(env: &Environment) -> (out: Result<ServerConfig, ServerConfigError>)
        ensures
            match out {
                Ok(config) => settings_of(*env) == Ok::<ServerConfigView, ServerConfigError>(
                    config@,
                ),
                Err(e) => settings_of(*env) == Err::<ServerConfigView, ServerConfigError>(e),
            },
    {
        let server_port = match parse_u16(env.get_or("SERVER_PORT", "8888")) {
            Some(port) => port,
            None => {
                return Err(ServerConfigError::ServerPort);
            },
        };
        let health_port = match parse_u16(env.get_or("HEALTH_PORT", "8889")) {
            Some(port) => port,
            None => {
                return Err(ServerConfigError::HealthPort);
            },
        };
        let metrics_port = match parse_u16(env.get_or("METRICS_PORT", "8890")) {
            Some(port) => port,
            None => {
                return Err(ServerConfigError::MetricsPort);
            },
        };
        Ok(
            ServerConfig {
                server_port,
                health_port,
                metrics_port,
                config_path: env.get_or("CONFIG_PATH", "./configs").to_owned(),
                git_uri: owned_text(env.get("GIT_URI")),
                git_username: owned_text(env.get("GIT_USERNAME")),
                git_password: owned_text(env.get("GIT_PASSWORD")),
                encrypt_key: env.get_or("ENCRYPT_KEY", "default-secret-key-32-characters")
                    .to_owned(),
                default_label: env.get_or("DEFAULT_LABEL", "master").to_owned(),
                search_locations: split_comma_list(
                    env.get_or("SEARCH_LOCATIONS", "classpath:/,classpath:/config/"),
                ),
            },
        )
    }
}

} // verus!
