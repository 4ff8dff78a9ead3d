//! Building a client step by step, with defaults for what is left out.

use crate::client::{ConfigClient, ConfigClientView};
use crate::text::optional_text;
use vstd::prelude::*;

verus! {

/// A client in the making.
#[derive(Debug)]
pub struct ConfigClientBuilder {
    server_url: Option<String>,
    application: Option<String>,
    profile: Option<String>,
    label: Option<String>,
}

/// What has been set on a builder so far.
pub struct ConfigClientBuilderView {
    pub server_url: Option<Seq<char>>,
    pub application: Option<Seq<char>>,
    pub profile: Option<Seq<char>>,
    pub label: Option<Seq<char>>,
}

/// The text that was set, or the default.
pub open spec fn or_default(set: Option<Seq<char>>, default: Seq<char>) -> Seq<char> {
    match set {
        Some(text) => text,
        None => default,
    }
}

fn take_or(set: Option<String>, default: &str) -> (out: String)
    ensures
        out@ == or_default(optional_text(set), default@),
{
    match set {
        Some(text) => text,
        None => default.to_owned(),
    }
}

impl View for ConfigClientBuilder {
    type V = ConfigClientBuilderView;

    closed spec fn view(&self) -> ConfigClientBuilderView {
        ConfigClientBuilderView {
            server_url: optional_text(self.server_url),
            application: optional_text(self.application),
            profile: optional_text(self.profile),
            label: optional_text(self.label),
        }
    }
}

impl ConfigClientBuilder {
    /// A builder on which nothing is set.
    pub fn new() -> (out: ConfigClientBuilder)
        ensures
            out@ == (ConfigClientBuilderView {
                server_url: None,
                application: None,
                profile: None,
                label: None,
            }),
    {
        ConfigClientBuilder { server_url: None, application: None, profile: None, label: None }
    }

    /// Sets the address of the server.
    pub fn server_url(self, url: &str) -> (out: ConfigClientBuilder)
        ensures
            out@ == (ConfigClientBuilderView { server_url: Some(url@), ..self@ }),
    {
        ConfigClientBuilder {
            server_url: Some(url.to_owned()),
            application: self.application,
            profile: self.profile,
            label: self.label,
        }
    }

    /// Sets the name of the application.
    pub fn application(self, app: &str) -> (out: ConfigClientBuilder)
        ensures
            out@ == (ConfigClientBuilderView { application: Some(app@), ..self@ }),
    {
        ConfigClientBuilder {
            server_url: self.server_url,
            application: Some(app.to_owned()),
            profile: self.profile,
            label: self.label,
        }
    }

    /// Sets the profile list.
    pub fn profile(self, profile: &str) -> (out: ConfigClientBuilder)
        ensures
            out@ == (ConfigClientBuilderView { profile: Some(profile@), ..self@ }),
    {
        ConfigClientBuilder {
            server_url: self.server_url,
            application: self.application,
            profile: Some(profile.to_owned()),
            label: self.label,
        }
    }

    /// Sets the label.
    pub fn label(self, label: &str) -> (out: ConfigClientBuilder)
        ensures
            out@ == (ConfigClientBuilderView { label: Some(label@), ..self@ }),
    {
        ConfigClientBuilder {
            server_url: self.server_url,
            application: self.application,
            profile: self.profile,
            label: Some(label.to_owned()),
        }
    }

    /// The client with what was set, and for the rest the server
    /// `http://localhost:8888`, the application `application`, the profile
    /// `default` and the label `master`.
    pub fn build(self) -> (out: ConfigClient)
        ensures
            out@ == (ConfigClientView {
                server_url: or_default(self@.server_url, "http://localhost:8888"@),
                application: or_default(self@.application, "application"@),
                profile: or_default(self@.profile, "default"@),
                label: or_default(self@.label, "master"@),
            }),
    {
        ConfigClient::new(
            take_or(self.server_url, "http://localhost:8888"),
            take_or(self.application, "application"),
            take_or(self.profile, "default"),
            take_or(self.label, "master"),
        )
    }
}

impl Default for ConfigClientBuilder {
    fn default() -> (out: ConfigClientBuilder)
        ensures
            out@ == (ConfigClientBuilderView {
                server_url: None,
                application: None,
                profile: None,
                label: None,
            }),
    {
        ConfigClientBuilder::new()
    }
}

} // verus!
