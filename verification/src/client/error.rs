//! What can go wrong between a client and its server.

use crate::text::{decimal, push_decimal};
use vstd::prelude::*;

verus! {

/// The failures of a client.
#[derive(Debug)]
pub enum ConfigError {
    /// The request did not get through, or its answer could not be read.
    Request(String),
    /// The server answered with a status that is no success.
    Http(u16),
    /// The answer was not what was expected.
    Parse(String),
    /// What was asked for is not there.
    NotFound(String),
}

/// The mathematical content of a [`ConfigError`].
pub enum ConfigErrorView {
    Request(Seq<char>),
    Http(u16),
    Parse(Seq<char>),
    NotFound(Seq<char>),
}

impl View for ConfigError {
    type V = ConfigErrorView;

    open spec fn view(&self) -> ConfigErrorView {
        match self {
            ConfigError::Request(message) => ConfigErrorView::Request(message@),
            ConfigError::Http(status) => ConfigErrorView::Http(*status),
            ConfigError::Parse(message) => ConfigErrorView::Parse(message@),
            ConfigError::NotFound(resource) => ConfigErrorView::NotFound(resource@),
        }
    }
}

impl ConfigErrorView {
    /// The error in words.
    pub open spec fn message(self) -> Seq<char> {
        match self {
            ConfigErrorView::Request(message) => "Request error: "@ + message,
            ConfigErrorView::Http(status) => "HTTP error: "@ + decimal(status as nat),
            ConfigErrorView::Parse(message) => "Parse error: "@ + message,
            ConfigErrorView::NotFound(resource) => "Not found: "@ + resource,
        }
    }
}

impl ConfigError {
    /// The error in words.
    pub fn message(&self) -> (out: String)
        ensures
            out@ == self@.message(),
    {
        match self {
            ConfigError::Request(message) => {
                let mut out = "Request error: ".to_owned();
                out.append(message.as_str());
                out
            },
            ConfigError::Http(status) => {
                let mut out = "HTTP error: ".to_owned();
                push_decimal(&mut out, *status as u64);
                out
            },
            ConfigError::Parse(message) => {
                let mut out = "Parse error: ".to_owned();
                out.append(message.as_str());
                out
            },
            ConfigError::NotFound(resource) => {
                let mut out = "Not found: ".to_owned();
                out.append(resource.as_str());
                out
            },
        }
    }
}

} // verus!
