//! The client side: where a configuration is fetched from, and what is made
//! of the answer.

pub mod builder;
pub mod error;
pub mod report;
pub mod source;

use crate::client::error::{ConfigError, ConfigErrorView};
use crate::client::source::{response_view, text_or_empty, ConfigSource};
use crate::parser::{json_document, parse, Format};
use crate::text::{from_chars, slice_chars, to_chars};
use crate::value::ConfigValue;
use vstd::prelude::*;

verus! {

/// The coordinates of one application at one configuration server.
#[derive(Debug)]
pub struct ConfigClient {
    server_url: String,
    application: String,
    profile: String,
    label: String,
}

/// The mathematical content of a [`ConfigClient`].
pub struct ConfigClientView {
    pub server_url: Seq<char>,
    pub application: Seq<char>,
    pub profile: Seq<char>,
    pub label: Seq<char>,
}

impl View for ConfigClient {
    type V = ConfigClientView;

    closed spec fn view(&self) -> ConfigClientView {
        ConfigClientView {
            server_url: self.server_url@,
            application: self.application@,
            profile: self.profile@,
            label: self.label@,
        }
    }
}

/// `s` without the slashes at its end.
pub open spec fn without_trailing_slashes(s: Seq<char>) -> Seq<char>
    decreases s.len(),
{
    if s.len() > 0 && s.last() == '/' {
        without_trailing_slashes(s.drop_last())
    } else {
        s
    }
}

proof fn lemma_trailing_slashes(s: Seq<char>, n: int)
    requires
        0 <= n <= s.len(),
        forall|j: int| n <= j < s.len() ==> s[j] == '/',
    ensures
        without_trailing_slashes(s) == without_trailing_slashes(s.take(n)),
    decreases s.len() - n,
{
    if n == s.len() {
        assert(s.take(n) =~= s);
    } else {
        lemma_trailing_slashes(s.drop_last(), n);
        assert(s.drop_last().take(n) =~= s.take(n));
    }
}

/// Whether a status says that the request succeeded.
pub open spec fn is_success(status: u16) -> bool {
    200 <= status < 300
}

/// The message of an answer whose body is no JSON document.
pub open spec fn undecodable() -> Seq<char> {
    "error decoding response body"@
}

/// What the body of an answer amounts to once its status is looked at: the
/// document in it, the status where it is no success, or the news that the
/// body is no JSON.
pub open spec fn answer_document(status: u16, body: Seq<char>) -> Result<
    crate::value::Tree,
    ConfigErrorView,
> {
    if !is_success(status) {
        Err(ConfigErrorView::Http(status))
    } else {
        match json_document(body) {
            Ok(tree) => Ok(tree),
            Err(_) => Err(ConfigErrorView::Request(undecodable())),
        }
    }
}

fn read_answer(status: u16, body: &str) -> (out: Result<ConfigValue, ConfigError>)
    ensures
        match out {
            Ok(tree) => answer_document(status, body@) == Ok::<
                crate::value::Tree,
                ConfigErrorView,
            >(tree@),
            Err(e) => answer_document(status, body@) == Err::<
                crate::value::Tree,
                ConfigErrorView,
            >(e@),
        },
{
    if !(200 <= status && status < 300) {
        return Err(ConfigError::Http(status));
    }
    match parse(body, Format::Json) {
        Ok(tree) => Ok(tree),
        Err(_) => Err(ConfigError::Request("error decoding response body".to_owned())),
    }
}

fn read_member(status: u16, body: &str, name: &str) -> (out: Result<String, ConfigError>)
    ensures
        match out {
            Ok(text) => answer_document(status, body@) is Ok && text@ == text_or_empty(
                answer_document(status, body@)->Ok_0.member(name@),
            ),
            Err(e) => answer_document(status, body@) == Err::<
                crate::value::Tree,
                ConfigErrorView,
            >(e@),
        },
{
    match read_answer(status, body) {
        Ok(tree) => {
            let text = match tree.get(name) {
                Some(member) => match member.as_str() {
                    Some(text) => text.to_owned(),
                    None => String::new(),
                },
                None => String::new(),
            };
            Ok(text)
        },
        Err(e) => Err(e),
    }
}

impl ConfigClient {
    /// The address of the server without the slashes at its end.
    pub open spec fn base_url(self) -> Seq<char> {
        without_trailing_slashes(self@.server_url)
    }

    /// The address under which the server keeps this client's
    /// configuration.
    pub open spec fn config_address(self) -> Seq<char> {
        self.base_url() + seq!['/'] + self@.application + seq!['/'] + self@.profile + seq!['/']
            + self@.label
    }

    /// The address of the service called `name` at the server.
    pub open spec fn service_address(self, name: Seq<char>) -> Seq<char> {
        self.base_url() + seq!['/'] + name
    }

    fn base(&self) -> (out: String)
        ensures
            out@ == self.base_url(),
    {
        let chars = to_chars(self.server_url.as_str());
        let mut end: usize = chars.len();
        while end > 0 && chars[end - 1] == '/'
            invariant
                end <= chars.len(),
                forall|j: int| end <= j < chars.len() ==> chars@[j] == '/',
            decreases end,
        {
            end -= 1;
        }
        proof {
            lemma_trailing_slashes(chars@, end as int);
            assert(chars@.subrange(0, end as int) =~= chars@.take(end as int));
        }
        from_chars(&slice_chars(&chars, 0, end))
    }

    /// The address to fetch the configuration from.
    pub fn config_url(&self) -> (out: String)
        ensures
            out@ == self.config_address(),
    {
        let mut out = self.base();
        out.push('/');
        out.append(self.application.as_str());
        out.push('/');
        out.append(self.profile.as_str());
        out.push('/');
        out.append(self.label.as_str());
        assert(out@ =~= self.config_address());
        out
    }

    fn service_url(&self, name: &str) -> (out: String)
        ensures
            out@ == self.service_address(name@),
    {
        let mut out = self.base();
        out.push('/');
        out.append(name);
        assert(out@ =~= self.service_address(name@));
        out
    }

    /// The address to send a value for encryption to.
    pub fn encrypt_url(&self) -> (out: String)
        ensures
            out@ == self.service_address("encrypt"@),
    {
        self.service_url("encrypt")
    }

    /// The address to send a value for decryption to.
    pub fn decrypt_url(&self) -> (out: String)
        ensures
            out@ == self.service_address("decrypt"@),
    {
        self.service_url("decrypt")
    }

    /// The address to ask the server for a refresh at.
    pub fn refresh_url(&self) -> (out: String)
        ensures
            out@ == self.service_address("refresh"@),
    {
        self.service_url("refresh")
    }

    /// What the answer to a fetch amounts to: the configuration in its
    /// body, `Http` with the status where that is no success, `Request`
    /// where the body is no JSON.
    pub fn fetch_config(&self, status: u16, body: &str) -> (out: Result<ConfigSource, ConfigError>)
        ensures
            match out {
                Ok(source) => answer_document(status, body@) is Ok && source@ == response_view(
                    answer_document(status, body@)->Ok_0,
                ),
                Err(e) => answer_document(status, body@) == Err::<
                    crate::value::Tree,
                    ConfigErrorView,
                >(e@),
            },
    {
        match read_answer(status, body) {
            Ok(tree) => Ok(ConfigSource::from_response(&tree)),
            Err(e) => Err(e),
        }
    }

    /// What the answer to an encryption request amounts to: the string
    /// under `encrypted` in its body, the empty string where there is none.
    pub fn encrypt_value(&self, status: u16, body: &str) -> (out: Result<String, ConfigError>)
        ensures
            match out {
                Ok(text) => answer_document(status, body@) is Ok && text@ == text_or_empty(
                    answer_document(status, body@)->Ok_0.member("encrypted"@),
                ),
                Err(e) => answer_document(status, body@) == Err::<
                    crate::value::Tree,
                    ConfigErrorView,
                >(e@),
            },
    {
        read_member(status, body, "encrypted")
    }

    /// What the answer to a decryption request amounts to: the string
    /// under `decrypted` in its body, the empty string where there is none.
    pub fn decrypt_value(&self, status: u16, body: &str) -> (out: Result<String, ConfigError>)
        ensures
            match out {
                Ok(text) => answer_document(status, body@) is Ok && text@ == text_or_empty(
                    answer_document(status, body@)->Ok_0.member("decrypted"@),
                ),
                Err(e) => answer_document(status, body@) == Err::<
                    crate::value::Tree,
                    ConfigErrorView,
                >(e@),
            },
    {
        read_member(status, body, "decrypted")
    }

    /// What the answer to a refresh request amounts to: success, or `Http`
    /// with a status that is none.
    pub fn refresh_server_config(&self, status: u16) -> (out: Result<(), ConfigError>)
        ensures
            match out {
                Ok(_) => is_success(status),
                Err(e) => !is_success(status) && e@ == ConfigErrorView::Http(status),
            },
    {
        if 200 <= status && status < 300 {
            Ok(())
        } else {
            Err(ConfigError::Http(status))
        }
    }

    /// A client for `application` with `profile` at `label`, served from
    /// `server_url`.
    pub fn new(server_url: String, application: String, profile: String, label: String) -> (out:
        ConfigClient)
        ensures
            out@ == (ConfigClientView {
                server_url: server_url@,
                application: application@,
                profile: profile@,
                label: label@,
            }),
    {
        ConfigClient { server_url, application, profile, label }
    }

    /// The address of the server.
    pub fn server_url(&self) -> (out: &str)
        ensures
            out@ == self@.server_url,
    {
        self.server_url.as_str()
    }

    /// The name of the application.
    pub fn application(&self) -> (out: &str)
        ensures
            out@ == self@.application,
    {
        self.application.as_str()
    }

    /// The profile list.
    pub fn profile(&self) -> (out: &str)
        ensures
            out@ == self@.profile,
    {
        self.profile.as_str()
    }

    /// The label.
    pub fn label(&self) -> (out: &str)
        ensures
            out@ == self@.label,
    {
        self.label.as_str()
    }
}

} // verus!
