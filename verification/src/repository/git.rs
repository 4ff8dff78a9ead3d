//! The git-mirrored backend: a local clone that is fetched and checked out,
//! and read like any other directory.

use crate::error::RepositoryError;
use crate::models::ConfigResponse;
use crate::repository::directory::{Directory, FileView};
use crate::repository::file::{resolution, FileRepository};
use crate::text::{borrowed_text, optional_text, owned_text};
use vstd::prelude::*;

verus! {

/// A user name with its password.
#[derive(Debug)]
pub struct Credentials {
    pub username: String,
    pub password: String,
}

/// The texts of a pair of credentials.
pub open spec fn credential_texts(credentials: Option<Credentials>) -> Option<
    (Seq<char>, Seq<char>),
> {
    match credentials {
        Some(c) => Some((c.username@, c.password@)),
        None => None,
    }
}

/// The credentials that a user name and a password make: both or none.
pub open spec fn paired(username: Option<Seq<char>>, password: Option<Seq<char>>) -> Option<
    (Seq<char>, Seq<char>),
> {
    match (username, password) {
        (Some(u), Some(p)) => Some((u, p)),
        _ => None,
    }
}

/// How the local clone comes to be at start-up.
#[derive(Debug)]
pub enum Startup {
    /// The clone is there: open it.
    Open,
    /// There is no clone: make one from the remote.
    Clone { credentials: Option<Credentials> },
}

/// How checking out a label went.
#[derive(Clone, Copy, Debug, PartialEq, Eq, Structural)]
pub enum Checkout {
    /// The label names a remote-tracking branch: `HEAD` was detached at its
    /// commit and the working tree forced to it.
    Moved,
    /// The label names no remote-tracking branch: the working tree stays as
    /// it was.
    Kept,
    /// The clone could not be opened, or moving to the branch failed.
    Failed,
}

/// What a fetch has to ask for.
#[derive(Debug)]
pub struct Fetch {
    pub remote: String,
    pub refspec: String,
    pub credentials: Option<Credentials>,
}

/// The git-mirrored backend.
#[derive(Debug)]
pub struct GitRepository {
    repo_path: String,
    git_uri: String,
    username: Option<String>,
    password: Option<String>,
    file_repo: FileRepository,
}

fn pair_credentials(username: Option<&str>, password: Option<&str>) -> (out: Option<Credentials>)
    ensures
        credential_texts(out) == paired(
            match username {
                Some(u) => Some(u@),
                None => None,
            },
            match password {
                Some(p) => Some(p@),
                None => None,
            },
        ),
{
    match (username, password) {
        (Some(u), Some(p)) => Some(Credentials { username: u.to_owned(), password: p.to_owned() }),
        _ => None,
    }
}

impl GitRepository {
    /// Where the local clone lives.
    pub fn clone_path() -> (out: &'static str)
        ensures
            out@ == "./git-config-repo"@,
    {
        "./git-config-repo"
    }

    /// The remote that is fetched from.
    pub fn remote_name() -> (out: &'static str)
        ensures
            out@ == "origin"@,
    {
        "origin"
    }

    /// The refspec that a fetch asks for: every branch of the remote, into
    /// its remote-tracking reference.
    pub fn fetch_refspec() -> (out: &'static str)
        ensures
            out@ == "refs/heads/*:refs/remotes/origin/*"@,
    {
        "refs/heads/*:refs/remotes/origin/*"
    }

    /// The remote-tracking reference that a label stands for.
    pub open spec fn branch_name(label: Seq<char>) -> Seq<char> {
        "refs/remotes/origin/"@ + label
    }

    /// The remote-tracking reference that a label stands for.
    pub fn branch_reference(label: &str) -> (out: String)
        ensures
            out@ == Self::branch_name(label@),
    {
        let mut out = "refs/remotes/origin/".to_owned();
        out.append(label);
        out
    }

    /// What start-up has to do: open the clone where there is one, else
    /// clone the remote, with credentials only where both a user name and a
    /// password are given.
    pub fn startup(clone_exists: bool, username: Option<&str>, password: Option<&str>) -> (out:
        Startup)
        ensures
            clone_exists ==> out is Open,
            !clone_exists ==> out is Clone && credential_texts(out->credentials) == paired(
                match username {
                    Some(u) => Some(u@),
                    None => None,
                },
                match password {
                    Some(p) => Some(p@),
                    None => None,
                },
            ),
    {
        if clone_exists {
            Startup::Open
        } else {
            Startup::Clone { credentials: pair_credentials(username, password) }
        }
    }

    /// The remote that the backend mirrors.
    pub closed spec fn uri(&self) -> Seq<char> {
        self.git_uri@
    }

    /// The user name and password that the backend was given.
    pub closed spec fn login(&self) -> (Option<Seq<char>>, Option<Seq<char>>) {
        (optional_text(self.username), optional_text(self.password))
    }

    /// The backend over the local clone, with a filesystem backend rooted at
    /// the clone to read the working tree. `prepared` says whether start-up
    /// got the clone opened or made: the backend comes into being exactly
    /// when it did.
    pub fn new(git_uri: &str, username: Option<&str>, password: Option<&str>, prepared: bool) -> (out:
        Result<GitRepository, RepositoryError>)
        ensures
            match out {
                Ok(repository) => {
                    &&& prepared
                    &&& repository.clone_root() == "./git-config-repo"@
                    &&& repository.tree_root() == "./git-config-repo"@
                    &&& repository.uri() == git_uri@
                    &&& repository.login().0 == match username {
                        Some(u) => Some(u@),
                        None => None,
                    }
                    &&& repository.login().1 == match password {
                        Some(p) => Some(p@),
                        None => None,
                    }
                },
                Err(e) => !prepared && e == RepositoryError::BackendUnavailable,
            },
    {
        if !prepared {
            return Err(RepositoryError::BackendUnavailable);
        }
        match FileRepository::new(Self::clone_path(), true) {
            Ok(file_repo) => Ok(
                GitRepository {
                    repo_path: Self::clone_path().to_owned(),
                    git_uri: git_uri.to_owned(),
                    username: owned_text(username),
                    password: owned_text(password),
                    file_repo,
                },
            ),
            Err(e) => Err(e),
        }
    }

    /// Where the local clone lives.
    pub closed spec fn clone_root(&self) -> Seq<char> {
        self.repo_path@
    }

    /// Where the filesystem backend that reads the working tree is rooted.
    pub closed spec fn tree_root(&self) -> Seq<char> {
        self.file_repo.root()
    }

    /// Where the local clone lives.
    pub fn repo_path(&self) -> (out: &str)
        ensures
            out@ == self.clone_root(),
    {
        self.repo_path.as_str()
    }

    /// The remote that the backend mirrors.
    pub fn git_uri(&self) -> (out: &str)
        ensures
            out@ == self.uri(),
    {
        self.git_uri.as_str()
    }

    /// The credentials to meet the remote with: both parts or none.
    pub fn credentials(&self) -> (out: Option<Credentials>)
        ensures
            credential_texts(out) == paired(self.login().0, self.login().1),
    {
        pair_credentials(borrowed_text(&self.username), borrowed_text(&self.password))
    }

    /// What a fetch has to ask for: all branches of `origin`, into their
    /// remote-tracking references. A fetch moves no working tree.
    pub fn fetch_request(&self) -> (out: Fetch)
        ensures
            out.remote@ == "origin"@,
            out.refspec@ == "refs/heads/*:refs/remotes/origin/*"@,
            credential_texts(out.credentials) == paired(self.login().0, self.login().1),
    {
        Fetch {
            remote: Self::remote_name().to_owned(),
            refspec: Self::fetch_refspec().to_owned(),
            credentials: self.credentials(),
        }
    }

    /// What follows from a fetch: a failed one is surfaced.
    pub fn pull(&self, fetched: bool) -> (out: Result<(), RepositoryError>)
        ensures
            out == if fetched {
                Ok::<(), RepositoryError>(())
            } else {
                Err::<(), RepositoryError>(RepositoryError::BackendUnavailable)
            },
    {
        if fetched {
            Ok(())
        } else {
            Err(RepositoryError::BackendUnavailable)
        }
    }

    /// What follows from a checkout: a label that names nothing is no
    /// failure, the working tree then stays at what was checked out last.
    pub fn checkout_label(&self, checkout: Checkout) -> (out: Result<(), RepositoryError>)
        ensures
            out == Self::checked_out(checkout),
    {
        match checkout {
            Checkout::Failed => Err(RepositoryError::BackendUnavailable),
            _ => Ok(()),
        }
    }

    /// What follows from a checkout.
    pub open spec fn checked_out(checkout: Checkout) -> Result<(), RepositoryError> {
        if checkout == Checkout::Failed {
            Err(RepositoryError::BackendUnavailable)
        } else {
            Ok(())
        }
    }

    /// What the mirror resolves to once `label` was checked out: nothing
    /// where the checkout failed, else what the working tree holds.
    pub open spec fn mirrored(
        checkout: Checkout,
        tree: Map<Seq<char>, FileView>,
        application: Seq<char>,
        profile: Seq<char>,
        label: Seq<char>,
    ) -> Result<crate::models::ConfigResponseView, RepositoryError> {
        if checkout == Checkout::Failed {
            Err(RepositoryError::BackendUnavailable)
        } else {
            Ok(resolution(tree, application, profile, label))
        }
    }

    /// Resolves a request against the working tree `tree` as it stands after
    /// the checkout of `label`, whose outcome is `checkout`.
    pub fn get_config(
        &self,
        checkout: Checkout,
        tree: &Directory,
        application: &str,
        profile: &str,
        label: &str,
    ) -> (out: Result<ConfigResponse, RepositoryError>)
        ensures
            match out {
                Ok(r) => Self::mirrored(checkout, tree@, application@, profile@, label@) == Ok::<
                    crate::models::ConfigResponseView,
                    RepositoryError,
                >(r@),
                Err(e) => Self::mirrored(checkout, tree@, application@, profile@, label@) == Err::<
                    crate::models::ConfigResponseView,
                    RepositoryError,
                >(e),
            },
    {
        match self.checkout_label(checkout) {
            Ok(()) => self.file_repo.get_config(tree, application, profile, label),
            Err(e) => Err(e),
        }
    }
}

} // verus!
