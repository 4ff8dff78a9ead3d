//! The backends that resolve a configuration, and the facade in front of them.

pub mod cache;
pub mod directory;
pub mod file;
pub mod git;

use crate::config::ServerConfig;
use crate::error::RepositoryError;
use crate::models::{ConfigResponse, ConfigResponseView};
use crate::repository::cache::{cache_clear, cache_contents, cache_get, cache_insert, cache_new};
use crate::repository::directory::{Directory, FileView};
use crate::repository::file::{profile_names, resolution, FileRepository};
use crate::repository::git::{credential_texts, paired, Checkout, Fetch, GitRepository};
use crate::text::{borrowed_text, optional_text};
use dashmap::DashMap;
use vstd::prelude::*;

verus! {

/// The key under which the cache holds what a request resolved to.
pub open spec fn cache_key(application: Seq<char>, profile: Seq<char>, label: Seq<char>) -> Seq<
    char,
> {
    application + seq![':'] + profile + seq![':'] + label
}

/// The state of the git mirror as a request finds it.
#[derive(Debug)]
pub struct Mirror {
    /// How the checkout of the label went.
    pub checkout: Checkout,
    /// The working tree after the checkout.
    pub tree: Directory,
}

/// What a request resolves to afresh. With a git backend, the mirror answers
/// where the checkout went through and at least one source matched. In
/// every other case the base directory answers, where at least one source
/// matched there. Where none did, a failed checkout is surfaced as
/// `BackendUnavailable`, anything else as `NotFound`.
pub open spec fn fresh(
    with_git: bool,
    checkout: Checkout,
    tree: Map<Seq<char>, FileView>,
    files: Map<Seq<char>, FileView>,
    application: Seq<char>,
    profile: Seq<char>,
    label: Seq<char>,
) -> Result<ConfigResponseView, RepositoryError> {
    let mirrored = resolution(tree, application, profile, label);
    let local = resolution(files, application, profile, label);
    if with_git && checkout != Checkout::Failed && mirrored.property_sources.len() > 0 {
        Ok(mirrored)
    } else if local.property_sources.len() > 0 {
        Ok(local)
    } else if with_git && checkout == Checkout::Failed {
        Err(RepositoryError::BackendUnavailable)
    } else {
        Err(RepositoryError::NotFound)
    }
}

/// What a request is answered with: what the cache holds under its key, or
/// else what it resolves to afresh.
pub open spec fn answer(
    cache: Map<Seq<char>, ConfigResponseView>,
    with_git: bool,
    checkout: Checkout,
    tree: Map<Seq<char>, FileView>,
    files: Map<Seq<char>, FileView>,
    application: Seq<char>,
    profile: Seq<char>,
    label: Seq<char>,
) -> Result<ConfigResponseView, RepositoryError> {
    let key = cache_key(application, profile, label);
    if cache.contains_key(key) {
        Ok(cache[key])
    } else {
        fresh(with_git, checkout, tree, files, application, profile, label)
    }
}

/// The cache after a request was answered: a configuration that was handed
/// out stands under the request's key, a failure leaves no trace.
pub open spec fn cache_after(
    cache: Map<Seq<char>, ConfigResponseView>,
    key: Seq<char>,
    answer: Result<ConfigResponseView, RepositoryError>,
) -> Map<Seq<char>, ConfigResponseView> {
    match answer {
        Ok(response) => cache.insert(key, response),
        Err(_) => cache,
    }
}

/// Cache coherency. Of two requests with the same coordinates and no
/// refresh between them, the second is answered as the first where the
/// first was answered with a configuration, whatever the backends hold by
/// then. A first request that failed left nothing in the cache: the second
/// is then resolved afresh, and answered as the first exactly where the
/// backends resolve it alike.
pub proof fn lemma_repeated_request(
    cache: Map<Seq<char>, ConfigResponseView>,
    with_git: bool,
    first: (Checkout, Map<Seq<char>, FileView>, Map<Seq<char>, FileView>),
    second: (Checkout, Map<Seq<char>, FileView>, Map<Seq<char>, FileView>),
    application: Seq<char>,
    profile: Seq<char>,
    label: Seq<char>,
)
    ensures
        ({
            let once = answer(
                cache,
                with_git,
                first.0,
                first.1,
                first.2,
                application,
                profile,
                label,
            );
            let between = cache_after(cache, cache_key(application, profile, label), once);
            let again = answer(
                between,
                with_git,
                second.0,
                second.1,
                second.2,
                application,
                profile,
                label,
            );
            &&& once is Ok ==> again == once
            &&& once is Err ==> again == fresh(
                with_git,
                second.0,
                second.1,
                second.2,
                application,
                profile,
                label,
            )
            &&& first == second ==> again == once
        }),
{
}

/// Refresh. With nothing in the cache, as a refresh leaves it, a request is
/// answered with what the backends hold at that moment.
pub proof fn lemma_after_refresh(
    with_git: bool,
    checkout: Checkout,
    tree: Map<Seq<char>, FileView>,
    files: Map<Seq<char>, FileView>,
    application: Seq<char>,
    profile: Seq<char>,
    label: Seq<char>,
)
    ensures
        answer(Map::empty(), with_git, checkout, tree, files, application, profile, label)
            == fresh(with_git, checkout, tree, files, application, profile, label),
{
}

/// Fallback. Where the git mirror is out of reach and the base directory
/// has at least one matching source, a request is answered with a
/// configuration: the one in the cache, or else the one that the base
/// directory resolves to.
pub proof fn lemma_fallback_to_files(
    cache: Map<Seq<char>, ConfigResponseView>,
    tree: Map<Seq<char>, FileView>,
    files: Map<Seq<char>, FileView>,
    application: Seq<char>,
    profile: Seq<char>,
    label: Seq<char>,
)
    requires
        resolution(files, application, profile, label).property_sources.len() > 0,
    ensures
        ({
            let out = answer(
                cache,
                true,
                Checkout::Failed,
                tree,
                files,
                application,
                profile,
                label,
            );
            &&& out is Ok
            &&& !cache.contains_key(cache_key(application, profile, label)) ==> out->Ok_0
                == resolution(files, application, profile, label)
        }),
{
}

/// Leniency at the facade. A request whose shared default file resolves in
/// the base directory is answered with a configuration, whatever its other
/// candidate files hold and whatever state the mirror is in; without a git
/// backend that configuration has the default file's source.
pub proof fn lemma_malformed_candidate_is_no_failure(
    files: Map<Seq<char>, FileView>,
    checkout: Checkout,
    tree: Map<Seq<char>, FileView>,
    application: Seq<char>,
    profile: Seq<char>,
    label: Seq<char>,
)
    requires
        crate::repository::file::base_outcome(files, "application"@) is Ok,
    ensures
        ({
            let out = fresh(false, checkout, tree, files, application, profile, label);
            &&& fresh(true, checkout, tree, files, application, profile, label) is Ok
            &&& out is Ok
            &&& out->Ok_0.property_sources.contains(
                crate::repository::file::base_outcome(files, "application"@)->Ok_0,
            )
        }),
{
    crate::repository::file::lemma_defaults_survive(files, application, profile, label);
}

/// A remote whose clone is not there. An engine whose remote is configured
/// but whose clone could not be opened or made answers as one whose
/// checkout failed: from the base directory where that has a matching
/// source, with `BackendUnavailable` where it has none.
pub proof fn lemma_missing_clone_falls_back(
    tree: Map<Seq<char>, FileView>,
    files: Map<Seq<char>, FileView>,
    application: Seq<char>,
    profile: Seq<char>,
    label: Seq<char>,
)
    ensures
        fresh(true, Checkout::Failed, tree, files, application, profile, label) == if resolution(
            files,
            application,
            profile,
            label,
        ).property_sources.len() > 0 {
            Ok::<ConfigResponseView, RepositoryError>(
                resolution(files, application, profile, label),
            )
        } else {
            Err::<ConfigResponseView, RepositoryError>(RepositoryError::BackendUnavailable)
        },
{
}

/// Whether a text is free of the colon that joins the parts of a cache key.
pub open spec fn colon_free(text: Seq<char>) -> bool {
    forall|i: int| 0 <= i < text.len() ==> text[i] != ':'
}

/// Whether a configuration is one for coordinates with the key `key`, with
/// an application name and a profile list free of colons.
pub open spec fn stored_for(response: ConfigResponseView, key: Seq<char>) -> bool {
    exists|profile: Seq<char>|
        {
            &&& colon_free(response.name)
            &&& colon_free(profile)
            &&& response.profiles == profile_names(profile)
            &&& #[trigger] cache_key(response.name, profile, response.label) == key
        }
}

/// Whether every entry of a cache stands under the key of its own
/// coordinates.
pub open spec fn coherent(cache: Map<Seq<char>, ConfigResponseView>) -> bool {
    forall|key: Seq<char>| cache.contains_key(key) ==> stored_for(#[trigger] cache[key], key)
}

proof fn lemma_split_at_first(x: Seq<char>, a: Seq<char>, y: Seq<char>, b: Seq<char>)
    requires
        x + seq![':'] + a == y + seq![':'] + b,
        colon_free(x),
        colon_free(y),
    ensures
        x == y,
        a == b,
{
    let left = x + seq![':'] + a;
    let right = y + seq![':'] + b;
    assert(left[x.len() as int] == ':');
    assert(right[y.len() as int] == ':');
    if x.len() < y.len() {
        assert(right[x.len() as int] == y[x.len() as int]);
    } else if y.len() < x.len() {
        assert(left[y.len() as int] == x[y.len() as int]);
    } else {
        assert(x =~= y) by {
            assert forall|i: int| 0 <= i < x.len() implies x[i] == y[i] by {
                assert(left[i] == x[i]);
                assert(right[i] == y[i]);
            }
        }
        assert(a =~= b) by {
            assert(left.len() == x.len() + 1 + a.len());
            assert(right.len() == y.len() + 1 + b.len());
            assert forall|i: int| 0 <= i < a.len() implies a[i] == b[i] by {
                assert(left[x.len() + 1 + i] == a[i]);
                assert(right[y.len() + 1 + i] == b[i]);
            }
        }
    }
}

/// A cache key names one triple of coordinates among those whose
/// application names and profile lists are free of colons.
pub proof fn lemma_key_names_coordinates(
    first: (Seq<char>, Seq<char>, Seq<char>),
    second: (Seq<char>, Seq<char>, Seq<char>),
)
    requires
        cache_key(first.0, first.1, first.2) == cache_key(second.0, second.1, second.2),
        colon_free(first.0),
        colon_free(first.1),
        colon_free(second.0),
        colon_free(second.1),
    ensures
        first == second,
{
    let rest_first = first.1 + seq![':'] + first.2;
    let rest_second = second.1 + seq![':'] + second.2;
    assert(cache_key(first.0, first.1, first.2) =~= first.0 + seq![':'] + rest_first);
    assert(cache_key(second.0, second.1, second.2) =~= second.0 + seq![':'] + rest_second);
    lemma_split_at_first(first.0, rest_first, second.0, rest_second);
    lemma_split_at_first(first.1, first.2, second.1, second.2);
}

/// No entry of other coordinates. As long as every request names an
/// application and a profile list without a colon, every entry of the cache
/// stands under the key of its own coordinates: an empty cache does, and
/// answering such a request keeps it so.
pub proof fn lemma_cache_stays_coherent(
    cache: Map<Seq<char>, ConfigResponseView>,
    with_git: bool,
    checkout: Checkout,
    tree: Map<Seq<char>, FileView>,
    files: Map<Seq<char>, FileView>,
    application: Seq<char>,
    profile: Seq<char>,
    label: Seq<char>,
)
    requires
        coherent(cache),
        colon_free(application),
        colon_free(profile),
    ensures
        coherent(Map::<Seq<char>, ConfigResponseView>::empty()),
        coherent(
            cache_after(
                cache,
                cache_key(application, profile, label),
                answer(cache, with_git, checkout, tree, files, application, profile, label),
            ),
        ),
{
    let key = cache_key(application, profile, label);
    let out = answer(cache, with_git, checkout, tree, files, application, profile, label);
    let after = cache_after(cache, key, out);
    assert forall|other: Seq<char>| after.contains_key(other) implies stored_for(
        #[trigger] after[other],
        other,
    ) by {
        if other == key && out is Ok && !cache.contains_key(key) {
            let stored = out->Ok_0;
            assert(cache_key(stored.name, profile, stored.label) == key);
        } else {
            assert(stored_for(cache[other], other));
        }
    }
}

/// No entry of other coordinates, as a request sees it. In a cache whose
/// entries stand under the keys of their own coordinates, what a request
/// without a colon in its application name and profile list finds under
/// its key is a configuration for that application, those profiles and
/// that label.
pub proof fn lemma_hit_is_for_the_request(
    cache: Map<Seq<char>, ConfigResponseView>,
    application: Seq<char>,
    profile: Seq<char>,
    label: Seq<char>,
)
    requires
        coherent(cache),
        colon_free(application),
        colon_free(profile),
        cache.contains_key(cache_key(application, profile, label)),
    ensures
        ({
            let hit = cache[cache_key(application, profile, label)];
            &&& hit.name == application
            &&& hit.profiles == profile_names(profile)
            &&& hit.label == label
        }),
{
    let key = cache_key(application, profile, label);
    let hit = cache[key];
    assert(stored_for(hit, key));
    let stored = choose|stored: Seq<char>|
        {
            &&& colon_free(hit.name)
            &&& colon_free(stored)
            &&& hit.profiles == profile_names(stored)
            &&& #[trigger] cache_key(hit.name, stored, hit.label) == key
        };
    lemma_key_names_coordinates((hit.name, stored, hit.label), (application, profile, label));
}

/// The facade of the engine: one cache, the filesystem backend and, where a
/// remote was configured, the git backend in front of it.
pub struct ConfigRepository {
    config: ServerConfig,
    cache: DashMap<String, ConfigResponse>,
    file_repo: FileRepository,
    git_repo: Option<GitRepository>,
}

impl ConfigRepository {
    /// What the cache holds.
    pub closed spec fn cached(&self) -> Map<Seq<char>, ConfigResponseView> {
        cache_contents(self.cache)
    }

    /// Whether a remote is configured, so that the git mirror is asked
    /// before the base directory.
    pub open spec fn with_git(&self) -> bool {
        self.settings().git_uri is Some
    }

    /// The backend over the local clone: there is one where start-up got the
    /// clone opened or made.
    pub closed spec fn mirror(&self) -> Option<GitRepository> {
        self.git_repo
    }

    /// How the checkout of a request counts: as it went where the backend
    /// over the clone is there, as failed where it is not.
    pub open spec fn observed(&self, checkout: Checkout) -> Checkout {
        if self.mirror() is Some {
            checkout
        } else {
            Checkout::Failed
        }
    }

    /// The settings that the engine was made with.
    pub closed spec fn settings(&self) -> ServerConfig {
        self.config
    }

    /// The directory that the filesystem backend is rooted at.
    pub closed spec fn base(&self) -> Seq<char> {
        self.file_repo.root()
    }

    /// The engine for `config`, with an empty cache. `created` says whether
    /// the base directory is there: the engine comes into being exactly when
    /// it is. `prepared` says whether the local clone got opened or made,
    /// and counts only where `config` names a remote. Where it did not, the
    /// engine comes up all the same, without a backend over the clone:
    /// every checkout then counts as failed, and requests are answered from
    /// the base directory.
    pub fn new(config: ServerConfig, created: bool, prepared: bool) -> (out: Result<
        ConfigRepository,
        RepositoryError,
    >)
        ensures
            match out {
                Ok(repository) => {
                    &&& created
                    &&& repository.settings() == config
                    &&& repository.base() == config.config_path@
                    &&& repository.cached() == Map::<Seq<char>, ConfigResponseView>::empty()
                    &&& match repository.mirror() {
                        Some(git) => {
                            &&& config.git_uri is Some
                            &&& prepared
                            &&& git.uri() == config.git_uri->Some_0@
                            &&& git.login() == (
                                optional_text(config.git_username),
                                optional_text(config.git_password),
                            )
                            &&& git.clone_root() == "./git-config-repo"@
                            &&& git.tree_root() == "./git-config-repo"@
                        },
                        None => !(config.git_uri is Some && prepared),
                    }
                },
                Err(e) => !created && e == RepositoryError::BackendUnavailable,
            },
    {
        let file_repo = match FileRepository::new(config.config_path.as_str(), created) {
            Ok(file_repo) => file_repo,
            Err(e) => {
                return Err(e);
            },
        };
        let git_repo = match &config.git_uri {
            Some(git_uri) => {
                let username = borrowed_text(&config.git_username);
                let password = borrowed_text(&config.git_password);
                match GitRepository::new(git_uri.as_str(), username, password, prepared) {
                    Ok(git_repo) => Some(git_repo),
                    Err(_) => None,
                }
            },
            None => None,
        };
        Ok(ConfigRepository { config, cache: cache_new(), file_repo, git_repo })
    }

    /// The settings that the engine was made with.
    pub fn config(&self) -> (out: &ServerConfig)
        ensures
            *out == self.settings(),
    {
        &self.config
    }

    /// The filesystem backend.
    pub fn file_repo(&self) -> (out: &FileRepository)
        ensures
            out.root() == self.base(),
    {
        &self.file_repo
    }

    /// The backend over the local clone, where there is one.
    pub fn git_repo(&self) -> (out: Option<&GitRepository>)
        ensures
            match out {
                Some(git) => self.mirror() == Some(*git),
                None => self.mirror() is None,
            },
    {
        match &self.git_repo {
            Some(git_repo) => Some(git_repo),
            None => None,
        }
    }

    /// The key under which the cache holds what a request resolved to.
    pub fn request_key(application: &str, profile: &str, label: &str) -> (out: String)
        ensures
            out@ == cache_key(application@, profile@, label@),
    {
        let mut out = application.to_owned();
        out.push(':');
        out.append(profile);
        out.push(':');
        out.append(label);
        assert(out@ =~= cache_key(application@, profile@, label@));
        out
    }

    /// What the cache holds for a request, if anything.
    pub fn lookup(&self, application: &str, profile: &str, label: &str) -> (out: Option<
        ConfigResponse,
    >)
        ensures
            ({
                let key = cache_key(application@, profile@, label@);
                match out {
                    Some(found) => self.cached().contains_key(key) && self.cached()[key] == found@,
                    None => !self.cached().contains_key(key),
                }
            }),
    {
        let key = Self::request_key(application, profile, label);
        cache_get(&self.cache, key.as_str())
    }

    /// What a request resolves to afresh, the cache left aside: the git
    /// mirror first where a remote is configured, the base directory where
    /// the mirror fails or matches nothing. Without a backend over the
    /// clone the mirror counts as failed, whatever `mirror` says.
    pub fn resolve(
        &self,
        application: &str,
        profile: &str,
        label: &str,
        mirror: &Mirror,
        files: &Directory,
    ) -> (out: Result<ConfigResponse, RepositoryError>)
        ensures
            ({
                let expected = fresh(
                    self.with_git(),
                    self.observed(mirror.checkout),
                    mirror.tree@,
                    files@,
                    application@,
                    profile@,
                    label@,
                );
                match out {
                    Ok(r) => expected == Ok::<ConfigResponseView, RepositoryError>(r@),
                    Err(e) => expected == Err::<ConfigResponseView, RepositoryError>(e),
                }
            }),
    {
        let mut unavailable = false;
        if self.config.git_uri.is_some() {
            match &self.git_repo {
                Some(git_repo) => {
                    match git_repo.get_config(
                        mirror.checkout,
                        &mirror.tree,
                        application,
                        profile,
                        label,
                    ) {
                        Ok(found) => {
                            if found.property_sources.len() > 0 {
                                return Ok(found);
                            }
                        },
                        Err(_) => {
                            unavailable = true;
                        },
                    }
                },
                None => {
                    unavailable = true;
                },
            }
        }
        match self.file_repo.get_config(files, application, profile, label) {
            Ok(found) => {
                if found.property_sources.len() > 0 {
                    return Ok(found);
                }
            },
            Err(_) => {},
        }
        if unavailable {
            Err(RepositoryError::BackendUnavailable)
        } else {
            Err(RepositoryError::NotFound)
        }
    }

    /// Answers a request. What the cache holds under the request's key is
    /// handed out as it is; else the request is resolved afresh against
    /// `mirror` and `files`, and what it resolved to is stored under the key
    /// before it is handed out. A failure is not stored.
    pub fn get_config(
        &mut self,
        application: &str,
        profile: &str,
        label: &str,
        mirror: &Mirror,
        files: &Directory,
    ) -> (out: Result<ConfigResponse, RepositoryError>)
        ensures
            ({
                let expected = answer(
                    old(self).cached(),
                    old(self).with_git(),
                    old(self).observed(mirror.checkout),
                    mirror.tree@,
                    files@,
                    application@,
                    profile@,
                    label@,
                );
                &&& match out {
                    Ok(r) => expected == Ok::<ConfigResponseView, RepositoryError>(r@),
                    Err(e) => expected == Err::<ConfigResponseView, RepositoryError>(e),
                }
                &&& final(self).cached() == cache_after(
                    old(self).cached(),
                    cache_key(application@, profile@, label@),
                    expected,
                )
                &&& final(self).settings() == old(self).settings()
                &&& final(self).base() == old(self).base()
                &&& final(self).mirror() == old(self).mirror()
            }),
    {
        if let Some(hit) = self.lookup(application, profile, label) {
            assert(self.cached().insert(cache_key(application@, profile@, label@), hit@)
                =~= self.cached());
            return Ok(hit);
        }
        match self.resolve(application, profile, label, mirror, files) {
            Ok(found) => {
                let key = Self::request_key(application, profile, label);
                cache_insert(&mut self.cache, key, found.clone());
                Ok(found)
            },
            Err(e) => Err(e),
        }
    }

    /// The first step of a refresh: forgets everything that was resolved,
    /// whatever else happens, so that each request is resolved afresh, and
    /// says what has to be fetched next: all branches of the remote, where
    /// a remote is configured and the backend over the clone is there.
    pub fn refresh(&mut self) -> (out: Option<Fetch>)
        ensures
            final(self).cached() == Map::<Seq<char>, ConfigResponseView>::empty(),
            final(self).settings() == old(self).settings(),
            final(self).base() == old(self).base(),
            final(self).mirror() == old(self).mirror(),
            match out {
                Some(fetch) => {
                    &&& old(self).with_git()
                    &&& old(self).mirror() is Some
                    &&& fetch.remote@ == "origin"@
                    &&& fetch.refspec@ == "refs/heads/*:refs/remotes/origin/*"@
                    &&& credential_texts(fetch.credentials) == paired(
                        old(self).mirror()->Some_0.login().0,
                        old(self).mirror()->Some_0.login().1,
                    )
                },
                None => !(old(self).with_git() && old(self).mirror() is Some),
            },
    {
        cache_clear(&mut self.cache);
        if self.config.git_uri.is_some() {
            match &self.git_repo {
                Some(git_repo) => Some(git_repo.fetch_request()),
                None => None,
            }
        } else {
            None
        }
    }

    /// The second step of a refresh: what follows from the fetch. Without
    /// a remote there is nothing to fetch and nothing to fail. With one, a
    /// fetch that failed is surfaced, and so is a clone that is not there to
    /// be fetched into; `fetched` is looked at only where the first step
    /// handed out a fetch.
    pub fn complete_refresh(&self, fetched: bool) -> (out: Result<(), RepositoryError>)
        ensures
            out == if self.with_git() && !(self.mirror() is Some && fetched) {
                Err::<(), RepositoryError>(RepositoryError::BackendUnavailable)
            } else {
                Ok::<(), RepositoryError>(())
            },
    {
        if self.config.git_uri.is_some() {
            match &self.git_repo {
                Some(git_repo) => git_repo.pull(fetched),
                None => Err(RepositoryError::BackendUnavailable),
            }
        } else {
            Ok(())
        }
    }
}

} // verus!
