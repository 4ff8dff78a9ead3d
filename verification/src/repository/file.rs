//! The filesystem backend: which files are probed for a request, in which
//! order, and what each contributes.

use crate::error::RepositoryError;
use crate::models::{
    source_views, ConfigResponse, ConfigResponseView, PropertySource, PropertySourceView,
};
use crate::parser::{flat_document, parse_flat, Format};
use crate::repository::directory::{Directory, FileView};
use crate::text::{comma_list, join_with, same_text, split_comma_list, texts};
use vstd::prelude::*;

verus! {

/// The number of extensions that are probed.
pub const EXTENSIONS: usize = 4;

/// The extensions in the order in which they are probed.
pub open spec fn extension(i: int) -> Seq<char> {
    if i == 0 {
        "yml"@
    } else if i == 1 {
        "yaml"@
    } else if i == 2 {
        "properties"@
    } else {
        "json"@
    }
}

/// The format that goes with each extension.
pub open spec fn extension_format(i: int) -> Format {
    if i == 0 || i == 1 {
        Format::Yaml
    } else if i == 2 {
        Format::Properties
    } else {
        Format::Json
    }
}

/// The file name of a base name with the extension of rank `i`.
pub open spec fn file_name(base: Seq<char>, i: int) -> Seq<char> {
    base + seq!['.'] + extension(i)
}

/// The rank of the first extension, from `from` on, under which the
/// directory has a file for `base`; `EXTENSIONS` where it has none.
pub open spec fn first_present(dir: Map<Seq<char>, FileView>, base: Seq<char>, from: int) -> int
    decreases EXTENSIONS - from,
{
    if from < 0 || from >= EXTENSIONS {
        EXTENSIONS as int
    } else if dir.contains_key(file_name(base, from)) {
        from
    } else {
        first_present(dir, base, from + 1)
    }
}

/// What one file contributes when read in `format`.
pub open spec fn file_outcome(file: FileView, format: Format) -> Result<
    PropertySourceView,
    RepositoryError,
> {
    match file.content {
        None => Err(RepositoryError::NotFound),
        Some(text) => match flat_document(text, format) {
            Ok(source) => Ok(PropertySourceView { name: file.path, source }),
            Err(e) => Err(RepositoryError::Parse(e)),
        },
    }
}

/// What a base name contributes: the file under the first extension that is
/// there decides, whatever stands under the later ones.
pub open spec fn base_outcome(dir: Map<Seq<char>, FileView>, base: Seq<char>) -> Result<
    PropertySourceView,
    RepositoryError,
> {
    let rank = first_present(dir, base, 0);
    if rank < EXTENSIONS {
        file_outcome(dir[file_name(base, rank)], extension_format(rank))
    } else {
        Err(RepositoryError::NotFound)
    }
}

/// The base name of an application with a profile.
pub open spec fn profiled(application: Seq<char>, profile: Seq<char>) -> Seq<char> {
    application + seq!['-'] + profile
}

/// The base name that an application and an optional profile stand for.
pub open spec fn base_name(application: Seq<char>, profile: Option<Seq<char>>) -> Seq<char> {
    match profile {
        Some(profile) => profiled(application, profile),
        None => application,
    }
}

/// The profiles that a comma-separated list names, each trimmed. The empty
/// list names one profile, the empty one.
pub open spec fn profile_names(profile: Seq<char>) -> Seq<Seq<char>> {
    comma_list(profile)
}

/// An application's own base names: itself, then itself with each profile.
pub open spec fn own_names(application: Seq<char>, profiles: Seq<Seq<char>>) -> Seq<Seq<char>> {
    seq![application] + Seq::new(profiles.len(), |i: int| profiled(application, profiles[i]))
}

/// The base names that a request probes, from the lowest precedence to the
/// highest: the shared defaults, then, for any application but
/// `application` itself, the application's own files.
pub open spec fn base_names(application: Seq<char>, profiles: Seq<Seq<char>>) -> Seq<Seq<char>> {
    if application == "application"@ {
        own_names("application"@, profiles)
    } else {
        own_names("application"@, profiles) + own_names(application, profiles)
    }
}

/// The sources that the first `n` base names contribute, in their order. A
/// base name that contributes nothing is passed over.
pub open spec fn sources_of(dir: Map<Seq<char>, FileView>, names: Seq<Seq<char>>, n: nat) -> Seq<
    PropertySourceView,
>
    decreases n,
{
    if n == 0 || n > names.len() {
        Seq::empty()
    } else {
        let before = sources_of(dir, names, (n - 1) as nat);
        match base_outcome(dir, names[n - 1]) {
            Ok(source) => before.push(source),
            Err(_) => before,
        }
    }
}

/// What the directory resolves to for a request.
pub open spec fn resolution(
    dir: Map<Seq<char>, FileView>,
    application: Seq<char>,
    profile: Seq<char>,
    label: Seq<char>,
) -> ConfigResponseView {
    let profiles = profile_names(profile);
    let names = base_names(application, profiles);
    ConfigResponseView {
        name: application,
        profiles,
        label,
        version: None,
        property_sources: sources_of(dir, names, names.len()),
    }
}

fn extension_name(rank: usize) -> (out: &'static str)
    requires
        rank < EXTENSIONS,
    ensures
        out@ == extension(rank as int),
{
    if rank == 0 {
        "yml"
    } else if rank == 1 {
        "yaml"
    } else if rank == 2 {
        "properties"
    } else {
        "json"
    }
}

fn format_of(rank: usize) -> (out: Format)
    requires
        rank < EXTENSIONS,
    ensures
        out == extension_format(rank as int),
{
    if rank == 0 || rank == 1 {
        Format::Yaml
    } else if rank == 2 {
        Format::Properties
    } else {
        Format::Json
    }
}

/// The file names that a request probes: for each base name in the order
/// of precedence, its file under each extension in the order of probing.
pub open spec fn candidate_names(application: Seq<char>, profile: Seq<char>) -> Seq<Seq<char>> {
    let names = base_names(application, profile_names(profile));
    Seq::new(
        (names.len() * EXTENSIONS) as nat,
        |k: int| file_name(names[k / (EXTENSIONS as int)], k % (EXTENSIONS as int)),
    )
}

fn push_own_names(names: &mut Vec<String>, application: &str, profiles: &Vec<String>)
    ensures
        texts(final(names)@) == texts(old(names)@) + own_names(application@, texts(profiles@)),
{
    let ghost before = texts(names@);
    let ghost own = own_names(application@, texts(profiles@));
    names.push(application.to_owned());
    assert(texts(names@) =~= before + own.take(1));
    let mut i: usize = 0;
    while i < profiles.len()
        invariant
            i <= profiles.len(),
            own == own_names(application@, texts(profiles@)),
            texts(names@) == before + own.take(i + 1),
        decreases profiles.len() - i,
    {
        let ghost so_far = texts(names@);
        names.push(join_with(application, '-', profiles[i].as_str()));
        proof {
            assert(texts(profiles@)[i as int] == profiles@[i as int]@);
            assert(own[i + 1] == profiled(application@, profiles@[i as int]@));
            assert(texts(names@) =~= so_far.push(own[i + 1]));
            assert(own.take(i + 2) =~= own.take(i + 1).push(own[i + 1]));
            assert(texts(names@) =~= before + own.take(i + 2));
        }
        i += 1;
    }
    assert(own.take(profiles@.len() as int + 1) =~= own);
}

/// The base names that a request probes, in ascending precedence.
pub fn probed_names(application: &str, profile: &str) -> (out: Vec<String>)
    ensures
        texts(out@) == base_names(application@, profile_names(profile@)),
{
    let profiles = split_comma_list(profile);
    let mut names: Vec<String> = Vec::new();
    assert(texts(names@) =~= Seq::<Seq<char>>::empty());
    push_own_names(&mut names, "application", &profiles);
    assert(Seq::<Seq<char>>::empty() + own_names("application"@, texts(profiles@))
        =~= own_names("application"@, texts(profiles@)));
    if !same_text(application, "application") {
        push_own_names(&mut names, application, &profiles);
    }
    names
}

/// The file names that a request probes, in the order of probing: what has
/// to be looked for in a directory before a request can be resolved
/// against it.
pub fn candidates(application: &str, profile: &str) -> (out: Vec<String>)
    ensures
        texts(out@) == candidate_names(application@, profile@),
{
    let names = probed_names(application, profile);
    let mut out: Vec<String> = Vec::new();
    let ghost wanted = candidate_names(application@, profile@);
    let mut i: usize = 0;
    while i < names.len()
        invariant
            i <= names.len(),
            texts(names@) == base_names(application@, profile_names(profile@)),
            wanted == candidate_names(application@, profile@),
            out@.len() == i * EXTENSIONS,
            forall|k: int| 0 <= k < out@.len() ==> out@[k]@ == wanted[k],
        decreases names.len() - i,
    {
        let mut rank: usize = 0;
        while rank < EXTENSIONS
            invariant
                i < names.len(),
                rank <= EXTENSIONS,
                texts(names@) == base_names(application@, profile_names(profile@)),
                wanted == candidate_names(application@, profile@),
                out@.len() == i * EXTENSIONS + rank,
                forall|k: int| 0 <= k < out@.len() ==> out@[k]@ == wanted[k],
            decreases EXTENSIONS - rank,
        {
            let ghost k = (i * EXTENSIONS + rank) as int;
            assert(k / (EXTENSIONS as int) == i && k % (EXTENSIONS as int) == rank);
            assert(texts(names@)[i as int] == names@[i as int]@);
            assert(texts(names@).len() == names@.len());
            assert(k < names@.len() * EXTENSIONS) by (nonlinear_arith)
                requires
                    k == i * EXTENSIONS + rank,
                    rank < EXTENSIONS,
                    i < names@.len(),
            ;
            out.push(join_with(names[i].as_str(), '.', extension_name(rank)));
            rank += 1;
        }
        i += 1;
    }
    assert(texts(out@) =~= wanted);
    out
}

/// The filesystem backend, rooted at one directory.
#[derive(Debug)]
pub struct FileRepository {
    base_path: String,
}

impl FileRepository {
    /// The directory that the backend is rooted at.
    pub closed spec fn root(&self) -> Seq<char> {
        self.base_path@
    }

    /// A backend rooted at `base_path`. The directory has to be there before
    /// the backend is: `created` says how making it went, and the backend
    /// comes into being exactly when that succeeded.
    pub fn new(base_path: &str, created: bool) -> (out: Result<FileRepository, RepositoryError>)
        ensures
            match out {
                Ok(repository) => created && repository.root() == base_path@,
                Err(e) => !created && e == RepositoryError::BackendUnavailable,
            },
    {
        if created {
            Ok(FileRepository { base_path: base_path.to_owned() })
        } else {
            Err(RepositoryError::BackendUnavailable)
        }
    }

    /// The directory that the backend is rooted at.
    pub fn base_path(&self) -> (out: &str)
        ensures
            out@ == self.root(),
    {
        self.base_path.as_str()
    }

    /// What the base name `base` contributes out of `dir`.
    fn load_base(&self, dir: &Directory, base: &str) -> (out: Result<
        PropertySource,
        RepositoryError,
    >)
        ensures
            match out {
                Ok(source) => base_outcome(dir@, base@) == Ok::<
                    PropertySourceView,
                    RepositoryError,
                >(source@),
                Err(e) => base_outcome(dir@, base@) == Err::<PropertySourceView, RepositoryError>(
                    e,
                ),
            },
    {
        let mut rank: usize = 0;
        while rank < EXTENSIONS
            invariant
                rank <= EXTENSIONS,
                first_present(dir@, base@, 0) == first_present(dir@, base@, rank as int),
            decreases EXTENSIONS - rank,
        {
            let name = join_with(base, '.', extension_name(rank));
            match dir.lookup(name.as_str()) {
                Some(file) => {
                    assert(name@ == file_name(base@, rank as int));
                    assert(first_present(dir@, base@, rank as int) == rank);
                    return match &file.content {
                        None => Err(RepositoryError::NotFound),
                        Some(text) => match parse_flat(text.as_str(), format_of(rank)) {
                            Ok(source) => Ok(PropertySource { name: file.path.clone(), source }),
                            Err(e) => Err(RepositoryError::Parse(e)),
                        },
                    };
                },
                None => {},
            }
            rank += 1;
        }
        Err(RepositoryError::NotFound)
    }

    /// The source that `application`, with `profile` if there is one,
    /// contributes out of `dir`: the file under the first extension, in the
    /// order `yml`, `yaml`, `properties`, `json`, that is there. `NotFound`
    /// where none is there or the one that is cannot be read, `Parse` where
    /// its content is malformed.
    pub fn load_property_source(
        &self,
        dir: &Directory,
        application: &str,
        profile: Option<&str>,
    ) -> (out: Result<PropertySource, RepositoryError>)
        ensures
            ({
                let base = base_name(
                    application@,
                    match profile {
                        Some(profile) => Some(profile@),
                        None => None,
                    },
                );
                match out {
                    Ok(source) => base_outcome(dir@, base) == Ok::<
                        PropertySourceView,
                        RepositoryError,
                    >(source@),
                    Err(e) => base_outcome(dir@, base) == Err::<
                        PropertySourceView,
                        RepositoryError,
                    >(e),
                }
            }),
    {
        match profile {
            Some(profile) => {
                let base = join_with(application, '-', profile);
                self.load_base(dir, base.as_str())
            },
            None => self.load_base(dir, application),
        }
    }

    /// Resolves a request against `dir`. The sources come in ascending
    /// precedence: `application`, `application-<profile>` for each profile in
    /// the order asked for, then, unless the application is `application`
    /// itself, `<application>` and `<application>-<profile>` likewise. A
    /// base name without a file, or with one that cannot be read or parsed,
    /// contributes nothing; the label is handed through. Always `Ok`.
    pub fn get_config(&self, dir: &Directory, application: &str, profile: &str, label: &str) -> (out:
        Result<ConfigResponse, RepositoryError>)
        ensures
            out is Ok,
            out->Ok_0@ == resolution(dir@, application@, profile@, label@),
    {
        let names = probed_names(application, profile);
        let mut sources: Vec<PropertySource> = Vec::new();
        assert(source_views(sources@) =~= sources_of(dir@, texts(names@), 0));
        let mut i: usize = 0;
        while i < names.len()
            invariant
                i <= names.len(),
                source_views(sources@) == sources_of(dir@, texts(names@), i as nat),
            decreases names.len() - i,
        {
            assert(texts(names@)[i as int] == names@[i as int]@);
            if let Ok(source) = self.load_base(dir, names[i].as_str()) {
                let ghost pushed = source_views(sources@).push(source@);
                sources.push(source);
                assert(source_views(sources@) =~= pushed);
            }
            i += 1;
        }
        Ok(
            ConfigResponse {
                name: application.to_owned(),
                profiles: split_comma_list(profile),
                label: label.to_owned(),
                version: None,
                property_sources: sources,
            },
        )
    }
}

/// Probe order. Where the directory has a file for `base` under the
/// extension of rank `rank` and none under an extension probed before it,
/// that file alone decides what `base` contributes: the files under the
/// extensions probed later play no part.
pub proof fn lemma_first_extension_decides(
    dir: Map<Seq<char>, FileView>,
    base: Seq<char>,
    rank: int,
)
    requires
        0 <= rank < EXTENSIONS,
        dir.contains_key(file_name(base, rank)),
        forall|earlier: int| 0 <= earlier < rank ==> !dir.contains_key(file_name(base, earlier)),
    ensures
        base_outcome(dir, base) == file_outcome(
            dir[file_name(base, rank)],
            extension_format(rank),
        ),
{
    lemma_first_present_from(dir, base, rank, 0);
}

proof fn lemma_first_present_from(
    dir: Map<Seq<char>, FileView>,
    base: Seq<char>,
    rank: int,
    from: int,
)
    requires
        0 <= from <= rank < EXTENSIONS,
        dir.contains_key(file_name(base, rank)),
        forall|earlier: int| 0 <= earlier < rank ==> !dir.contains_key(file_name(base, earlier)),
    ensures
        first_present(dir, base, from) == rank,
    decreases rank - from,
{
    if from < rank {
        lemma_first_present_from(dir, base, rank, from + 1);
    }
}

/// `yml` before `json`. Where a base name has both a `yml` and a `json`
/// file, it contributes what the `yml` file holds, read as YAML, and the
/// same as if the `json` file held anything else or were not there.
pub proof fn lemma_yml_hides_json(
    dir: Map<Seq<char>, FileView>,
    base: Seq<char>,
    other: Map<Seq<char>, FileView>,
)
    requires
        dir.contains_key(file_name(base, 0)),
        other.contains_key(file_name(base, 0)),
        other[file_name(base, 0)] == dir[file_name(base, 0)],
    ensures
        base_outcome(dir, base) == file_outcome(dir[file_name(base, 0)], Format::Yaml),
        base_outcome(other, base) == base_outcome(dir, base),
{
    lemma_first_extension_decides(dir, base, 0);
    lemma_first_extension_decides(other, base, 0);
}

/// Leniency. A base name that contributes a source is part of the answer
/// whatever the other base names run into: a file that is missing,
/// unreadable or malformed takes only itself out.
pub proof fn lemma_every_match_is_kept(
    dir: Map<Seq<char>, FileView>,
    names: Seq<Seq<char>>,
    at: int,
    n: nat,
)
    requires
        0 <= at < n <= names.len(),
        base_outcome(dir, names[at]) is Ok,
    ensures
        sources_of(dir, names, n).contains(base_outcome(dir, names[at])->Ok_0),
    decreases n,
{
    let before = sources_of(dir, names, (n - 1) as nat);
    if at == n - 1 {
        let source = base_outcome(dir, names[at])->Ok_0;
        assert(before.push(source)[before.len() as int] == source);
    } else {
        lemma_every_match_is_kept(dir, names, at, (n - 1) as nat);
        let source = base_outcome(dir, names[at])->Ok_0;
        let i = choose|i: int| 0 <= i < before.len() && before[i] == source;
        match base_outcome(dir, names[n - 1]) {
            Ok(last) => {
                assert(before.push(last)[i] == source);
            },
            Err(_) => {},
        }
    }
}

/// Leniency, for the file that every request starts from: where the shared
/// default `application` resolves, the resolution has its source, whatever
/// application and profiles are asked for and whatever their files hold.
pub proof fn lemma_defaults_survive(
    dir: Map<Seq<char>, FileView>,
    application: Seq<char>,
    profile: Seq<char>,
    label: Seq<char>,
)
    requires
        base_outcome(dir, "application"@) is Ok,
    ensures
        resolution(dir, application, profile, label).property_sources.contains(
            base_outcome(dir, "application"@)->Ok_0,
        ),
        resolution(dir, application, profile, label).property_sources.len() > 0,
{
    let names = base_names(application, profile_names(profile));
    assert(names[0] == "application"@);
    lemma_every_match_is_kept(dir, names, 0, names.len());
}

} // verus!
