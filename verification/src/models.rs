//! What a resolution hands out, and the bodies of the encryption requests.

use crate::properties::{entries_map, PropertyMap};
use crate::text::texts;
use crate::value::Tree;
use vstd::prelude::*;

verus! {

/// One named, flattened contribution to a resolved configuration.
#[derive(Debug)]
pub struct PropertySource {
    pub name: String,
    pub source: PropertyMap,
}

/// The mathematical content of a [`PropertySource`].
pub struct PropertySourceView {
    pub name: Seq<char>,
    pub source: Map<Seq<char>, Tree>,
}

impl View for PropertySource {
    type V = PropertySourceView;

    open spec fn view(&self) -> PropertySourceView {
        PropertySourceView { name: self.name@, source: self.source@ }
    }
}

impl Clone for PropertySource {
    fn clone(&self) -> (out: PropertySource)
        ensures
            out@ == self@,
    {
        PropertySource { name: self.name.clone(), source: self.source.clone() }
    }
}

/// The contents of a list of property sources.
pub open spec fn source_views(sources: Seq<PropertySource>) -> Seq<PropertySourceView> {
    Seq::new(sources.len(), |i: int| sources[i]@)
}

/// A resolved configuration: who asked, and the property sources that
/// matched, the one of lowest precedence first.
#[derive(Debug)]
pub struct ConfigResponse {
    pub name: String,
    pub profiles: Vec<String>,
    pub label: String,
    pub version: Option<String>,
    pub property_sources: Vec<PropertySource>,
}

/// The mathematical content of a [`ConfigResponse`].
pub struct ConfigResponseView {
    pub name: Seq<char>,
    pub profiles: Seq<Seq<char>>,
    pub label: Seq<char>,
    pub version: Option<Seq<char>>,
    pub property_sources: Seq<PropertySourceView>,
}

impl View for ConfigResponse {
    type V = ConfigResponseView;

    open spec fn view(&self) -> ConfigResponseView {
        ConfigResponseView {
            name: self.name@,
            profiles: texts(self.profiles@),
            label: self.label@,
            version: match self.version {
                Some(version) => Some(version@),
                None => None,
            },
            property_sources: source_views(self.property_sources@),
        }
    }
}

/// The single effective mapping of the first `n` sources: a later source
/// overrides an earlier one on the keys that both have.
pub open spec fn effective_map(sources: Seq<PropertySourceView>, n: nat) -> Map<Seq<char>, Tree>
    decreases n,
{
    if n == 0 || n > sources.len() {
        Map::empty()
    } else {
        effective_map(sources, (n - 1) as nat).union_prefer_right(sources[n - 1].source)
    }
}

/// Precedence. In the effective mapping a key has the value of the last
/// source that holds it.
pub proof fn lemma_last_source_wins(
    sources: Seq<PropertySourceView>,
    at: int,
    key: Seq<char>,
    n: nat,
)
    requires
        0 <= at < n <= sources.len(),
        sources[at].source.contains_key(key),
        forall|later: int| at < later < n ==> !sources[later].source.contains_key(key),
    ensures
        effective_map(sources, n).contains_key(key),
        effective_map(sources, n)[key] == sources[at].source[key],
    decreases n,
{
    if at < n - 1 {
        lemma_last_source_wins(sources, at, key, (n - 1) as nat);
    }
}

impl ConfigResponse {
    /// The single effective view of the configuration: every key of every
    /// source, with the value of the last source that has it.
    pub fn effective(&self) -> (out: PropertyMap)
        ensures
            out@ == effective_map(self@.property_sources, self@.property_sources.len()),
    {
        let mut out = PropertyMap::new();
        let ghost views = self@.property_sources;
        let mut i: usize = 0;
        while i < self.property_sources.len()
            invariant
                i <= self.property_sources.len(),
                views == source_views(self.property_sources@),
                out@ == effective_map(views, i as nat),
            decreases self.property_sources.len() - i,
        {
            let entries = self.property_sources[i].source.entries();
            let ghost before = out@;
            let mut j: usize = 0;
            while j < entries.len()
                invariant
                    j <= entries.len(),
                    out@ == before.union_prefer_right(entries_map(entries@.take(j as int))),
                decreases entries.len() - j,
            {
                proof {
                    assert(entries@.take(j + 1).drop_last() =~= entries@.take(j as int));
                    assert(before.union_prefer_right(
                        entries_map(entries@.take(j as int)).insert(
                            entries@[j as int].0@,
                            entries@[j as int].1@,
                        ),
                    ) =~= before.union_prefer_right(entries_map(entries@.take(j as int))).insert(
                        entries@[j as int].0@,
                        entries@[j as int].1@,
                    ));
                }
                out.insert(entries[j].0.clone(), entries[j].1.clone());
                j += 1;
            }
            proof {
                assert(entries@.take(entries@.len() as int) =~= entries@);
                assert(views[i as int].source == entries_map(entries@));
            }
            i += 1;
        }
        out
    }
}

/// Copies a list of strings.
pub fn clone_strings(strings: &Vec<String>) -> (out: Vec<String>)
    ensures
        texts(out@) == texts(strings@),
{
    let mut out: Vec<String> = Vec::new();
    let mut i: usize = 0;
    while i < strings.len()
        invariant
            i <= strings.len(),
            out@.len() == i,
            forall|j: int| 0 <= j < i ==> out@[j]@ == strings@[j]@,
        decreases strings.len() - i,
    {
        out.push(strings[i].clone());
        i += 1;
    }
    assert(texts(out@) =~= texts(strings@));
    out
}

impl Clone for ConfigResponse {
    fn clone(&self) -> (out: ConfigResponse)
        ensures
            out@ == self@,
    {
        let mut sources: Vec<PropertySource> = Vec::new();
        let mut i: usize = 0;
        while i < self.property_sources.len()
            invariant
                i <= self.property_sources.len(),
                sources@.len() == i,
                forall|j: int| 0 <= j < i ==> sources@[j]@ == self.property_sources@[j]@,
            decreases self.property_sources.len() - i,
        {
            sources.push(self.property_sources[i].clone());
            i += 1;
        }
        assert(source_views(sources@) =~= source_views(self.property_sources@));
        ConfigResponse {
            name: self.name.clone(),
            profiles: clone_strings(&self.profiles),
            label: self.label.clone(),
            version: match &self.version {
                Some(version) => Some(version.clone()),
                None => None,
            },
            property_sources: sources,
        }
    }
}

/// The body of a request to encrypt a value.
#[derive(Debug)]
pub struct EncryptRequest {
    pub value: String,
}

/// The answer to an [`EncryptRequest`].
#[derive(Debug)]
pub struct EncryptResponse {
    pub encrypted: String,
}

/// The body of a request to decrypt a value.
#[derive(Debug)]
pub struct DecryptRequest {
    pub encrypted: String,
}

/// The answer to a [`DecryptRequest`].
#[derive(Debug)]
pub struct DecryptResponse {
    pub decrypted: String,
}

} // verus!
