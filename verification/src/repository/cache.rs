//! The resolution cache: a concurrent map of the `dashmap` crate, from the
//! key of a request to what it resolved to.

use crate::models::{ConfigResponse, ConfigResponseView};
use dashmap::DashMap;
use vstd::prelude::*;

verus! {

/// `dashmap::DashMap`, a concurrent hash map.
#[verifier::external_type_specification]
#[verifier::external_body]
#[verifier::reject_recursive_types(K)]
#[verifier::reject_recursive_types(V)]
#[verifier::reject_recursive_types(S)]
pub struct ExDashMap<K, V, S>(DashMap<K, V, S>);

/// What a cache holds: the content of each entry under the text of its key.
pub uninterp spec fn cache_contents(cache: DashMap<String, ConfigResponse>) -> Map<
    Seq<char>,
    ConfigResponseView,
>;

/// The content of a cache without entries.
pub open spec fn empty_cache() -> Map<Seq<char>, ConfigResponseView> {
    Map::empty()
}

/// `DashMap::new`: a map without entries.
#[verifier::external_body]
pub(crate) fn cache_new() -> (cache: DashMap<String, ConfigResponse>)
    ensures
        cache_contents(cache) == empty_cache(),
{
    DashMap::new()
}

/// `DashMap::get`, with the entry copied out: the value under `key`, if the
/// map has one. The map stays as it is.
#[verifier::external_body]
pub(crate) fn cache_get(cache: &DashMap<String, ConfigResponse>, key: &str) -> (out: Option<
    ConfigResponse,
>)
    ensures
        match out {
            Some(found) => cache_contents(*cache).contains_key(key@) && cache_contents(
                *cache,
            )[key@] == found@,
            None => !cache_contents(*cache).contains_key(key@),
        },
{
    cache.get(key).map(|entry| entry.value().clone())
}

/// `DashMap::insert`: afterwards the map holds `value` under `key`, in place
/// of what stood there, and every other entry as before.
#[verifier::external_body]
pub(crate) fn cache_insert(
    cache: &mut DashMap<String, ConfigResponse>,
    key: String,
    value: ConfigResponse,
)
    ensures
        cache_contents(*final(cache)) == cache_contents(*old(cache)).insert(key@, value@),
{
    cache.insert(key, value);
}

/// `DashMap::clear`: afterwards the map has no entry.
#[verifier::external_body]
pub(crate) fn cache_clear(cache: &mut DashMap<String, ConfigResponse>)
    ensures
        cache_contents(*final(cache)) == empty_cache(),
{
    cache.clear();
}

} // verus!
