//! The flat key/value mapping that one property source contributes.

use crate::value::{ConfigValue, Tree};
use vstd::prelude::*;

verus! {

/// The mapping that a list of entries denotes when a later entry overrides an
/// earlier one with the same key.
pub open spec fn entries_map(s: Seq<(String, ConfigValue)>) -> Map<Seq<char>, Tree>
    decreases s.len(),
{
    if s.len() == 0 {
        Map::empty()
    } else {
        entries_map(s.drop_last()).insert(s.last().0@, s.last().1@)
    }
}

/// No key occurs twice.
pub open spec fn distinct_keys(s: Seq<(String, ConfigValue)>) -> bool {
    forall|i: int, j: int| 0 <= i < j < s.len() ==> s[i].0@ != s[j].0@
}

/// The keys of `entries_map(s)` are the keys of the entries.
pub proof fn lemma_entries_map_keys(s: Seq<(String, ConfigValue)>, key: Seq<char>)
    ensures
        entries_map(s).contains_key(key) <==> exists|i: int| 0 <= i < s.len() && s[i].0@ == key,
    decreases s.len(),
{
    if s.len() > 0 {
        let shorter = s.drop_last();
        lemma_entries_map_keys(shorter, key);
        if entries_map(s).contains_key(key) {
            if s.last().0@ == key {
                assert(s[s.len() - 1].0@ == key);
            } else {
                let i = choose|i: int| 0 <= i < shorter.len() && shorter[i].0@ == key;
                assert(s[i].0@ == key);
            }
        }
        if exists|i: int| 0 <= i < s.len() && s[i].0@ == key {
            let i = choose|i: int| 0 <= i < s.len() && s[i].0@ == key;
            if i < s.len() - 1 {
                assert(shorter[i].0@ == key);
            }
        }
    }
}

/// With distinct keys, each entry is what the mapping holds under its key.
pub proof fn lemma_entries_map_value(s: Seq<(String, ConfigValue)>, i: int)
    requires
        distinct_keys(s),
        0 <= i < s.len(),
    ensures
        entries_map(s).contains_key(s[i].0@),
        entries_map(s)[s[i].0@] == s[i].1@,
    decreases s.len(),
{
    if i < s.len() - 1 {
        let shorter = s.drop_last();
        assert(distinct_keys(shorter)) by {
            assert forall|a: int, b: int| 0 <= a < b < shorter.len() implies shorter[a].0@
                != shorter[b].0@ by {
                assert(s[a].0@ != s[b].0@);
            }
        }
        lemma_entries_map_value(shorter, i);
        assert(s[i].0@ != s[s.len() - 1].0@);
    }
}

/// With distinct keys, putting a new value where the key already stands is
/// an insertion into the mapping.
pub proof fn lemma_entries_map_replace(
    s: Seq<(String, ConfigValue)>,
    i: int,
    entry: (String, ConfigValue),
)
    requires
        distinct_keys(s),
        0 <= i < s.len(),
        s[i].0@ == entry.0@,
    ensures
        distinct_keys(s.update(i, entry)),
        entries_map(s.update(i, entry)) == entries_map(s).insert(entry.0@, entry.1@),
    decreases s.len(),
{
    let t = s.update(i, entry);
    assert(distinct_keys(t)) by {
        assert forall|a: int, b: int| 0 <= a < b < t.len() implies t[a].0@ != t[b].0@ by {
            assert(s[a].0@ != s[b].0@);
        }
    }
    let shorter = s.drop_last();
    if i == s.len() - 1 {
        assert(t.drop_last() =~= shorter);
        assert(entries_map(t) =~= entries_map(s).insert(entry.0@, entry.1@));
    } else {
        assert(distinct_keys(shorter)) by {
            assert forall|a: int, b: int| 0 <= a < b < shorter.len() implies shorter[a].0@
                != shorter[b].0@ by {
                assert(s[a].0@ != s[b].0@);
            }
        }
        lemma_entries_map_replace(shorter, i, entry);
        assert(t.drop_last() =~= shorter.update(i, entry));
        assert(s[i].0@ != s[s.len() - 1].0@);
        assert(entries_map(t) =~= entries_map(s).insert(entry.0@, entry.1@));
    }
}

/// A mapping from flat keys to values, with each key held once.
#[derive(Debug)]
pub struct PropertyMap {
    entries: Vec<(String, ConfigValue)>,
}

impl View for PropertyMap {
    type V = Map<Seq<char>, Tree>;

    closed spec fn view(&self) -> Map<Seq<char>, Tree> {
        entries_map(self.entries@)
    }
}

impl PropertyMap {
    #[verifier::type_invariant]
    spec fn keys_are_distinct(self) -> bool {
        distinct_keys(self.entries@)
    }

    /// The empty mapping.
    pub fn new() -> (out: PropertyMap)
        ensures
            out@ == Map::<Seq<char>, Tree>::empty(),
    {
        PropertyMap { entries: Vec::new() }
    }

    /// The entries, each key once, in the order in which the keys first came.
    pub fn entries(&self) -> (out: &Vec<(String, ConfigValue)>)
        ensures
            distinct_keys(out@),
            entries_map(out@) == self@,
    {
        proof {
            use_type_invariant(self);
        }
        &self.entries
    }

    /// The number of keys.
    pub fn len(&self) -> (n: usize)
        ensures
            n == self@.dom().len(),
            self@.dom().finite(),
    {
        proof {
            use_type_invariant(self);
            lemma_entries_map_len(self.entries@);
        }
        self.entries.len()
    }

    fn position(&self, key: &String) -> (at: usize)
        ensures
            at <= self.entries@.len(),
            at < self.entries@.len() ==> self.entries@[at as int].0@ == key@,
            at == self.entries@.len() ==> !self@.contains_key(key@),
    {
        let mut at: usize = 0;
        while at < self.entries.len()
            invariant
                at <= self.entries@.len(),
                forall|j: int| 0 <= j < at ==> self.entries@[j].0@ != key@,
            decreases self.entries@.len() - at,
        {
            if self.entries[at].0 == *key {
                return at;
            }
            at += 1;
        }
        proof {
            lemma_entries_map_keys(self.entries@, key@);
        }
        at
    }

    /// The value under `key`, where there is one.
    pub fn get(&self, key: &str) -> (out: Option<&ConfigValue>)
        ensures
            match out {
                Some(value) => self@.contains_key(key@) && value@ == self@[key@],
                None => !self@.contains_key(key@),
            },
    {
        let owned = key.to_owned();
        let at = self.position(&owned);
        if at < self.entries.len() {
            proof {
                use_type_invariant(self);
                lemma_entries_map_value(self.entries@, at as int);
            }
            Some(&self.entries[at].1)
        } else {
            None
        }
    }

    /// Whether `key` has a value.
    pub fn contains_key(&self, key: &str) -> (present: bool)
        ensures
            present == self@.contains_key(key@),
    {
        self.get(key).is_some()
    }

    /// Puts `value` under `key`, in place of what stood there.
    pub fn insert(&mut self, key: String, value: ConfigValue)
        ensures
            final(self)@ == old(self)@.insert(key@, value@),
    {
        proof {
            use_type_invariant(&*self);
        }
        let at = self.position(&key);
        let mut entries: Vec<(String, ConfigValue)> = Vec::new();
        std::mem::swap(&mut entries, &mut self.entries);
        let ghost before = entries@;
        if at < entries.len() {
            proof {
                lemma_entries_map_replace(before, at as int, (key, value));
            }
            entries.set(at, (key, value));
        } else {
            proof {
                assert(before.push((key, value)).drop_last() =~= before);
                lemma_entries_map_keys(before, key@);
                assert(distinct_keys(before.push((key, value)))) by {
                    let t = before.push((key, value));
                    assert forall|a: int, b: int| 0 <= a < b < t.len() implies t[a].0@
                        != t[b].0@ by {
                        if b == t.len() - 1 {
                            assert(before[a].0@ != key@);
                        } else {
                            assert(before[a].0@ != before[b].0@);
                        }
                    }
                }
            }
            entries.push((key, value));
        }
        self.entries = entries;
    }
}

impl Clone for PropertyMap {
    fn clone(&self) -> (out: PropertyMap)
        ensures
            out@ == self@,
    {
        proof {
            use_type_invariant(self);
        }
        let mut entries: Vec<(String, ConfigValue)> = Vec::new();
        let mut i: usize = 0;
        while i < self.entries.len()
            invariant
                i <= self.entries@.len(),
                entries@.len() == i,
                forall|j: int|
                    0 <= j < i ==> entries@[j].0@ == self.entries@[j].0@ && entries@[j].1@
                        == self.entries@[j].1@,
            decreases self.entries@.len() - i,
        {
            entries.push((self.entries[i].0.clone(), self.entries[i].1.clone()));
            i += 1;
        }
        proof {
            lemma_entries_map_same(entries@, self.entries@);
            assert(distinct_keys(entries@)) by {
                assert forall|a: int, b: int| 0 <= a < b < entries@.len() implies entries@[a].0@
                    != entries@[b].0@ by {
                    assert(self.entries@[a].0@ != self.entries@[b].0@);
                }
            }
        }
        PropertyMap { entries }
    }
}

/// Entries with the same keys and values, one by one, denote the same
/// mapping.
pub proof fn lemma_entries_map_same(
    a: Seq<(String, ConfigValue)>,
    b: Seq<(String, ConfigValue)>,
)
    requires
        a.len() == b.len(),
        forall|j: int| 0 <= j < a.len() ==> a[j].0@ == b[j].0@ && a[j].1@ == b[j].1@,
    ensures
        entries_map(a) == entries_map(b),
    decreases a.len(),
{
    if a.len() > 0 {
        assert forall|j: int| 0 <= j < a.drop_last().len() implies a.drop_last()[j].0@
            == b.drop_last()[j].0@ && a.drop_last()[j].1@ == b.drop_last()[j].1@ by {
            assert(a[j].0@ == b[j].0@ && a[j].1@ == b[j].1@);
        }
        lemma_entries_map_same(a.drop_last(), b.drop_last());
        assert(a[a.len() - 1].0@ == b[a.len() - 1].0@ && a[a.len() - 1].1@ == b[a.len() - 1].1@);
    }
}

/// With distinct keys there are as many keys as entries.
pub proof fn lemma_entries_map_len(s: Seq<(String, ConfigValue)>)
    requires
        distinct_keys(s),
    ensures
        entries_map(s).dom().finite(),
        entries_map(s).dom().len() == s.len(),
    decreases s.len(),
{
    if s.len() > 0 {
        let shorter = s.drop_last();
        assert(distinct_keys(shorter)) by {
            assert forall|a: int, b: int| 0 <= a < b < shorter.len() implies shorter[a].0@
                != shorter[b].0@ by {
                assert(s[a].0@ != s[b].0@);
            }
        }
        lemma_entries_map_len(shorter);
        lemma_entries_map_keys(shorter, s.last().0@);
        if entries_map(shorter).contains_key(s.last().0@) {
            let i = choose|i: int| 0 <= i < shorter.len() && shorter[i].0@ == s.last().0@;
            assert(s[i].0@ != s[s.len() - 1].0@);
        }
        assert(entries_map(s).dom() =~= entries_map(shorter).dom().insert(s.last().0@));
    }
}

} // verus!
