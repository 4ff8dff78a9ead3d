//! Flattening: from a nested value tree to dotted and indexed leaf keys.

use crate::properties::PropertyMap;
use crate::text::{decimal, push_decimal};
use crate::value::{lemma_array_view, lemma_object_view, ConfigValue, Tree};
use vstd::prelude::*;

verus! {

/// The key of the field `name` of the object at `prefix`: the two joined by a
/// dot, or `name` alone at the top level.
pub open spec fn field_key(prefix: Seq<char>, name: Seq<char>) -> Seq<char> {
    if prefix.len() == 0 {
        name
    } else {
        prefix + seq!['.'] + name
    }
}

/// The key of element `index` of the array at `prefix`.
pub open spec fn element_key(prefix: Seq<char>, index: nat) -> Seq<char> {
    prefix + seq!['['] + decimal(index) + seq![']']
}

/// The leaves of `tree` with their flat keys, in the order of the walk: the
/// fields of an object and the elements of an array as they stand, each
/// subtree before its next sibling. Empty arrays and objects have no leaf.
pub open spec fn flat_entries(tree: Tree, prefix: Seq<char>) -> Seq<(Seq<char>, Tree)>
    decreases tree, 0nat,
{
    match tree {
        Tree::Array(items) => element_entries(items, prefix, items.len()),
        Tree::Object(fields) => field_entries(fields, prefix, fields.len()),
        _ => seq![(prefix, tree)],
    }
}

/// The leaves under the first `n` elements of an array.
pub open spec fn element_entries(items: Seq<Tree>, prefix: Seq<char>, n: nat) -> Seq<
    (Seq<char>, Tree),
>
    decreases items, n,
{
    if n == 0 || n > items.len() {
        Seq::empty()
    } else {
        element_entries(items, prefix, (n - 1) as nat) + flat_entries(
            items[n - 1],
            element_key(prefix, (n - 1) as nat),
        )
    }
}

/// The leaves under the first `n` fields of an object.
pub open spec fn field_entries(fields: Seq<(Seq<char>, Tree)>, prefix: Seq<char>, n: nat) -> Seq<
    (Seq<char>, Tree),
>
    decreases fields, n,
{
    if n == 0 || n > fields.len() {
        Seq::empty()
    } else {
        field_entries(fields, prefix, (n - 1) as nat) + flat_entries(
            fields[n - 1].1,
            field_key(prefix, fields[n - 1].0),
        )
    }
}

/// `map` after the entries were put into it one after the other: the last
/// entry with a key decides its value.
pub open spec fn put_all(map: Map<Seq<char>, Tree>, entries: Seq<(Seq<char>, Tree)>) -> Map<
    Seq<char>,
    Tree,
>
    decreases entries.len(),
{
    if entries.len() == 0 {
        map
    } else {
        put_all(map, entries.drop_last()).insert(entries.last().0, entries.last().1)
    }
}

/// The flat mapping of a tree.
pub open spec fn flat_map(tree: Tree, prefix: Seq<char>) -> Map<Seq<char>, Tree> {
    put_all(Map::empty(), flat_entries(tree, prefix))
}

/// Putting two runs of entries one after the other is putting their
/// concatenation.
pub proof fn lemma_put_all_concat(
    map: Map<Seq<char>, Tree>,
    first: Seq<(Seq<char>, Tree)>,
    second: Seq<(Seq<char>, Tree)>,
)
    ensures
        put_all(put_all(map, first), second) == put_all(map, first + second),
    decreases second.len(),
{
    if second.len() == 0 {
        assert(first + second =~= first);
    } else {
        lemma_put_all_concat(map, first, second.drop_last());
        assert((first + second).drop_last() =~= first + second.drop_last());
    }
}

/// Flattens `value` into `out`, under the key `prefix`.
fn flatten_into(value: &ConfigValue, prefix: String, out: &mut PropertyMap)
    ensures
        final(out)@ == put_all(old(out)@, flat_entries(value@, prefix@)),
    decreases value,
{
    match value {
        ConfigValue::Object(fields) => {
            let mut i: usize = 0;
            while i < fields.len()
                invariant
                    *value == ConfigValue::Object(*fields),
                    i <= fields.len(),
                    out@ == put_all(
                        old(out)@,
                        field_entries(value@->Object_0, prefix@, i as nat),
                    ),
                decreases fields.len() - i,
            {
                let key = if prefix.as_str().is_empty() {
                    fields[i].0.clone()
                } else {
                    let mut key = prefix.clone();
                    key.push('.');
                    key.append(fields[i].0.as_str());
                    key
                };
                assert(decreases_to!(*value => value->Object_0));
                assert(decreases_to!(*fields => fields[i as int]));
                proof {
                    let tree_fields = value@->Object_0;
                    lemma_object_view(*value);
                    assert(tree_fields[i as int] == (fields@[i as int].0@, fields@[i as int].1@));
                    assert(key@ =~= field_key(prefix@, tree_fields[i as int].0));
                    assert(field_entries(tree_fields, prefix@, (i + 1) as nat) == field_entries(
                        tree_fields,
                        prefix@,
                        i as nat,
                    ) + flat_entries(
                        tree_fields[i as int].1,
                        field_key(prefix@, tree_fields[i as int].0),
                    ));
                    lemma_put_all_concat(
                        old(out)@,
                        field_entries(tree_fields, prefix@, i as nat),
                        flat_entries(
                            tree_fields[i as int].1,
                            field_key(prefix@, tree_fields[i as int].0),
                        ),
                    );
                }
                flatten_into(&fields[i].1, key, out);
                i += 1;
            }
            proof {
                lemma_object_view(*value);
                assert(flat_entries(value@, prefix@) == field_entries(
                    value@->Object_0,
                    prefix@,
                    value@->Object_0.len(),
                ));
            }
        },
        ConfigValue::Array(items) => {
            let mut i: usize = 0;
            while i < items.len()
                invariant
                    *value == ConfigValue::Array(*items),
                    i <= items.len(),
                    out@ == put_all(
                        old(out)@,
                        element_entries(value@->Array_0, prefix@, i as nat),
                    ),
                decreases items.len() - i,
            {
                let mut key = prefix.clone();
                key.push('[');
                push_decimal(&mut key, i as u64);
                key.push(']');
                assert(decreases_to!(*value => value->Array_0));
                assert(decreases_to!(*items => items[i as int]));
                proof {
                    let tree_items = value@->Array_0;
                    lemma_array_view(*value);
                    assert(tree_items[i as int] == items@[i as int]@);
                    assert(key@ =~= element_key(prefix@, i as nat));
                    assert(element_entries(tree_items, prefix@, (i + 1) as nat)
                        == element_entries(tree_items, prefix@, i as nat) + flat_entries(
                        tree_items[i as int],
                        element_key(prefix@, i as nat),
                    ));
                    lemma_put_all_concat(
                        old(out)@,
                        element_entries(tree_items, prefix@, i as nat),
                        flat_entries(tree_items[i as int], element_key(prefix@, i as nat)),
                    );
                }
                flatten_into(&items[i], key, out);
                i += 1;
            }
            proof {
                lemma_array_view(*value);
                assert(flat_entries(value@, prefix@) == element_entries(
                    value@->Array_0,
                    prefix@,
                    value@->Array_0.len(),
                ));
            }
        },
        _ => {
            proof {
                let only = seq![(prefix@, value@)];
                assert(only.drop_last() =~= Seq::<(Seq<char>, Tree)>::empty());
                assert(flat_entries(value@, prefix@) == only);
                assert(put_all(old(out)@, only.drop_last()) == old(out)@);
                assert(put_all(old(out)@, only) == old(out)@.insert(prefix@, value@));
            }
            out.insert(prefix, value.clone());
        },
    }
}

/// The flat mapping of `value`, with every key below `prefix`: object fields
/// joined by `.`, array elements by `[index]`, a scalar under `prefix` itself.
/// Where two leaves come to the same key, the one visited last stays.
pub fn flatten_json(value: &ConfigValue, prefix: String) -> (out: PropertyMap)
    ensures
        out@ == flat_map(value@, prefix@),
{
    let mut out = PropertyMap::new();
    flatten_into(value, prefix, &mut out);
    out
}

} // verus!
