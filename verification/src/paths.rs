//! Flat keys read back as paths: what flattening keeps of a tree, and that
//! it can be had back from the flat mapping.

use crate::flatten::{
    element_entries, element_key, field_entries, field_key, flat_entries, flat_map, put_all,
};
use crate::text::{all_digits, decimal, digits_value, is_digit, push_decimal};
use crate::value::Tree;
use vstd::prelude::*;

verus! {

/// One step down a tree: into a field of an object or an element of an
/// array.
pub enum Step {
    Field(Seq<char>),
    Element(nat),
}

/// The flat key of the place one step below the place with the key
/// `prefix`.
pub open spec fn step_key(prefix: Seq<char>, step: Step) -> Seq<char> {
    match step {
        Step::Field(name) => field_key(prefix, name),
        Step::Element(index) => element_key(prefix, index),
    }
}

/// The flat key that a path from the top of a tree writes.
pub open spec fn path_key(path: Seq<Step>) -> Seq<char>
    decreases path.len(),
{
    if path.len() == 0 {
        Seq::empty()
    } else {
        step_key(path_key(path.drop_last()), path.last())
    }
}

/// One step down a tree, as a program holds it.
#[derive(Clone, Debug, PartialEq, Eq)]
pub enum PathStep {
    Field(String),
    Element(usize),
}

impl View for PathStep {
    type V = Step;

    open spec fn view(&self) -> Step {
        match self {
            PathStep::Field(name) => Step::Field(name@),
            PathStep::Element(index) => Step::Element(*index as nat),
        }
    }
}

/// The steps of a path.
pub open spec fn steps(path: Seq<PathStep>) -> Seq<Step> {
    Seq::new(path.len(), |i: int| path[i]@)
}

/// The flat key that a path from the top of a tree writes.
pub fn write_key(path: &Vec<PathStep>) -> (out: String)
    ensures
        out@ == path_key(steps(path@)),
{
    let mut out = String::new();
    let mut i: usize = 0;
    assert(steps(path@).take(0) =~= Seq::<Step>::empty());
    while i < path.len()
        invariant
            i <= path.len(),
            out@ == path_key(steps(path@).take(i as int)),
        decreases path.len() - i,
    {
        let ghost before = out@;
        proof {
            let next = steps(path@).take(i + 1);
            assert(next.drop_last() =~= steps(path@).take(i as int));
            assert(next.last() == path@[i as int]@);
        }
        match &path[i] {
            PathStep::Field(name) => {
                if out.as_str().is_empty() {
                    out.append(name.as_str());
                    assert(out@ =~= field_key(before, name@));
                } else {
                    out.push('.');
                    out.append(name.as_str());
                    assert(out@ =~= field_key(before, name@));
                }
            },
            PathStep::Element(index) => {
                out.push('[');
                push_decimal(&mut out, *index as u64);
                out.push(']');
                assert(out@ =~= element_key(before, *index as nat));
            },
        }
        i += 1;
    }
    assert(steps(path@).take(path@.len() as int) =~= steps(path@));
    out
}

/// The leaves of `tree` with their paths, `tree` itself standing at the
/// path `at`: the walk of the flattener, with paths in place of keys.
pub open spec fn flat_paths(tree: Tree, at: Seq<Step>) -> Seq<(Seq<Step>, Tree)>
    decreases tree, 0nat,
{
    match tree {
        Tree::Array(items) => element_paths(items, at, items.len()),
        Tree::Object(fields) => field_paths(fields, at, fields.len()),
        _ => seq![(at, tree)],
    }
}

/// The leaves under the first `n` elements of an array.
pub open spec fn element_paths(items: Seq<Tree>, at: Seq<Step>, n: nat) -> Seq<(Seq<Step>, Tree)>
    decreases items, n,
{
    if n == 0 || n > items.len() {
        Seq::empty()
    } else {
        element_paths(items, at, (n - 1) as nat) + flat_paths(
            items[n - 1],
            at.push(Step::Element((n - 1) as nat)),
        )
    }
}

/// The leaves under the first `n` fields of an object.
pub open spec fn field_paths(fields: Seq<(Seq<char>, Tree)>, at: Seq<Step>, n: nat) -> Seq<
    (Seq<Step>, Tree),
>
    decreases fields, n,
{
    if n == 0 || n > fields.len() {
        Seq::empty()
    } else {
        field_paths(fields, at, (n - 1) as nat) + flat_paths(
            fields[n - 1].1,
            at.push(Step::Field(fields[n - 1].0)),
        )
    }
}

/// The mapping that a list of leaves denotes, a later leaf overriding an
/// earlier one at the same path.
pub open spec fn paths_map(paths: Seq<(Seq<Step>, Tree)>) -> Map<Seq<Step>, Tree>
    decreases paths.len(),
{
    if paths.len() == 0 {
        Map::empty()
    } else {
        paths_map(paths.drop_last()).insert(paths.last().0, paths.last().1)
    }
}

/// The leaves of a tree by their paths. This is what is left of a tree when
/// the order of the fields and the arrays and objects without a leaf below
/// them are disregarded: two trees with the same leaves differ in nothing
/// else.
pub open spec fn leaves(tree: Tree) -> Map<Seq<Step>, Tree> {
    paths_map(flat_paths(tree, Seq::empty()))
}

/// A name that a flat key can carry without ambiguity: not empty, and free
/// of the characters `.` and `[` that open the next step of a key.
pub open spec fn plain_name(name: Seq<char>) -> bool {
    &&& name.len() > 0
    &&& forall|i: int| 0 <= i < name.len() ==> (#[trigger] name[i]) != '.' && name[i] != '['
}

/// A step into a field with a plain name, or into an element.
pub open spec fn plain_step(step: Step) -> bool {
    match step {
        Step::Field(name) => plain_name(name),
        Step::Element(_) => true,
    }
}

/// A path of plain steps.
pub open spec fn plain_path(path: Seq<Step>) -> bool {
    forall|i: int| 0 <= i < path.len() ==> plain_step(#[trigger] path[i])
}

/// A tree all of whose field names are plain.
pub open spec fn plain_tree(tree: Tree) -> bool
    decreases tree,
{
    match tree {
        Tree::Array(items) => forall|i: int|
            0 <= i < items.len() ==> plain_tree(#[trigger] items[i]),
        Tree::Object(fields) => forall|i: int|
            0 <= i < fields.len() ==> plain_name((#[trigger] fields[i]).0) && plain_tree(
                fields[i].1,
            ),
        _ => true,
    }
}

/// Re-nesting: the leaves that a flat mapping describes, each key read as
/// the plain path that writes it.
pub open spec fn expand(flat: Map<Seq<char>, Tree>) -> Map<Seq<Step>, Tree> {
    Map::new(
        |path: Seq<Step>| plain_path(path) && flat.contains_key(path_key(path)),
        |path: Seq<Step>| flat[path_key(path)],
    )
}

/// The leaves with the key that each path writes.
pub open spec fn keyed(paths: Seq<(Seq<Step>, Tree)>) -> Seq<(Seq<char>, Tree)> {
    Seq::new(paths.len(), |i: int| (path_key(paths[i].0), paths[i].1))
}

proof fn lemma_keyed_concat(a: Seq<(Seq<Step>, Tree)>, b: Seq<(Seq<Step>, Tree)>)
    ensures
        keyed(a + b) == keyed(a) + keyed(b),
{
    assert(keyed(a + b) =~= keyed(a) + keyed(b));
}

/// The flattener walks the leaves of a tree, and writes for each the key
/// of its path.
pub proof fn lemma_entries_are_keyed_paths(tree: Tree, at: Seq<Step>)
    ensures
        flat_entries(tree, path_key(at)) == keyed(flat_paths(tree, at)),
    decreases tree, 0nat,
{
    match tree {
        Tree::Array(items) => {
            lemma_element_entries_are_keyed(items, at, items.len());
        },
        Tree::Object(fields) => {
            lemma_field_entries_are_keyed(fields, at, fields.len());
        },
        _ => {
            assert(keyed(seq![(at, tree)]) =~= seq![(path_key(at), tree)]);
        },
    }
}

proof fn lemma_element_entries_are_keyed(items: Seq<Tree>, at: Seq<Step>, n: nat)
    requires
        n <= items.len(),
    ensures
        element_entries(items, path_key(at), n) == keyed(element_paths(items, at, n)),
    decreases items, n,
{
    if n == 0 {
        assert(keyed(Seq::empty()) =~= Seq::<(Seq<char>, Tree)>::empty());
    } else {
        let step = Step::Element((n - 1) as nat);
        let below = at.push(step);
        assert(below.drop_last() =~= at);
        assert(path_key(below) == element_key(path_key(at), (n - 1) as nat));
        lemma_element_entries_are_keyed(items, at, (n - 1) as nat);
        lemma_entries_are_keyed_paths(items[n - 1], below);
        lemma_keyed_concat(
            element_paths(items, at, (n - 1) as nat),
            flat_paths(items[n - 1], below),
        );
    }
}

proof fn lemma_field_entries_are_keyed(fields: Seq<(Seq<char>, Tree)>, at: Seq<Step>, n: nat)
    requires
        n <= fields.len(),
    ensures
        field_entries(fields, path_key(at), n) == keyed(field_paths(fields, at, n)),
    decreases fields, n,
{
    if n == 0 {
        assert(keyed(Seq::empty()) =~= Seq::<(Seq<char>, Tree)>::empty());
    } else {
        let step = Step::Field(fields[n - 1].0);
        let below = at.push(step);
        assert(below.drop_last() =~= at);
        assert(path_key(below) == field_key(path_key(at), fields[n - 1].0));
        lemma_field_entries_are_keyed(fields, at, (n - 1) as nat);
        lemma_entries_are_keyed_paths(fields[n - 1].1, below);
        lemma_keyed_concat(
            field_paths(fields, at, (n - 1) as nat),
            flat_paths(fields[n - 1].1, below),
        );
    }
}

/// Whether every leaf of the list stands at a plain path.
pub open spec fn plain_paths(paths: Seq<(Seq<Step>, Tree)>) -> bool {
    forall|i: int| 0 <= i < paths.len() ==> plain_path((#[trigger] paths[i]).0)
}

/// In a tree with plain names every leaf stands at a plain path.
pub proof fn lemma_paths_are_plain(tree: Tree, at: Seq<Step>)
    requires
        plain_tree(tree),
        plain_path(at),
    ensures
        plain_paths(flat_paths(tree, at)),
    decreases tree, 0nat,
{
    match tree {
        Tree::Array(items) => {
            lemma_element_paths_are_plain(items, at, items.len());
        },
        Tree::Object(fields) => {
            lemma_field_paths_are_plain(fields, at, fields.len());
        },
        _ => {},
    }
}

proof fn lemma_element_paths_are_plain(items: Seq<Tree>, at: Seq<Step>, n: nat)
    requires
        n <= items.len(),
        forall|i: int| 0 <= i < items.len() ==> plain_tree(#[trigger] items[i]),
        plain_path(at),
    ensures
        plain_paths(element_paths(items, at, n)),
    decreases items, n,
{
    if n > 0 {
        let below = at.push(Step::Element((n - 1) as nat));
        assert(plain_path(below)) by {
            assert forall|i: int| 0 <= i < below.len() implies plain_step(#[trigger] below[i]) by {
                if i < at.len() {
                    assert(below[i] == at[i]);
                }
            }
        }
        lemma_element_paths_are_plain(items, at, (n - 1) as nat);
        lemma_paths_are_plain(items[n - 1], below);
    }
}

proof fn lemma_field_paths_are_plain(fields: Seq<(Seq<char>, Tree)>, at: Seq<Step>, n: nat)
    requires
        n <= fields.len(),
        forall|i: int|
            0 <= i < fields.len() ==> plain_name((#[trigger] fields[i]).0) && plain_tree(
                fields[i].1,
            ),
        plain_path(at),
    ensures
        plain_paths(field_paths(fields, at, n)),
    decreases fields, n,
{
    if n > 0 {
        let below = at.push(Step::Field(fields[n - 1].0));
        assert(plain_path(below)) by {
            assert forall|i: int| 0 <= i < below.len() implies plain_step(#[trigger] below[i]) by {
                if i < at.len() {
                    assert(below[i] == at[i]);
                }
            }
        }
        lemma_field_paths_are_plain(fields, at, (n - 1) as nat);
        lemma_paths_are_plain(fields[n - 1].1, below);
    }
}

/// Two texts that end in the same way after a separator that neither
/// ending holds are the same before it and after it.
proof fn lemma_split_at_last(a: Seq<char>, x: Seq<char>, b: Seq<char>, y: Seq<char>, sep: char)
    requires
        a.push(sep) + x == b.push(sep) + y,
        forall|i: int| 0 <= i < x.len() ==> x[i] != sep,
        forall|i: int| 0 <= i < y.len() ==> y[i] != sep,
    ensures
        a == b,
        x == y,
{
    let left = a.push(sep) + x;
    let right = b.push(sep) + y;
    assert(left.len() == a.len() + 1 + x.len());
    assert(right.len() == b.len() + 1 + y.len());
    if x.len() < y.len() {
        // The separator before `x` falls inside `y`.
        assert(left[a.len() as int] == sep);
        assert(right[a.len() as int] == y[a.len() - b.len() - 1]);
    } else if y.len() < x.len() {
        assert(right[b.len() as int] == sep);
        assert(left[b.len() as int] == x[b.len() - a.len() - 1]);
    } else {
        assert(a =~= b) by {
            assert forall|i: int| 0 <= i < a.len() implies a[i] == b[i] by {
                assert(left[i] == a[i]);
                assert(right[i] == b[i]);
            }
        }
        assert(x =~= y) by {
            assert forall|i: int| 0 <= i < x.len() implies x[i] == y[i] by {
                assert(left[a.len() + 1 + i] == x[i]);
                assert(right[b.len() + 1 + i] == y[i]);
            }
        }
    }
}

/// The decimal text of a number consists of digits and writes that number.
pub proof fn lemma_decimal_value(n: nat)
    ensures
        all_digits(decimal(n)),
        decimal(n).len() > 0,
        digits_value(decimal(n)) == n,
    decreases n,
{
    if n < 10 {
        let text = decimal(n);
        assert(text.drop_last() =~= Seq::<char>::empty());
        assert(digits_value(text.drop_last()) == 0);
        assert(is_digit(text[0]));
    } else {
        lemma_decimal_value(n / 10);
        let shorter = decimal(n / 10);
        let text = decimal(n);
        assert(text.drop_last() =~= shorter);
        assert forall|i: int| 0 <= i < text.len() implies is_digit(#[trigger] text[i]) by {
            if i < shorter.len() {
                assert(text[i] == shorter[i]);
            }
        }
    }
}

/// The key of an element is not the key of a field with a plain name.
proof fn lemma_element_key_is_no_field_key(
    above: Seq<char>,
    index: nat,
    prefix: Seq<char>,
    name: Seq<char>,
)
    requires
        plain_name(name),
    ensures
        element_key(above, index) != field_key(prefix, name),
{
    lemma_decimal_value(index);
    let digits = decimal(index);
    let key = element_key(above, index);
    assert(key.len() == above.len() + digits.len() + 2);
    assert(key[above.len() as int] == '[');
    assert forall|k: int| above.len() < k < key.len() - 1 implies is_digit(#[trigger] key[k]) by {
        assert(key[k] == digits[k - above.len() - 1]);
    }
    if key == field_key(prefix, name) {
        if prefix.len() == 0 {
            assert(name[above.len() as int] == '[');
        } else {
            let dot = prefix.len() as int;
            assert(key.len() == prefix.len() + 1 + name.len());
            assert(key[dot] == '.');
            if dot < above.len() {
                // The bracket of the element falls inside the name.
                assert(key[above.len() as int] == name[above.len() - dot - 1]);
            } else if dot > above.len() {
                assert(is_digit(key[dot]));
            }
        }
    }
}

/// A plain path that writes the empty key is the empty path.
proof fn lemma_empty_key(path: Seq<Step>)
    requires
        plain_path(path),
        path_key(path).len() == 0,
    ensures
        path.len() == 0,
{
    if path.len() > 0 {
        assert(plain_step(path[path.len() - 1]));
    }
}

/// Different plain paths write different keys.
pub proof fn lemma_key_names_one_path(p: Seq<Step>, q: Seq<Step>)
    requires
        plain_path(p),
        plain_path(q),
        path_key(p) == path_key(q),
    ensures
        p == q,
    decreases p.len(),
{
    if p.len() == 0 {
        lemma_empty_key(q);
        assert(p =~= q);
    } else if q.len() == 0 {
        lemma_empty_key(p);
    } else {
        let p_front = p.drop_last();
        let q_front = q.drop_last();
        let pk = path_key(p_front);
        let qk = path_key(q_front);
        assert(plain_step(p[p.len() - 1]));
        assert(plain_step(q[q.len() - 1]));
        assert(plain_path(p_front)) by {
            assert forall|i: int| 0 <= i < p_front.len() implies plain_step(#[trigger] p_front[i]) by {
                assert(p_front[i] == p[i]);
            }
        }
        assert(plain_path(q_front)) by {
            assert forall|i: int| 0 <= i < q_front.len() implies plain_step(#[trigger] q_front[i]) by {
                assert(q_front[i] == q[i]);
            }
        }
        let key = path_key(p);
        match (p.last(), q.last()) {
            (Step::Element(i), Step::Element(j)) => {
                lemma_decimal_value(i);
                lemma_decimal_value(j);
                let left = pk.push('[') + decimal(i);
                let right = qk.push('[') + decimal(j);
                assert(key =~= left.push(']'));
                assert(key =~= right.push(']'));
                assert(left =~= left.push(']').drop_last());
                assert(right =~= right.push(']').drop_last());
                lemma_split_at_last(pk, decimal(i), qk, decimal(j), '[');
                lemma_key_names_one_path(p_front, q_front);
            },
            (Step::Field(n), Step::Field(m)) => {
                if pk.len() == 0 && qk.len() == 0 {
                    lemma_key_names_one_path(p_front, q_front);
                } else if pk.len() == 0 {
                    assert(n == qk + seq!['.'] + m);
                    assert(n[qk.len() as int] == '.');
                } else if qk.len() == 0 {
                    assert(m == pk + seq!['.'] + n);
                    assert(m[pk.len() as int] == '.');
                } else {
                    assert(pk + seq!['.'] + n =~= pk.push('.') + n);
                    assert(qk + seq!['.'] + m =~= qk.push('.') + m);
                    lemma_split_at_last(pk, n, qk, m, '.');
                    lemma_key_names_one_path(p_front, q_front);
                }
            },
            (Step::Element(i), Step::Field(m)) => {
                lemma_element_key_is_no_field_key(pk, i, qk, m);
            },
            (Step::Field(n), Step::Element(j)) => {
                lemma_element_key_is_no_field_key(qk, j, pk, n);
            },
        }
        assert(p =~= p_front.push(p.last()));
        assert(q =~= q_front.push(q.last()));
    }
}

/// Re-nesting what a list of leaves at plain paths flattens to gives the
/// leaves back.
proof fn lemma_expand_keyed(paths: Seq<(Seq<Step>, Tree)>)
    requires
        plain_paths(paths),
    ensures
        expand(put_all(Map::empty(), keyed(paths))) == paths_map(paths),
    decreases paths.len(),
{
    if paths.len() == 0 {
        assert(expand(put_all(Map::empty(), keyed(paths))) =~= paths_map(paths));
    } else {
        let shorter = paths.drop_last();
        let last = paths.last();
        assert(plain_paths(shorter)) by {
            assert forall|i: int| 0 <= i < shorter.len() implies plain_path(
                (#[trigger] shorter[i]).0,
            ) by {
                assert(shorter[i] == paths[i]);
            }
        }
        assert(plain_path(paths[paths.len() - 1].0));
        lemma_expand_keyed(shorter);
        assert(keyed(paths).drop_last() =~= keyed(shorter));
        let before = put_all(Map::empty(), keyed(shorter));
        let after = put_all(Map::empty(), keyed(paths));
        assert(after == before.insert(path_key(last.0), last.1));
        assert forall|path: Seq<Step>| plain_path(path) && path != last.0 implies path_key(path)
            != path_key(last.0) by {
            if path_key(path) == path_key(last.0) {
                lemma_key_names_one_path(path, last.0);
            }
        }
        assert(expand(after) =~= expand(before).insert(last.0, last.1));
    }
}

/// Whether every leaf of the tree stands at a plain path: below fields
/// with plain names only.
pub open spec fn plain_leaves(tree: Tree) -> bool {
    plain_paths(flat_paths(tree, Seq::empty()))
}

/// Round trip. For a tree whose leaves stand at plain paths, re-nesting its
/// flat mapping gives its leaves back: flattening loses nothing of such a
/// tree but the order of its fields and the arrays and objects that are
/// empty.
pub proof fn lemma_round_trip(tree: Tree)
    requires
        plain_leaves(tree),
    ensures
        expand(flat_map(tree, Seq::empty())) == leaves(tree),
{
    let top = Seq::<Step>::empty();
    lemma_entries_are_keyed_paths(tree, top);
    lemma_expand_keyed(flat_paths(tree, top));
}

/// A tree all of whose field names are plain has its leaves at plain paths.
pub proof fn lemma_plain_tree_has_plain_leaves(tree: Tree)
    requires
        plain_tree(tree),
    ensures
        plain_leaves(tree),
{
    lemma_paths_are_plain(tree, Seq::empty());
}

/// Every leaf of a list has its path in the mapping of the list.
proof fn lemma_paths_map_has(paths: Seq<(Seq<Step>, Tree)>, at: int)
    requires
        0 <= at < paths.len(),
    ensures
        paths_map(paths).contains_key(paths[at].0),
    decreases paths.len(),
{
    if at < paths.len() - 1 {
        lemma_paths_map_has(paths.drop_last(), at);
    }
}

/// The round trip holds of no other tree: where a leaf stands below a field
/// whose name is empty or holds `.` or `[`, re-nesting does not give the
/// leaves back.
pub proof fn lemma_round_trip_needs_plain_leaves(tree: Tree)
    requires
        !plain_leaves(tree),
    ensures
        expand(flat_map(tree, Seq::empty())) != leaves(tree),
{
    let paths = flat_paths(tree, Seq::empty());
    let at = choose|i: int| 0 <= i < paths.len() && !plain_path((#[trigger] paths[i]).0);
    lemma_paths_map_has(paths, at);
    assert(!expand(flat_map(tree, Seq::empty())).contains_key(paths[at].0));
}

/// A tree for a flat mapping: one whose leaves stand at plain paths and are
/// the ones that the mapping describes, where there is such a tree.
pub open spec fn renest(flat: Map<Seq<char>, Tree>) -> Tree {
    choose|tree: Tree| plain_leaves(tree) && leaves(tree) == expand(flat)
}

/// Round trip, tree to tree. Flattening a tree whose leaves stand at plain
/// paths and re-nesting the result gives a tree with the same leaves.
pub proof fn lemma_renest_flat_map(tree: Tree)
    requires
        plain_leaves(tree),
    ensures
        plain_leaves(renest(flat_map(tree, Seq::empty()))),
        leaves(renest(flat_map(tree, Seq::empty()))) == leaves(tree),
{
    lemma_round_trip(tree);
}

/// Two trees whose leaves stand at plain paths and that flatten to the same
/// mapping have the same leaves.
pub proof fn lemma_flat_map_decides_leaves(first: Tree, second: Tree)
    requires
        plain_leaves(first),
        plain_leaves(second),
        flat_map(first, Seq::empty()) == flat_map(second, Seq::empty()),
    ensures
        leaves(first) == leaves(second),
{
    lemma_round_trip(first);
    lemma_round_trip(second);
}

} // verus!
