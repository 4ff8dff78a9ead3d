//! The nested value tree that every format parses into.

use crate::text::{last_named, lemma_last_named};
use vstd::prelude::*;

verus! {

/// A number as a configuration file can write it.
#[derive(Debug, PartialEq, Eq)]
pub enum Number {
    /// A non-negative integer.
    PosInt(u64),
    /// A negative integer.
    NegInt(i64),
    /// Any other finite number, kept as its decimal text.
    Float(String),
}

/// What a [`Number`] denotes.
pub enum NumberView {
    Int(int),
    Float(Seq<char>),
}

impl View for Number {
    type V = NumberView;

    open spec fn view(&self) -> NumberView {
        match self {
            Number::PosInt(u) => NumberView::Int(*u as int),
            Number::NegInt(i) => NumberView::Int(*i as int),
            Number::Float(text) => NumberView::Float(text@),
        }
    }
}

/// A parsed document: scalars at the leaves, arrays and objects above them.
/// The entries of an object keep the order in which the parser handed them over.
#[derive(Debug, PartialEq, Eq)]
pub enum ConfigValue {
    Null,
    Bool(bool),
    Number(Number),
    Text(String),
    Array(Vec<ConfigValue>),
    Object(Vec<(String, ConfigValue)>),
}

/// The mathematical tree behind a [`ConfigValue`].
pub enum Tree {
    Null,
    Bool(bool),
    Number(NumberView),
    Text(Seq<char>),
    Array(Seq<Tree>),
    Object(Seq<(Seq<char>, Tree)>),
}

impl View for ConfigValue {
    type V = Tree;

    open spec fn view(&self) -> Tree
        decreases self,
    {
        match self {
            ConfigValue::Null => Tree::Null,
            ConfigValue::Bool(b) => Tree::Bool(*b),
            ConfigValue::Number(n) => Tree::Number(n@),
            ConfigValue::Text(s) => Tree::Text(s@),
            ConfigValue::Array(items) => Tree::Array(
                Seq::new(
                    items@.len(),
                    |i: int|
                        if 0 <= i < items@.len() {
                            items@[i].view()
                        } else {
                            Tree::Null
                        },
                ),
            ),
            ConfigValue::Object(entries) => Tree::Object(
                Seq::new(
                    entries@.len(),
                    |i: int|
                        if 0 <= i < entries@.len() {
                            (entries@[i].0@, entries@[i].1.view())
                        } else {
                            (Seq::empty(), Tree::Null)
                        },
                ),
            ),
        }
    }
}

/// What the view of an array is, element by element.
pub proof fn lemma_array_view(value: ConfigValue)
    requires
        value is Array,
    ensures
        value@ is Array,
        value@->Array_0.len() == value->Array_0@.len(),
        forall|i: int|
            0 <= i < value->Array_0@.len() ==> (#[trigger] value@->Array_0[i])
                == value->Array_0@[i]@,
{
}

/// What the view of an object is, field by field.
pub proof fn lemma_object_view(value: ConfigValue)
    requires
        value is Object,
    ensures
        value@ is Object,
        value@->Object_0.len() == value->Object_0@.len(),
        forall|i: int|
            0 <= i < value->Object_0@.len() ==> (#[trigger] value@->Object_0[i]) == (
                value->Object_0@[i].0@,
                value->Object_0@[i].1@,
            ),
{
    reveal_with_fuel(<ConfigValue as View>::view, 2);
}

impl Clone for Number {
    fn clone(&self) -> (out: Number)
        ensures
            out@ == self@,
    {
        match self {
            Number::PosInt(u) => Number::PosInt(*u),
            Number::NegInt(i) => Number::NegInt(*i),
            Number::Float(text) => Number::Float(text.clone()),
        }
    }
}

impl Clone for ConfigValue {
    fn clone(&self) -> (out: ConfigValue)
        ensures
            out@ == self@,
        decreases self,
    {
        match self {
            ConfigValue::Null => ConfigValue::Null,
            ConfigValue::Bool(b) => ConfigValue::Bool(*b),
            ConfigValue::Number(n) => ConfigValue::Number(n.clone()),
            ConfigValue::Text(s) => ConfigValue::Text(s.clone()),
            ConfigValue::Array(items) => {
                let mut copy: Vec<ConfigValue> = Vec::new();
                let mut i: usize = 0;
                while i < items.len()
                    invariant
                        *self == ConfigValue::Array(*items),
                        i <= items.len(),
                        copy.len() == i,
                        forall|j: int| 0 <= j < i ==> copy@[j]@ == items@[j]@,
                    decreases items.len() - i,
                {
                    assert(decreases_to!(*items => items[i as int]));
                    assert(decreases_to!(*self => self->Array_0));
                    copy.push(items[i].clone());
                    i += 1;
                }
                let out = ConfigValue::Array(copy);
                assert(out@->Array_0 =~= self@->Array_0);
                out
            },
            ConfigValue::Object(entries) => {
                let mut copy: Vec<(String, ConfigValue)> = Vec::new();
                let mut i: usize = 0;
                while i < entries.len()
                    invariant
                        *self == ConfigValue::Object(*entries),
                        i <= entries.len(),
                        copy.len() == i,
                        forall|j: int|
                            0 <= j < i ==> copy@[j].0@ == entries@[j].0@ && copy@[j].1@
                                == entries@[j].1@,
                    decreases entries.len() - i,
                {
                    assert(decreases_to!(*entries => entries[i as int]));
                    assert(decreases_to!(*self => self->Object_0));
                    copy.push((entries[i].0.clone(), entries[i].1.clone()));
                    i += 1;
                }
                let out = ConfigValue::Object(copy);
                assert(out@->Object_0 =~= self@->Object_0);
                out
            },
        }
    }
}

/// The value of the field `name`: the last field of that name, if any.
pub open spec fn field_of(fields: Seq<(Seq<char>, Tree)>, name: Seq<char>) -> Option<Tree> {
    last_named(fields, name)
}

impl Tree {
    /// The member `name` of an object; `Null` where the tree is no object
    /// or has no such field.
    pub open spec fn member(self, name: Seq<char>) -> Tree {
        match self {
            Tree::Object(fields) => match field_of(fields, name) {
                Some(found) => found,
                None => Tree::Null,
            },
            _ => Tree::Null,
        }
    }

    /// The text of a string; nothing for any other tree.
    pub open spec fn text(self) -> Option<Seq<char>> {
        match self {
            Tree::Text(text) => Some(text),
            _ => None,
        }
    }

    /// The elements of an array; nothing for any other tree.
    pub open spec fn elements(self) -> Option<Seq<Tree>> {
        match self {
            Tree::Array(items) => Some(items),
            _ => None,
        }
    }

}

impl NumberView {
    /// The number as a signed 64-bit integer, where it is an integer that
    /// fits.
    pub open spec fn as_i64(self) -> Option<i64> {
        match self {
            NumberView::Int(i) => if i64::MIN <= i <= i64::MAX {
                Some(i as i64)
            } else {
                None
            },
            NumberView::Float(_) => None,
        }
    }
}

impl Number {
    /// The number as a signed 64-bit integer, where it is an integer that
    /// fits.
    pub fn as_i64(&self) -> (out: Option<i64>)
        ensures
            out == self@.as_i64(),
    {
        match self {
            Number::PosInt(u) => if *u <= 0x7fff_ffff_ffff_ffff {
                Some(*u as i64)
            } else {
                None
            },
            Number::NegInt(i) => Some(*i),
            Number::Float(_) => None,
        }
    }
}

impl ConfigValue {
    /// The member `name` of an object, if the value is an object that has
    /// such a field: the last one of that name.
    pub fn get(&self, name: &str) -> (out: Option<&ConfigValue>)
        ensures
            match out {
                Some(found) => self@ is Object && field_of(self@->Object_0, name@) == Some(found@),
                None => self@.member(name@) == Tree::Null && !(self@ is Object && field_of(
                    self@->Object_0,
                    name@,
                ) is Some),
            },
    {
        match self {
            ConfigValue::Object(fields) => {
                let wanted = name.to_owned();
                proof {
                    lemma_object_view(*self);
                }
                let mut at: usize = fields.len();
                while at > 0
                    invariant
                        *self == ConfigValue::Object(*fields),
                        at <= fields@.len(),
                        wanted@ == name@,
                        forall|j: int| at <= j < fields@.len() ==> fields@[j].0@ != name@,
                    decreases at,
                {
                    at -= 1;
                    if fields[at].0 == wanted {
                        proof {
                            lemma_object_view(*self);
                            lemma_last_named(self@->Object_0, name@, at as int);
                        }
                        return Some(&fields[at].1);
                    }
                }
                proof {
                    lemma_last_named(self@->Object_0, name@, -1);
                }
                None
            },
            _ => None,
        }
    }

    /// The text of a string value.
    pub fn as_str(&self) -> (out: Option<&str>)
        ensures
            match out {
                Some(text) => self@.text() == Some(text@),
                None => self@.text() is None,
            },
    {
        match self {
            ConfigValue::Text(text) => Some(text.as_str()),
            _ => None,
        }
    }

    /// The elements of an array value.
    pub fn as_array(&self) -> (out: Option<&Vec<ConfigValue>>)
        ensures
            match out {
                Some(items) => *self == ConfigValue::Array(*items),
                None => !(self is Array),
            },
    {
        match self {
            ConfigValue::Array(items) => Some(items),
            _ => None,
        }
    }

    /// The fields of an object value.
    pub fn as_object(&self) -> (out: Option<&Vec<(String, ConfigValue)>>)
        ensures
            match out {
                Some(fields) => *self == ConfigValue::Object(*fields),
                None => !(self is Object),
            },
    {
        match self {
            ConfigValue::Object(fields) => Some(fields),
            _ => None,
        }
    }
}

} // verus!
