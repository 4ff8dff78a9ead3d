//! A configuration as a client holds it: the sources of the server's answer
//! merged into one mapping.

use crate::flatten::put_all;
use crate::parser::{json_form, json_text, to_json_text};
use crate::properties::{entries_map, PropertyMap};
use crate::text::{
    parse_bool, parse_bool_spec, parse_i64, parse_i64_spec, signed_decimal, signed_decimal_string,
    decimal_string, texts,
};
use crate::value::{lemma_array_view, lemma_object_view, ConfigValue, Number, NumberView, Tree};
use vstd::prelude::*;

verus! {

/// The fields that one property source of an answer contributes: those of
/// its member `source`, where that is an object.
pub open spec fn source_fields(source: Tree) -> Seq<(Seq<char>, Tree)> {
    match source.member("source"@) {
        Tree::Object(fields) => fields,
        _ => Seq::empty(),
    }
}

/// The mapping that the first `n` property sources of an answer merge into:
/// each source put over the ones before it.
pub open spec fn merged(sources: Seq<Tree>, n: nat) -> Map<Seq<char>, Tree>
    decreases n,
{
    if n == 0 || n > sources.len() {
        Map::empty()
    } else {
        put_all(merged(sources, (n - 1) as nat), source_fields(sources[n - 1]))
    }
}

/// The texts among the first `n` elements, in their order.
pub open spec fn text_items(items: Seq<Tree>, n: nat) -> Seq<Seq<char>>
    decreases n,
{
    if n == 0 || n > items.len() {
        Seq::empty()
    } else {
        match items[n - 1].text() {
            Some(text) => text_items(items, (n - 1) as nat).push(text),
            None => text_items(items, (n - 1) as nat),
        }
    }
}

/// The mathematical content of a [`ConfigSource`].
pub struct ConfigSourceView {
    pub name: Seq<char>,
    pub profiles: Seq<Seq<char>>,
    pub label: Seq<char>,
    pub version: Option<Seq<char>>,
    pub properties: Map<Seq<char>, Tree>,
}

/// The text of a tree that is a string, else the empty text.
pub open spec fn text_or_empty(tree: Tree) -> Seq<char> {
    match tree.text() {
        Some(text) => text,
        None => Seq::empty(),
    }
}

/// What the answer of a server says, read leniently: a member that is
/// missing or of the wrong kind counts as empty.
pub open spec fn response_view(response: Tree) -> ConfigSourceView {
    ConfigSourceView {
        name: text_or_empty(response.member("name"@)),
        profiles: match response.member("profiles"@).elements() {
            Some(items) => text_items(items, items.len()),
            None => Seq::empty(),
        },
        label: text_or_empty(response.member("label"@)),
        version: response.member("version"@).text(),
        properties: match response.member("propertySources"@).elements() {
            Some(sources) => merged(sources, sources.len()),
            None => Map::empty(),
        },
    }
}

/// How a value reads as a plain string: a string as itself, a number in
/// decimal, a truth value as `true` or `false`, null as `null`, an array or
/// an object as its JSON text.
pub open spec fn rendered(tree: Tree) -> Seq<char> {
    match tree {
        Tree::Text(text) => text,
        Tree::Number(NumberView::Int(i)) => signed_decimal(i),
        Tree::Number(NumberView::Float(text)) => text,
        Tree::Bool(b) => if b {
            "true"@
        } else {
            "false"@
        },
        Tree::Null => "null"@,
        _ => json_text(json_form(tree)),
    }
}

/// The mapping that a list of pairs of strings denotes, a later pair
/// overriding an earlier one.
pub open spec fn pairs_map(pairs: Seq<(String, String)>) -> Map<Seq<char>, Seq<char>>
    decreases pairs.len(),
{
    if pairs.len() == 0 {
        Map::empty()
    } else {
        pairs_map(pairs.drop_last()).insert(pairs.last().0@, pairs.last().1@)
    }
}

/// The mapping with every value rendered.
pub open spec fn rendered_map(properties: Map<Seq<char>, Tree>) -> Map<Seq<char>, Seq<char>> {
    properties.map_values(|tree: Tree| rendered(tree))
}

/// Renders one value.
pub fn render(value: &ConfigValue) -> (out: String)
    ensures
        out@ == rendered(value@),
{
    match value {
        ConfigValue::Text(text) => text.clone(),
        ConfigValue::Number(Number::PosInt(u)) => decimal_string(*u),
        ConfigValue::Number(Number::NegInt(i)) => signed_decimal_string(*i),
        ConfigValue::Number(Number::Float(text)) => text.clone(),
        ConfigValue::Bool(b) => if *b {
            "true".to_owned()
        } else {
            "false".to_owned()
        },
        ConfigValue::Null => "null".to_owned(),
        _ => to_json_text(value),
    }
}

/// A configuration as fetched from a server.
#[derive(Debug)]
pub struct ConfigSource {
    pub name: String,
    pub profiles: Vec<String>,
    pub label: String,
    pub version: Option<String>,
    pub properties: PropertyMap,
}

impl View for ConfigSource {
    type V = ConfigSourceView;

    open spec fn view(&self) -> ConfigSourceView {
        ConfigSourceView {
            name: self.name@,
            profiles: texts(self.profiles@),
            label: self.label@,
            version: match self.version {
                Some(version) => Some(version@),
                None => None,
            },
            properties: self.properties@,
        }
    }
}

fn member_text(response: &ConfigValue, name: &str) -> (out: Option<String>)
    ensures
        match out {
            Some(text) => response@.member(name@).text() == Some(text@),
            None => response@.member(name@).text() is None,
        },
{
    match response.get(name) {
        Some(member) => match member.as_str() {
            Some(text) => Some(text.to_owned()),
            None => None,
        },
        None => None,
    }
}

fn member_array<'a>(response: &'a ConfigValue, name: &str) -> (out: Option<&'a Vec<ConfigValue>>)
    ensures
        match out {
            Some(items) => response@.member(name@) == ConfigValue::Array(*items)@,
            None => response@.member(name@).elements() is None,
        },
{
    match response.get(name) {
        Some(member) => member.as_array(),
        None => None,
    }
}

impl ConfigSource {
    /// Reads the answer of a server. The property sources are merged in the
    /// order in which they stand, so that of two sources with the same key
    /// the later one decides. Nothing is refused: a member that is missing
    /// or of another kind than expected counts as empty.
    pub fn from_response(response: &ConfigValue) -> (out: ConfigSource)
        ensures
            out@ == response_view(response@),
    {
        let mut properties = PropertyMap::new();
        if let Some(sources) = member_array(response, "propertySources") {
            let ghost trees = ConfigValue::Array(*sources)@->Array_0;
            proof {
                lemma_array_view(ConfigValue::Array(*sources));
            }
            let mut i: usize = 0;
            while i < sources.len()
                invariant
                    i <= sources.len(),
                    trees.len() == sources@.len(),
                    forall|j: int| 0 <= j < sources@.len() ==> trees[j] == sources@[j]@,
                    properties@ == merged(trees, i as nat),
                decreases sources.len() - i,
            {
                if let Some(source) = sources[i].get("source") {
                    if let Some(fields) = source.as_object() {
                        let ghost before = properties@;
                        let ghost field_trees = source@->Object_0;
                        proof {
                            lemma_object_view(*source);
                            assert(source_fields(trees[i as int]) == field_trees);
                        }
                        let mut j: usize = 0;
                        while j < fields.len()
                            invariant
                                j <= fields.len(),
                                field_trees.len() == fields@.len(),
                                forall|k: int|
                                    0 <= k < fields@.len() ==> field_trees[k] == (
                                        fields@[k].0@,
                                        fields@[k].1@,
                                    ),
                                properties@ == put_all(before, field_trees.take(j as int)),
                            decreases fields.len() - j,
                        {
                            proof {
                                assert(field_trees.take(j + 1).drop_last() =~= field_trees.take(
                                    j as int,
                                ));
                            }
                            properties.insert(fields[j].0.clone(), fields[j].1.clone());
                            j += 1;
                        }
                        proof {
                            assert(field_trees.take(fields@.len() as int) =~= field_trees);
                        }
                    }
                }
                i += 1;
            }
        }
        let mut profiles: Vec<String> = Vec::new();
        if let Some(items) = member_array(response, "profiles") {
            let ghost trees = ConfigValue::Array(*items)@->Array_0;
            proof {
                lemma_array_view(ConfigValue::Array(*items));
            }
            let mut i: usize = 0;
            while i < items.len()
                invariant
                    i <= items.len(),
                    trees.len() == items@.len(),
                    forall|j: int| 0 <= j < items@.len() ==> trees[j] == items@[j]@,
                    texts(profiles@) == text_items(trees, i as nat),
                decreases items.len() - i,
            {
                if let Some(text) = items[i].as_str() {
                    let ghost pushed = texts(profiles@).push(text@);
                    profiles.push(text.to_owned());
                    assert(texts(profiles@) =~= pushed);
                }
                i += 1;
            }
        } else {
            assert(texts(profiles@) =~= Seq::<Seq<char>>::empty());
        }
        ConfigSource {
            name: match member_text(response, "name") {
                Some(name) => name,
                None => String::new(),
            },
            profiles,
            label: match member_text(response, "label") {
                Some(label) => label,
                None => String::new(),
            },
            version: member_text(response, "version"),
            properties,
        }
    }

    /// Every property with its value rendered as a plain string, each key
    /// once.
    pub fn get_flat_properties(&self) -> (out: Vec<(String, String)>)
        ensures
            pairs_map(out@) == rendered_map(self@.properties),
            out@.len() == self@.properties.dom().len(),
    {
        let entries = self.properties.entries();
        let mut out: Vec<(String, String)> = Vec::new();
        let mut i: usize = 0;
        while i < entries.len()
            invariant
                i <= entries.len(),
                out@.len() == i,
                pairs_map(out@) == rendered_map(entries_map(entries@.take(i as int))),
            decreases entries.len() - i,
        {
            let ghost before = out@;
            out.push((entries[i].0.clone(), render(&entries[i].1)));
            proof {
                assert(out@.drop_last() =~= before);
                assert(entries@.take(i + 1).drop_last() =~= entries@.take(i as int));
                assert(rendered_map(
                    entries_map(entries@.take(i as int)).insert(
                        entries@[i as int].0@,
                        entries@[i as int].1@,
                    ),
                ) =~= rendered_map(entries_map(entries@.take(i as int))).insert(
                    entries@[i as int].0@,
                    rendered(entries@[i as int].1@),
                ));
            }
            i += 1;
        }
        proof {
            assert(entries@.take(entries@.len() as int) =~= entries@);
            crate::properties::lemma_entries_map_len(entries@);
        }
        out
    }

    /// The value of `key`, if there is one.
    pub fn get_property(&self, key: &str) -> (out: Option<&ConfigValue>)
        ensures
            match out {
                Some(value) => self@.properties.contains_key(key@) && value@
                    == self@.properties[key@],
                None => !self@.properties.contains_key(key@),
            },
    {
        self.properties.get(key)
    }

    /// The string under `key`: nothing where the key is missing or holds
    /// anything but a string.
    pub open spec fn string_at(properties: Map<Seq<char>, Tree>, key: Seq<char>) -> Option<
        Seq<char>,
    > {
        if properties.contains_key(key) {
            properties[key].text()
        } else {
            None
        }
    }

    /// The string under `key`.
    pub fn get_string(&self, key: &str) -> (out: Option<String>)
        ensures
            match out {
                Some(text) => Self::string_at(self@.properties, key@) == Some(text@),
                None => Self::string_at(self@.properties, key@) is None,
            },
    {
        match self.properties.get(key) {
            Some(value) => match value.as_str() {
                Some(text) => Some(text.to_owned()),
                None => None,
            },
            None => None,
        }
    }

    /// The string under `key`, or `default` where there is none.
    pub fn get_string_or(&self, key: &str, default: &str) -> (out: String)
        ensures
            out@ == match Self::string_at(self@.properties, key@) {
                Some(text) => text,
                None => default@,
            },
    {
        match self.get_string(key) {
            Some(text) => text,
            None => default.to_owned(),
        }
    }

    /// The truth value under `key`: a truth value itself, or a string that
    /// writes one.
    pub open spec fn bool_at(properties: Map<Seq<char>, Tree>, key: Seq<char>) -> Option<bool> {
        if properties.contains_key(key) {
            match properties[key] {
                Tree::Bool(b) => Some(b),
                Tree::Text(text) => parse_bool_spec(text),
                _ => None,
            }
        } else {
            None
        }
    }

    /// The truth value under `key`.
    pub fn get_bool(&self, key: &str) -> (out: Option<bool>)
        ensures
            out == Self::bool_at(self@.properties, key@),
    {
        match self.properties.get(key) {
            Some(ConfigValue::Bool(b)) => Some(*b),
            Some(ConfigValue::Text(text)) => parse_bool(text.as_str()),
            _ => None,
        }
    }

    /// The integer under `key`: an integer that fits in 64 bits with sign,
    /// or a string that writes one.
    pub open spec fn i64_at(properties: Map<Seq<char>, Tree>, key: Seq<char>) -> Option<int> {
        if properties.contains_key(key) {
            match properties[key] {
                Tree::Number(n) => match n.as_i64() {
                    Some(i) => Some(i as int),
                    None => None,
                },
                Tree::Text(text) => parse_i64_spec(text),
                _ => None,
            }
        } else {
            None
        }
    }

    /// The integer under `key`.
    pub fn get_i64(&self, key: &str) -> (out: Option<i64>)
        ensures
            match out {
                Some(i) => Self::i64_at(self@.properties, key@) == Some(i as int),
                None => Self::i64_at(self@.properties, key@) is None,
            },
    {
        match self.properties.get(key) {
            Some(ConfigValue::Number(n)) => n.as_i64(),
            Some(ConfigValue::Text(text)) => parse_i64(text.as_str()),
            _ => None,
        }
    }
}

} // verus!
