//! The three file formats and what each parses into.

use crate::flatten::{flat_map, flatten_json};
use crate::properties::PropertyMap;
use crate::text::{
    find_char, first_index, from_chars, lemma_first_index, slice_chars, split_chars, split_on,
    to_chars, trim, trim_chars,
};
use crate::value::{lemma_object_view, ConfigValue, Number, Tree};
use serde_json::Value;
use vstd::prelude::*;

verus! {

/// A format in which a property file can be written.
#[derive(Clone, Copy, Debug, PartialEq, Eq, Structural)]
pub enum Format {
    Yaml,
    Json,
    Properties,
}

/// A place in a text: line and column as the parser counts them.
#[derive(Clone, Copy, Debug, PartialEq, Eq, Structural)]
pub struct Position {
    pub line: usize,
    pub column: usize,
}

/// A file whose content is malformed for its format.
#[derive(Clone, Copy, Debug, PartialEq, Eq, Structural)]
pub struct ParseError {
    pub format: Format,
    pub location: Option<Position>,
}

/// `serde_json::Value`, a JSON document in memory.
#[verifier::external_type_specification]
#[verifier::external_body]
pub struct ExJsonValue(Value);

/// The tree that a `serde_json::Value` holds: its variants one for one, an
/// integer as the integer, any other number as the text that the value
/// prints for it, the fields of an object in the order in which the value
/// iterates over them.
pub uninterp spec fn json_tree(value: Value) -> Tree;

/// What `serde_json::from_str` makes of a text: the document, or the place
/// where it gave up.
pub uninterp spec fn json_document(text: Seq<char>) -> Result<Tree, Position>;

/// `serde_yaml::Value`, a YAML document in memory.
#[verifier::external_type_specification]
#[verifier::external_body]
pub struct ExYamlValue(serde_yaml::Value);

/// The tree of the JSON value that `serde_json::to_value` makes of a YAML
/// value, or nothing where it makes none: a YAML value has no JSON form
/// where a mapping has a key that JSON cannot write.
pub uninterp spec fn yaml_tree(value: serde_yaml::Value) -> Option<Tree>;

/// What `serde_yaml::from_str` makes of a text: the document, taken by the
/// JSON form that [`yaml_tree`] names, or the place where the parser gave
/// up, if it names one.
pub uninterp spec fn yaml_document(text: Seq<char>) -> Result<Option<Tree>, Option<Position>>;

/// Reads a `serde_json::Value` out into a tree of the library, variant by
/// variant. The result is the tree that [`json_tree`] names.
#[verifier::external_body]
fn json_to_tree(value: &Value) -> (tree: ConfigValue)
    ensures
        tree@ == json_tree(*value),
{
    match value {
        Value::Null => ConfigValue::Null,
        Value::Bool(b) => ConfigValue::Bool(*b),
        Value::Number(n) => ConfigValue::Number(
            n.as_u64().map(Number::PosInt).or_else(|| n.as_i64().map(Number::NegInt))
                .unwrap_or_else(|| Number::Float(n.to_string())),
        ),
        Value::String(s) => ConfigValue::Text(s.clone()),
        Value::Array(a) => ConfigValue::Array(a.iter().map(json_to_tree).collect()),
        Value::Object(o) => ConfigValue::Object(
            o.iter().map(|(k, v)| (k.clone(), json_to_tree(v))).collect(),
        ),
    }
}

/// `serde_json::from_str` into a `serde_json::Value`. The same text always
/// gives the same outcome, which [`json_document`] names; an error comes
/// back as the line and column that it carries.
#[verifier::external_body]
fn json_from_str(text: &str) -> (out: Result<Value, Position>)
    ensures
        match out {
            Ok(value) => json_document(text@) == Ok::<Tree, Position>(json_tree(value)),
            Err(at) => json_document(text@) == Err::<Tree, Position>(at),
        },
{
    serde_json::from_str::<Value>(text).map_err(
        |e| Position { line: e.line(), column: e.column() },
    )
}

/// `serde_yaml::from_str` into a `serde_yaml::Value`. The same text always
/// gives the same outcome, which [`yaml_document`] names; an error comes
/// back as the location that it carries, if it carries one.
#[verifier::external_body]
fn yaml_from_str(text: &str) -> (out: Result<serde_yaml::Value, Option<Position>>)
    ensures
        match out {
            Ok(value) => yaml_document(text@) == Ok::<Option<Tree>, Option<Position>>(
                yaml_tree(value),
            ),
            Err(at) => yaml_document(text@) == Err::<Option<Tree>, Option<Position>>(at),
        },
{
    serde_yaml::from_str::<serde_yaml::Value>(text).map_err(
        |e| e.location().map(|l| Position { line: l.line(), column: l.column() }),
    )
}

/// `serde_json::to_value` of a YAML value: the JSON value with the tree that
/// [`yaml_tree`] names, or nothing where the call fails.
#[verifier::external_body]
fn yaml_to_json(value: serde_yaml::Value) -> (out: Option<Value>)
    ensures
        match out {
            Some(json) => yaml_tree(value) == Some(json_tree(json)),
            None => yaml_tree(value) is None,
        },
{
    serde_json::to_value(value).ok()
}

/// The tree held by the `serde_json::Value` that is made from a tree of the
/// library, variant by variant: an integer by `Value::from`, any other
/// number as the `serde_json::Number` that its text parses to, `Null` where
/// it parses to none, an object by collecting its fields into the map of
/// `serde_json`, which keeps one field of each name in its own order.
pub uninterp spec fn json_form(tree: Tree) -> Tree;

/// The text that `serde_json::to_string` writes for a value that holds
/// `tree`: compact JSON.
pub uninterp spec fn json_text(tree: Tree) -> Seq<char>;

/// Builds the `serde_json::Value` for a tree of the library, variant by
/// variant. What it holds depends on the tree alone: [`json_form`] names it.
#[verifier::external_body]
fn tree_to_json(tree: &ConfigValue) -> (value: Value)
    ensures
        json_tree(value) == json_form(tree@),
{
    match tree {
        ConfigValue::Null => Value::Null,
        ConfigValue::Bool(b) => Value::Bool(*b),
        ConfigValue::Number(Number::PosInt(u)) => Value::from(*u),
        ConfigValue::Number(Number::NegInt(i)) => Value::from(*i),
        ConfigValue::Number(Number::Float(t)) => t.parse().map_or(Value::Null, Value::Number),
        ConfigValue::Text(s) => Value::String(s.clone()),
        ConfigValue::Array(a) => Value::Array(a.iter().map(tree_to_json).collect()),
        ConfigValue::Object(o) => Value::Object(
            o.iter().map(|(k, v)| (k.clone(), tree_to_json(v))).collect(),
        ),
    }
}

/// `serde_json::to_string` of a `serde_json::Value`, which does not fail on
/// one. The text depends on what the value holds alone: [`json_text`] names
/// it.
#[verifier::external_body]
fn json_to_string(value: &Value) -> (text: String)
    ensures
        text@ == json_text(json_tree(*value)),
{
    serde_json::to_string(value).unwrap_or_default()
}

/// The compact JSON text of a tree.
pub fn to_json_text(tree: &ConfigValue) -> (out: String)
    ensures
        out@ == json_text(json_form(tree@)),
{
    let value = tree_to_json(tree);
    json_to_string(&value)
}

/// What one line of a properties file contributes: nothing where it is
/// blank, a `#` comment or has no `=`; else the text before the first `=` as
/// the key and the text after it as a string value, both trimmed.
pub open spec fn property_of_line(line: Seq<char>) -> Option<(Seq<char>, Tree)> {
    let line = trim(line);
    let at = first_index(line, '=');
    if line.len() == 0 || line[0] == '#' || at >= line.len() {
        None
    } else {
        Some((trim(line.take(at)), Tree::Text(trim(line.skip(at + 1)))))
    }
}

/// The fields that the first `n` lines contribute, in the order of the lines.
pub open spec fn property_fields(lines: Seq<Seq<char>>, n: nat) -> Seq<(Seq<char>, Tree)>
    decreases n,
{
    if n == 0 || n > lines.len() {
        Seq::empty()
    } else {
        let before = property_fields(lines, (n - 1) as nat);
        match property_of_line(lines[n - 1]) {
            Some(field) => before.push(field),
            None => before,
        }
    }
}

/// A properties file as a tree: one object, one string field per line that
/// assigns something.
pub open spec fn properties_document(text: Seq<char>) -> Tree {
    let lines = split_on(text, '\n');
    Tree::Object(property_fields(lines, lines.len()))
}

/// The tree that `text` denotes in `format`, or why it denotes none.
pub open spec fn document(text: Seq<char>, format: Format) -> Result<Tree, ParseError> {
    match format {
        Format::Json => match json_document(text) {
            Ok(tree) => Ok(tree),
            Err(at) => Err(ParseError { format: Format::Json, location: Some(at) }),
        },
        Format::Yaml => match yaml_document(text) {
            Ok(Some(tree)) => Ok(tree),
            Ok(None) => Err(ParseError { format: Format::Yaml, location: None }),
            Err(at) => Err(ParseError { format: Format::Yaml, location: at }),
        },
        Format::Properties => Ok(properties_document(text)),
    }
}

/// The flat mapping that `text` denotes in `format`.
pub open spec fn flat_document(text: Seq<char>, format: Format) -> Result<
    Map<Seq<char>, Tree>,
    ParseError,
> {
    match document(text, format) {
        Ok(tree) => Ok(flat_map(tree, Seq::empty())),
        Err(e) => Err(e),
    }
}

/// Reads a properties file. Every text is accepted: a line that assigns
/// nothing is passed over.
pub fn parse_properties_tree(content: &str) -> (tree: ConfigValue)
    ensures
        tree@ == properties_document(content@),
{
    let chars = to_chars(content);
    let lines = split_chars(&chars, '\n');
    let ghost spec_lines = split_on(content@, '\n');
    let mut fields: Vec<(String, ConfigValue)> = Vec::new();
    let mut i: usize = 0;
    while i < lines.len()
        invariant
            i <= lines.len(),
            lines@.len() == spec_lines.len(),
            forall|j: int| 0 <= j < lines@.len() ==> lines@[j]@ == spec_lines[j],
            fields@.len() == property_fields(spec_lines, i as nat).len(),
            forall|j: int|
                0 <= j < fields@.len() ==> (fields@[j].0@, fields@[j].1@) == property_fields(
                    spec_lines,
                    i as nat,
                )[j],
        decreases lines.len() - i,
    {
        let line = trim_chars(&lines[i]);
        let at = find_char(&line, 0, '=');
        proof {
            assert(line@.skip(0) =~= line@);
            lemma_first_index(line@, '=');
        }
        if line.len() > 0 && line[0] != '#' && at < line.len() {
            let key = from_chars(&trim_chars(&slice_chars(&line, 0, at)));
            let value = from_chars(&trim_chars(&slice_chars(&line, at + 1, line.len())));
            proof {
                assert(line@.subrange(0, at as int) =~= line@.take(at as int));
                assert(line@.subrange(at + 1, line@.len() as int) =~= line@.skip(at + 1));
            }
            fields.push((key, ConfigValue::Text(value)));
        }
        i += 1;
    }
    let tree = ConfigValue::Object(fields);
    proof {
        lemma_object_view(tree);
        assert(tree@->Object_0 =~= property_fields(spec_lines, spec_lines.len()));
    }
    tree
}

/// Parses `text` in `format` into a tree, or says where the text is
/// malformed. Properties files are never malformed; a YAML document that
/// has no JSON form is malformed without a place.
pub fn parse(text: &str, format: Format) -> (out: Result<ConfigValue, ParseError>)
    ensures
        match out {
            Ok(tree) => document(text@, format) == Ok::<Tree, ParseError>(tree@),
            Err(e) => document(text@, format) == Err::<Tree, ParseError>(e),
        },
{
    match format {
        Format::Json => match json_from_str(text) {
            Ok(value) => Ok(json_to_tree(&value)),
            Err(at) => Err(ParseError { format: Format::Json, location: Some(at) }),
        },
        Format::Yaml => match yaml_from_str(text) {
            Ok(value) => match yaml_to_json(value) {
                Some(json) => Ok(json_to_tree(&json)),
                None => Err(ParseError { format: Format::Yaml, location: None }),
            },
            Err(at) => Err(ParseError { format: Format::Yaml, location: at }),
        },
        Format::Properties => Ok(parse_properties_tree(text)),
    }
}

/// Parses `content` in `format` and flattens the tree from the top level.
pub fn parse_flat(content: &str, format: Format) -> (out: Result<PropertyMap, ParseError>)
    ensures
        match out {
            Ok(map) => flat_document(content@, format) == Ok::<Map<Seq<char>, Tree>, ParseError>(
                map@,
            ),
            Err(e) => flat_document(content@, format) == Err::<Map<Seq<char>, Tree>, ParseError>(
                e,
            ),
        },
{
    match parse(content, format) {
        Ok(tree) => Ok(flatten_json(&tree, String::new())),
        Err(e) => Err(e),
    }
}

/// The flat mapping of a YAML document.
pub fn parse_yaml(content: &str) -> (out: Result<PropertyMap, ParseError>)
    ensures
        match out {
            Ok(map) => flat_document(content@, Format::Yaml) == Ok::<
                Map<Seq<char>, Tree>,
                ParseError,
            >(map@),
            Err(e) => flat_document(content@, Format::Yaml) == Err::<
                Map<Seq<char>, Tree>,
                ParseError,
            >(e),
        },
{
    parse_flat(content, Format::Yaml)
}

/// The flat mapping of a JSON document.
pub fn parse_json(content: &str) -> (out: Result<PropertyMap, ParseError>)
    ensures
        match out {
            Ok(map) => flat_document(content@, Format::Json) == Ok::<
                Map<Seq<char>, Tree>,
                ParseError,
            >(map@),
            Err(e) => flat_document(content@, Format::Json) == Err::<
                Map<Seq<char>, Tree>,
                ParseError,
            >(e),
        },
{
    parse_flat(content, Format::Json)
}

/// The flat mapping of a properties file: each key with the string after
/// its `=`, the last line that assigns a key deciding its value.
pub fn parse_properties(content: &str) -> (out: Result<PropertyMap, ParseError>)
    ensures
        out is Ok,
        out->Ok_0@ == flat_map(properties_document(content@), Seq::empty()),
{
    parse_flat(content, Format::Properties)
}

} // verus!
