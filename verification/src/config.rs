//! Reading a model's `config.json`.
use vstd::prelude::*;
use vstd::string::*;

use crate::formats::arch_id;
#[allow(unused_imports)]
use crate::formats::arch_of;

verus! {

/// A JSON value as far as it is read here: lists and numbers other than unsigned
/// integers are told apart from the rest, but not looked into.
pub enum Json {
    Null,
    Bool(bool),
    Unsigned(u64),
    OtherNumber,
    Text(Seq<char>),
    List,
    Object(Map<Seq<char>, Json>),
}

/// The member of an object under a key.
pub open spec fn member_of(j: Json, key: Seq<char>) -> Option<Json> {
    match j {
        Json::Object(map) => if map.dom().contains(key) {
            Some(map[key])
        } else {
            None
        },
        _ => None,
    }
}

/// A parsed JSON value.
#[verifier::external_type_specification]
#[verifier::external_body]
pub struct ExValue(serde_json::Value);

/// Why a text is no JSON.
#[verifier::external_type_specification]
#[verifier::external_body]
pub struct ExError(serde_json::Error);

/// What a parsed value holds.
pub uninterp spec fn json_of(v: serde_json::Value) -> Json;

/// What `serde_json::from_str` makes of a text: a value, or none where the text is
/// no JSON.
pub uninterp spec fn parsed(text: Seq<char>) -> Option<Json>;

/// Calls `serde_json::from_str` for a `Value`. What it makes of a text depends on
/// the text alone; nothing is said of which texts are JSON.
#[verifier::external_body]
pub(crate) fn parse_json(text: &str) -> (r: Result<serde_json::Value, serde_json::Error>)
    ensures
        match r {
            Ok(v) => parsed(text@) == Some(json_of(v)),
            Err(_) => parsed(text@) is None,
        },
{
    serde_json::from_str(text)
}

/// Calls `serde_json::Value::get` with a string: the member of an object under
/// that key, and nothing for any other value.
#[verifier::external_body]
fn get_member<'a>(v: &'a serde_json::Value, key: &str) -> (r: Option<&'a serde_json::Value>)
    ensures
        match r {
            Some(w) => member_of(json_of(*v), key@) == Some(json_of(*w)),
            None => member_of(json_of(*v), key@) is None,
        },
{
    v.get(key)
}

/// Calls `serde_json::Value::as_str`: the text of a string, and nothing for any
/// other value.
#[verifier::external_body]
fn as_text(v: &serde_json::Value) -> (r: Option<&str>)
    ensures
        match r {
            Some(s) => json_of(*v) == Json::Text(s@),
            None => !(json_of(*v) is Text),
        },
{
    v.as_str()
}

/// Calls `serde_json::Value::as_u64`: the number where the value is an integer from
/// 0 to the largest `u64`, and nothing for any other value.
#[verifier::external_body]
fn as_unsigned(v: &serde_json::Value) -> (r: Option<u64>)
    ensures
        match r {
            Some(n) => json_of(*v) == Json::Unsigned(n),
            None => !(json_of(*v) is Unsigned),
        },
{
    v.as_u64()
}

/// The model type of a configuration, `llama` where none is given.
pub open spec fn model_type_of(j: Json) -> Seq<char> {
    match member_of(j, "model_type"@) {
        Some(Json::Text(s)) => s,
        _ => "llama"@,
    }
}

/// The member that counts the layers: of the configuration itself, or else of the
/// text model nested in it.
pub open spec fn layers_member(j: Json) -> Option<Json> {
    match member_of(j, "num_hidden_layers"@) {
        Some(m) => Some(m),
        None => match member_of(j, "text_config"@) {
            Some(inner) => member_of(inner, "num_hidden_layers"@),
            None => None,
        },
    }
}

/// The number of layers of a configuration, 0 where it is not given as an unsigned
/// integer.
pub open spec fn layers_of(j: Json) -> usize {
    match layers_member(j) {
        Some(Json::Unsigned(n)) => n as usize,
        _ => 0,
    }
}

/// What is read of a configuration.
#[derive(Debug)]
pub struct ModelFacts {
    pub model_type: String,
    /// The number of the architecture; `None` for an unknown one.
    pub arch: Option<u32>,
    pub n_layers: usize,
}

/// The facts are those of this configuration.
pub open spec fn facts_match(f: ModelFacts, j: Json) -> bool {
    &&& f.model_type@ == model_type_of(j)
    &&& f.arch == arch_of(model_type_of(j))
    &&& f.n_layers == layers_of(j)
}

/// Why a configuration cannot be read.
#[derive(Clone, Copy, Debug, PartialEq, Eq, Structural)]
pub enum ConfigError {
    NotJson,
}

/// Reads the model type and the number of layers of a parsed configuration.
pub fn config_facts(config: &serde_json::Value) -> (r: ModelFacts)
    ensures
        facts_match(r, json_of(*config)),
{
    let model_type: String = match get_member(config, "model_type") {
        Some(m) => match as_text(m) {
            Some(s) => s.to_owned(),
            None => "llama".to_owned(),
        },
        None => "llama".to_owned(),
    };
    let layers: Option<&serde_json::Value> = match get_member(config, "num_hidden_layers") {
        Some(m) => Some(m),
        None => match get_member(config, "text_config") {
            Some(inner) => get_member(inner, "num_hidden_layers"),
            None => None,
        },
    };
    let n_layers: usize = match layers {
        Some(m) => match as_unsigned(m) {
            Some(n) => n as usize,
            None => 0,
        },
        None => 0,
    };
    let arch = arch_id(model_type.as_str());
    ModelFacts { model_type, arch, n_layers }
}

/// Reads the model type and the number of layers out of the text of a
/// `config.json`.
pub fn read_config(text: &str) -> (r: Result<ModelFacts, ConfigError>)
    ensures
        match r {
            Ok(f) => parsed(text@) is Some && facts_match(f, parsed(text@)->0),
            Err(e) => parsed(text@) is None && e == ConfigError::NotJson,
        },
{
    match parse_json(text) {
        Ok(v) => Ok(config_facts(&v)),
        Err(_) => Err(ConfigError::NotJson),
    }
}

// What a configuration tells.

/// A member of an object is what stands under its key; nothing else has members.
pub proof fn law_members_stand_under_keys(map: Map<Seq<char>, Json>, j: Json, key: Seq<char>)
    ensures
        map.dom().contains(key) ==> member_of(Json::Object(map), key) == Some(map[key]),
        !map.dom().contains(key) ==> member_of(Json::Object(map), key) is None,
        !(j is Object) ==> member_of(j, key) is None,
{
}

/// The model type is the text under `model_type`, and `llama` where no text stands
/// there.
pub proof fn law_model_type_is_text(j: Json)
    ensures
        match member_of(j, "model_type"@) {
            Some(Json::Text(s)) => model_type_of(j) == s,
            _ => model_type_of(j) == "llama"@,
        },
{
}

/// The number of layers stands under `num_hidden_layers`; where that is missing,
/// under the same key of `text_config`. What is no whole number counts as zero.
pub proof fn law_layers_are_counted(j: Json)
    ensures
        match member_of(j, "num_hidden_layers"@) {
            Some(Json::Unsigned(n)) => layers_of(j) == n as usize,
            Some(_) => layers_of(j) == 0,
            None => match member_of(j, "text_config"@) {
                Some(inner) => match member_of(inner, "num_hidden_layers"@) {
                    Some(Json::Unsigned(n)) => layers_of(j) == n as usize,
                    _ => layers_of(j) == 0,
                },
                None => layers_of(j) == 0,
            },
        },
{
}

/// The facts of a configuration are its model type, the number of that
/// architecture, and its number of layers.
pub proof fn law_facts_are_those_of_config(f: ModelFacts, j: Json)
    requires
        facts_match(f, j),
    ensures
        f.model_type@ == model_type_of(j),
        f.arch == arch_of(f.model_type@),
        f.n_layers == layers_of(j),
{
}

} // verus!
