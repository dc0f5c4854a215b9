//! YAML dictionary files.
use vstd::prelude::*;

use crate::dict_tree::{flatten_into, DictKey, DictValue};
use crate::dictionary::Dictionary;
use crate::i18n_error::I18nError;

verus! {

/// serde_yaml::Value, a parsed YAML document, held opaquely.
#[verifier::external_type_specification]
#[verifier::external_body]
pub struct ExYamlValue(serde_yaml::Value);

/// Relies on serde_yaml::from_str: parses a YAML document.
#[verifier::external_body]
fn parse_yaml(s: &str) -> (r: Result<serde_yaml::Value, serde_yaml::Error>) {
    serde_yaml::from_str(s)
}

/// Relies on serde_yaml::Value: strings, mappings, nulls and booleans as
/// they are; numbers as Number's Display, keys that are not strings and
/// other values as their Debug form.
#[verifier::external_body]
fn yaml_tree(v: &serde_yaml::Value) -> (r: DictValue) {
    match v {
        serde_yaml::Value::String(s) => DictValue::Text(s.clone()),
        serde_yaml::Value::Mapping(m) => DictValue::Group(m.iter().map(|(k, x)| {
            let key = match k {
                serde_yaml::Value::String(s) => DictKey::Text(s.clone()),
                o => DictKey::Written(format!("{o:?}")),
            };
            (key, yaml_tree(x))
        }).collect()),
        serde_yaml::Value::Null => DictValue::Null,
        serde_yaml::Value::Bool(b) => DictValue::Bool(*b),
        serde_yaml::Value::Number(n) => DictValue::Number(n.to_string()),
        other => DictValue::Written(format!("{other:?}")),
    }
}

/// Adds the messages of a YAML mapping to `dict` under `namespace.`;
/// nested mappings give dotted keys. A document that is not a mapping adds
/// nothing.
pub fn load_into(yaml_str: &str, namespace: &str, dict: &mut Dictionary) -> (r: Result<(), I18nError>)
    requires
        old(dict).wf(),
    ensures
        final(dict).wf(),
        r matches Err(e) ==> e is Yaml,
{
    match parse_yaml(yaml_str) {
        Ok(value) => {
            match yaml_tree(&value) {
                DictValue::Group(pairs) => flatten_into(&pairs, namespace, dict),
                _ => {},
            }
            Ok(())
        },
        Err(e) => Err(I18nError::Yaml(e)),
    }
}

/// A dictionary of the messages of a YAML mapping, under `namespace.`.
pub fn load(yaml_str: &str, namespace: &str) -> (r: Result<Dictionary, I18nError>)
    ensures
        r matches Ok(d) ==> d.wf(),
        r matches Err(e) ==> e is Yaml,
{
    let mut dict = Dictionary::new();
    load_into(yaml_str, namespace, &mut dict)?;
    Ok(dict)
}

} // verus!
