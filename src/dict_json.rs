//! JSON dictionary files.
use vstd::prelude::*;

use crate::dict_tree::{flatten_into, DictKey, DictValue};
use crate::dictionary::Dictionary;
use crate::i18n_error::I18nError;

verus! {

/// serde_json::Value, a parsed JSON document, held opaquely.
#[verifier::external_type_specification]
#[verifier::external_body]
pub struct ExJsonValue(serde_json::Value);

/// Relies on serde_json::from_str: parses a JSON document.
#[verifier::external_body]
fn parse_json(s: &str) -> (r: Result<serde_json::Value, serde_json::Error>) {
    serde_json::from_str(s)
}

/// Relies on serde_json::Value: strings and objects as they are, any other
/// value as its JSON text (Value's Display).
#[verifier::external_body]
fn json_tree(v: &serde_json::Value) -> (r: DictValue) {
    match v {
        serde_json::Value::String(s) => DictValue::Text(s.clone()),
        serde_json::Value::Object(m) => DictValue::Group(
            m.iter().map(|(k, x)| (DictKey::Text(k.clone()), json_tree(x))).collect(),
        ),
        other => DictValue::Written(other.to_string()),
    }
}

/// Adds the messages of a JSON object to `dict` under `namespace.`; nested
/// objects give dotted keys. A document that is not an object adds nothing.
pub fn load_into(json_str: &str, namespace: &str, dict: &mut Dictionary) -> (r: Result<(), I18nError>)
    requires
        old(dict).wf(),
    ensures
        final(dict).wf(),
        r matches Err(e) ==> e is Json,
{
    match parse_json(json_str) {
        Ok(value) => {
            match json_tree(&value) {
                DictValue::Group(pairs) => flatten_into(&pairs, namespace, dict),
                _ => {},
            }
            Ok(())
        },
        Err(e) => Err(I18nError::Json(e)),
    }
}

/// A dictionary of the messages of a JSON object, under `namespace.`.
pub fn load(json_str: &str, namespace: &str) -> (r: Result<Dictionary, I18nError>)
    ensures
        r matches Ok(d) ==> d.wf(),
        r matches Err(e) ==> e is Json,
{
    let mut dict = Dictionary::new();
    load_into(json_str, namespace, &mut dict)?;
    Ok(dict)
}

} // verus!
