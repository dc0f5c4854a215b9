use vstd::prelude::*;

verus! {

/// serde_json::Error, a JSON syntax error, held opaquely.
#[verifier::external_type_specification]
#[verifier::external_body]
pub struct ExJsonError(serde_json::Error);

/// serde_yaml::Error, a YAML syntax error, held opaquely.
#[verifier::external_type_specification]
#[verifier::external_body]
pub struct ExYamlError(serde_yaml::Error);

/// Relies on serde_json::Error's Display: the parser's message.
#[verifier::external_body]
pub(crate) fn json_error_text(e: &serde_json::Error) -> String {
    e.to_string()
}

/// Relies on serde_yaml::Error's Display: the parser's message.
#[verifier::external_body]
pub(crate) fn yaml_error_text(e: &serde_yaml::Error) -> String {
    e.to_string()
}

/// Errors of the translation tools.
#[derive(Debug)]
pub enum I18nError {
    /// A message failed to parse.
    Mf2Parse { offset: usize, message: String },
    /// A message parsed but is not valid.
    Mf2Validation { message: String },
    /// A dictionary could not be loaded.
    DictionaryLoad { locale: String, message: String },
    /// A key has no translation.
    MissingKey { key: String, locale: String },
    /// A locale tag is malformed.
    InvalidLocale { locale: String, message: String },
    /// A JSON dictionary did not parse.
    Json(serde_json::Error),
    /// A YAML dictionary did not parse.
    Yaml(serde_yaml::Error),
}

} // verus!
