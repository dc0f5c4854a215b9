use ox_content::check_run::{check, format_diagnostics_text, CheckConfig, SerializableDiagnostic};
use ox_content::checker::Severity;
use ox_content::dict_json;
use ox_content::dict_yaml;
use ox_content::dictionary::DictionarySet;
use ox_content::locale::Locale;

#[test]
fn flat_json() {
    let json = r#"{ "greeting": "Hello {$name}", "farewell": "Goodbye" }"#;
    let dict = dict_json::load(json, "common").unwrap();
    assert_eq!(dict.get("common.greeting"), Some("Hello {$name}"));
    assert_eq!(dict.get("common.farewell"), Some("Goodbye"));
}

#[test]
fn nested_json() {
    let json = r#"{ "nav": { "home": "Home", "about": "About" } }"#;
    let dict = dict_json::load(json, "common").unwrap();
    assert_eq!(dict.get("common.nav.home"), Some("Home"));
    assert_eq!(dict.get("common.nav.about"), Some("About"));
}

#[test]
fn numeric_value() {
    let json = r#"{ "count": 42 }"#;
    let dict = dict_json::load(json, "ns").unwrap();
    assert_eq!(dict.get("ns.count"), Some("42"));
}

#[test]
fn empty_object() {
    let dict = dict_json::load("{}", "ns").unwrap();
    assert!(dict.is_empty());
}

#[test]
fn invalid_json() {
    let result = dict_json::load("not json", "ns");
    assert!(result.is_err());
}

#[test]
fn flat_yaml() {
    let yaml = "greeting: Hello {$name}\nfarewell: Goodbye\n";
    let dict = dict_yaml::load(yaml, "common").unwrap();
    assert_eq!(dict.get("common.greeting"), Some("Hello {$name}"));
    assert_eq!(dict.get("common.farewell"), Some("Goodbye"));
}

#[test]
fn nested_yaml() {
    let yaml = "nav:\n  home: Home\n  about: About\n";
    let dict = dict_yaml::load(yaml, "common").unwrap();
    assert_eq!(dict.get("common.nav.home"), Some("Home"));
    assert_eq!(dict.get("common.nav.about"), Some("About"));
}

#[test]
fn empty_yaml() {
    let dict = dict_yaml::load("{}", "ns").unwrap();
    assert!(dict.is_empty());
}

#[test]
fn invalid_yaml() {
    let result = dict_yaml::load(":\n  :\n    :", "ns");
    let _ = result;
}

#[test]
fn yaml_scalars() {
    let dict = dict_yaml::load("n: 3\nb: true\nz: ~\n", "x").unwrap();
    assert_eq!(dict.get("x.n"), Some("3"));
    assert_eq!(dict.get("x.b"), Some("true"));
    assert_eq!(dict.get("x.z"), Some(""));
}

#[test]
fn check_counts_and_formats() {
    let mut set = DictionarySet::new();
    set.insert(Locale::new("en").unwrap(), dict_json::load(r#"{"a": "A", "b": "{$x"}"#, "ns").unwrap());
    let config = CheckConfig::default();
    assert_eq!(config.dict_dir, "content/i18n");
    let result = check(&config, vec!["ns.a".to_string(), "ns.c".to_string()], set);
    assert_eq!(result.error_count, 2);
    assert_eq!(result.warning_count, 1);
    assert_eq!(result.used_keys.len(), 2);
    let text = format_diagnostics_text(&result.diagnostics);
    assert!(text.starts_with("[error] missing translation for key 'ns.c' (key: ns.c) (locale: en)"));
    let s = SerializableDiagnostic::of(&result.diagnostics[0]);
    assert_eq!(s.severity, "error");
    assert_eq!(result.diagnostics[0].severity, Severity::Error);
}
