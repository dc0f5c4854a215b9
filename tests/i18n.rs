use ox_content::checker::{check_missing_keys, check_unused_keys, Severity};
use ox_content::dictionary::{Dictionary, DictionarySet};
use ox_content::key::KeyPath;
use ox_content::locale::Locale;

fn make_dict_set() -> DictionarySet {
    let mut set = DictionarySet::new();
    set.set_default_locale(Locale::new("en").unwrap());

    let mut en = Dictionary::new();
    en.insert(KeyPath::new("common.greeting"), "Hello {$name}".to_string());
    en.insert(KeyPath::new("common.farewell"), "Goodbye".to_string());
    set.insert(Locale::new("en").unwrap(), en);

    let mut ja = Dictionary::new();
    ja.insert(KeyPath::new("common.greeting"), "こんにちは {$name}".to_string());
    set.insert(Locale::new("ja").unwrap(), ja);

    set
}

#[test]
fn key_path_segments() {
    let key = KeyPath::new("common.greeting");
    let segments: Vec<String> = key.segments();
    assert_eq!(segments, vec!["common", "greeting"]);
}

#[test]
fn key_path_namespace() {
    let key = KeyPath::new("navigation.home");
    assert_eq!(key.namespace(), "navigation");
}

#[test]
fn key_path_leaf() {
    let key = KeyPath::new("navigation.home");
    assert_eq!(key.leaf(), "home");
}

#[test]
fn key_path_depth() {
    assert_eq!(KeyPath::new("a").depth(), 1);
    assert_eq!(KeyPath::new("a.b").depth(), 2);
    assert_eq!(KeyPath::new("a.b.c").depth(), 3);
}

#[test]
fn single_segment_key() {
    let key = KeyPath::new("greeting");
    assert_eq!(key.namespace(), "greeting");
    assert_eq!(key.leaf(), "greeting");
    assert_eq!(key.depth(), 1);
}

#[test]
fn key_path_empty_segments() {
    let key = KeyPath::new("a..b.");
    assert_eq!(key.segments(), vec!["a", "", "b", ""]);
    assert_eq!(key.depth(), 4);
    assert_eq!(key.leaf(), "");
    assert_eq!(key.as_str(), "a..b.");
}

#[test]
fn valid_locales() {
    assert!(Locale::new("en").is_ok());
    assert!(Locale::new("en-US").is_ok());
    assert!(Locale::new("zh-Hans-CN").is_ok());
    assert!(Locale::new("ja").is_ok());
}

#[test]
fn invalid_locales() {
    assert!(Locale::new("").is_err());
    assert!(Locale::new("-").is_err());
    assert!(Locale::new("en-").is_err());
    assert!(Locale::new("en--US").is_err());
    assert!(Locale::new("en US").is_err());
}

#[test]
fn language_subtag() {
    let locale = Locale::new("en-US").unwrap();
    assert_eq!(locale.language(), "en");

    let locale = Locale::new("ja").unwrap();
    assert_eq!(locale.language(), "ja");
}

#[test]
fn locale_trims_surrounding_whitespace() {
    let locale = Locale::new("  de-AT\n").unwrap();
    assert_eq!(locale.as_str(), "de-AT");
    assert!(Locale::new("   ").is_err());
    assert!(Locale::new("é").is_err());
}

#[test]
fn dictionary_basic_ops() {
    let mut dict = Dictionary::new();
    assert!(dict.is_empty());

    dict.insert(KeyPath::new("greeting"), "Hello".to_string());
    assert_eq!(dict.len(), 1);
    assert_eq!(dict.get("greeting"), Some("Hello"));
    assert_eq!(dict.get("missing"), None);
}

#[test]
fn dictionary_insert_replaces() {
    let mut dict = Dictionary::new();
    dict.insert(KeyPath::new("a"), "1".to_string());
    dict.insert(KeyPath::new("b"), "2".to_string());
    dict.insert(KeyPath::new("a"), "3".to_string());
    assert_eq!(dict.len(), 2);
    assert_eq!(dict.get("a"), Some("3"));
    assert_eq!(dict.keys(), vec!["a", "b"]);
    assert_eq!(dict.iter(), vec![("a", "3"), ("b", "2")]);
}

#[test]
fn dictionary_set_translate() {
    let mut set = DictionarySet::new();
    set.set_default_locale(Locale::new("en").unwrap());

    let mut en = Dictionary::new();
    en.insert(KeyPath::new("greeting"), "Hello".to_string());
    en.insert(KeyPath::new("farewell"), "Goodbye".to_string());
    set.insert(Locale::new("en").unwrap(), en);

    let mut ja = Dictionary::new();
    ja.insert(KeyPath::new("greeting"), "こんにちは".to_string());
    set.insert(Locale::new("ja").unwrap(), ja);

    assert_eq!(set.translate("ja", "greeting"), Some("こんにちは"));
    assert_eq!(set.translate("ja", "farewell"), Some("Goodbye"));
    assert_eq!(set.translate("ja", "nonexistent"), None);
}

#[test]
fn dictionary_set_locales() {
    let mut set = DictionarySet::new();
    set.insert(Locale::new("en").unwrap(), Dictionary::new());
    set.insert(Locale::new("ja").unwrap(), Dictionary::new());

    let mut locales: Vec<&str> = set.locales();
    locales.sort_unstable();
    assert_eq!(locales, vec!["en", "ja"]);
    assert_eq!(set.locale_count(), 2);
    assert!(set.default_locale().is_none());
    assert!(set.get("en").is_some());
    assert!(set.get("fr").is_none());
}

#[test]
fn translate_unknown_locale_falls_back() {
    let set = make_dict_set();
    assert_eq!(set.translate("fr", "common.farewell"), Some("Goodbye"));
    assert_eq!(set.default_locale().map(|l| l.as_str()), Some("en"));
}

#[test]
fn missing_keys() {
    let dict_set = make_dict_set();
    let used = vec!["common.greeting".to_string(), "common.unknown".to_string()];

    let diags = check_missing_keys(&used, &dict_set);
    assert!(!diags.is_empty());
    assert!(diags.iter().any(|d| d.message.contains("common.unknown")));
    assert_eq!(diags.len(), 2);
    assert!(diags.iter().all(|d| d.severity == Severity::Error));
}

#[test]
fn unused_keys() {
    let dict_set = make_dict_set();
    let used: Vec<String> = Vec::new();

    let diags = check_unused_keys(&used, &dict_set);
    assert!(!diags.is_empty());
    assert_eq!(diags.len(), 3);
    assert_eq!(diags[0].key.as_deref(), Some("common.greeting"));
    assert_eq!(diags[0].locale.as_deref(), Some("en"));
    assert_eq!(diags[0].message, "unused translation key 'common.greeting'");
}

#[test]
fn repeated_used_key_reported_once() {
    let dict_set = make_dict_set();
    let used = vec!["x.y".to_string(), "x.y".to_string()];
    let diags = check_missing_keys(&used, &dict_set);
    assert_eq!(diags.len(), 2);
    assert_eq!(diags[0].message, "missing translation for key 'x.y'");
    assert_eq!(diags[1].locale.as_deref(), Some("ja"));
}
