use ox_content::dictionary::{Dictionary, DictionarySet};
use ox_content::key::KeyPath;
use ox_content::locale::Locale;
use ox_content::lsp_queries::{default_translation, find_key_line, translations_for_key};

fn set() -> DictionarySet {
    let mut set = DictionarySet::new();
    let mut en = Dictionary::new();
    en.insert(KeyPath::new("a.hi"), "Hello".to_string());
    set.insert(Locale::new("en").unwrap(), en);
    let mut ja = Dictionary::new();
    ja.insert(KeyPath::new("a.hi"), "こんにちは".to_string());
    ja.insert(KeyPath::new("a.only"), "ja".to_string());
    set.insert(Locale::new("ja").unwrap(), ja);
    set
}

#[test]
fn translations_in_locale_order() {
    let s = set();
    assert_eq!(
        translations_for_key(&s, "a.hi"),
        vec![("en".to_string(), "Hello".to_string()), ("ja".to_string(), "こんにちは".to_string())]
    );
    assert!(translations_for_key(&s, "zz").is_empty());
}

#[test]
fn default_translation_falls_back_to_first_locale() {
    let mut s = set();
    assert_eq!(default_translation(&s, "a.only"), Some("ja".to_string()));
    s.set_default_locale(Locale::new("en").unwrap());
    assert_eq!(default_translation(&s, "a.hi"), Some("Hello".to_string()));
    assert_eq!(default_translation(&s, "a.only"), None);
}

#[test]
fn key_lines() {
    let json = "{\n  \"nav\": {\n    \"home\": \"Home\"\n  }\n}";
    assert_eq!(find_key_line(json, "common.nav.home"), Some(2));
    let yaml = "nav:\n  home: Home\n";
    assert_eq!(find_key_line(yaml, "nav.home"), Some(1));
    assert_eq!(find_key_line(yaml, "x"), None);
}
