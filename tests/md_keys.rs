use ox_content::md_keys::{collect_md_keys, extract_key_from_expression};

#[test]
fn simple_md_key() {
    let usages = collect_md_keys("# Title\n\n{{t('common.greeting')}}", "test.md");
    assert_eq!(usages.len(), 1);
    assert_eq!(usages[0].key, "common.greeting");
    assert_eq!(usages[0].line, 3);
}

#[test]
fn dollar_t_in_md() {
    let usages = collect_md_keys("{{$t('nav.home')}}", "test.md");
    assert_eq!(usages.len(), 1);
    assert_eq!(usages[0].key, "nav.home");
}

#[test]
fn spaces_in_braces() {
    let usages = collect_md_keys("{{ t('key') }}", "test.md");
    assert_eq!(usages.len(), 1);
    assert_eq!(usages[0].key, "key");
}

#[test]
fn double_quotes() {
    let usages = collect_md_keys(r#"{{t("key")}}"#, "test.md");
    assert_eq!(usages.len(), 1);
    assert_eq!(usages[0].key, "key");
}

#[test]
fn multiple_keys() {
    let usages = collect_md_keys("{{t('key1')}} some text {{t('key2')}}", "test.md");
    assert_eq!(usages.len(), 2);
}

#[test]
fn no_keys() {
    let usages = collect_md_keys("# Just a heading\n\nNo keys here.", "test.md");
    assert!(usages.is_empty());
}

#[test]
fn md_key_columns_count_bytes() {
    let usages = collect_md_keys("é {{t('k')}}\n  {{ $t( \"x\" ) }}", "a.md");
    assert_eq!(usages.len(), 2);
    assert_eq!((usages[0].line, usages[0].column), (1, 4));
    assert_eq!((usages[1].line, usages[1].column), (2, 3));
    assert_eq!(usages[1].key, "x");
    assert_eq!(usages[1].file_path, "a.md");
}

#[test]
fn expression_forms() {
    let k = |s: &str| extract_key_from_expression(&s.chars().collect());
    assert_eq!(k(" t('a.b') "), Some("a.b".to_string()));
    assert_eq!(k("t(\"x\")"), Some("x".to_string()));
    assert_eq!(k("t('x\")"), None);
    assert_eq!(k("t(x)"), None);
    assert_eq!(k("t('x'"), None);
    assert_eq!(k("t(')"), None);
    assert_eq!(k("u('x')"), None);
}
