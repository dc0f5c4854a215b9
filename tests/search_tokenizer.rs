use ox_content::search_tokenizer::{is_stopword, tokenize, tokenize_query};

#[test]
fn test_tokenize_english() {
    let tokens = tokenize("Hello, World! This is a test.");
    assert_eq!(tokens, vec!["hello", "world", "test"]);
}

#[test]
fn test_tokenize_japanese() {
    let tokens = tokenize("これはテストです");
    assert_eq!(tokens, vec!["こ", "れ", "は", "テ", "ス", "ト", "で", "す"]);
}

#[test]
fn test_tokenize_mixed() {
    let tokens = tokenize("Rustで検索エンジン");
    assert_eq!(tokens, vec!["rust", "で", "検", "索", "エ", "ン", "ジ", "ン"]);
}

#[test]
fn test_tokenize_code() {
    let tokens = tokenize("function_name variable_name");
    assert_eq!(tokens, vec!["function_name", "variable_name"]);
}

#[test]
fn query_keeps_short_words_and_stopwords() {
    assert_eq!(tokenize_query("The A-Team x"), vec!["the", "a", "team", "x"]);
    assert_eq!(tokenize("The A-Team x"), vec!["team"]);
    assert_eq!(tokenize("ÉCOLE"), vec!["école"]);
}

#[test]
fn stopword_list() {
    assert!(is_stopword("the"));
    assert!(is_stopword("your"));
    assert!(!is_stopword("rust"));
}
