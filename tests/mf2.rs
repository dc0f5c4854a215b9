use ox_content::checker::{check_all, check_syntax_errors, check_type_mismatch, error_text, Severity};
use ox_content::dictionary::{Dictionary, DictionarySet};
use ox_content::key::KeyPath;
use ox_content::locale::Locale;
use ox_content::mf2_ast::{ComplexBody, Declaration, Message, Operand, OptionValue, PatternPart, VariantKey};
use ox_content::mf2_lexer::{tokenize, Token};
use ox_content::mf2_parser::{parse, parse_and_validate};
use ox_content::mf2_validator::{extract_variables, validate};

#[test]
fn lexer_simple_text() {
    let tokens = tokenize("Hello world").unwrap();
    assert_eq!(tokens.len(), 1);
    assert_eq!(tokens[0].token, Token::Text("Hello world".to_string()));
}

#[test]
fn lexer_simple_variable() {
    let tokens = tokenize("{$name}").unwrap();
    assert_eq!(tokens.len(), 3);
    assert_eq!(tokens[0].token, Token::OpenBrace);
    assert_eq!(tokens[1].token, Token::Variable("name".to_string()));
    assert_eq!(tokens[2].token, Token::CloseBrace);
}

#[test]
fn text_with_variable() {
    let tokens = tokenize("Hello {$name}!").unwrap();
    assert_eq!(tokens.len(), 5);
    assert_eq!(tokens[0].token, Token::Text("Hello ".to_string()));
    assert_eq!(tokens[1].token, Token::OpenBrace);
    assert_eq!(tokens[2].token, Token::Variable("name".to_string()));
    assert_eq!(tokens[3].token, Token::CloseBrace);
    assert_eq!(tokens[4].token, Token::Text("!".to_string()));
}

#[test]
fn lexer_variable_with_function() {
    let tokens = tokenize("{$count :number}").unwrap();
    assert_eq!(tokens.len(), 4);
    assert_eq!(tokens[0].token, Token::OpenBrace);
    assert_eq!(tokens[1].token, Token::Variable("count".to_string()));
    assert_eq!(tokens[2].token, Token::Function("number".to_string()));
    assert_eq!(tokens[3].token, Token::CloseBrace);
}

#[test]
fn function_with_option() {
    let tokens = tokenize("{$amount :number minimumFractionDigits=2}").unwrap();
    assert_eq!(tokens.len(), 7);
    assert_eq!(tokens[0].token, Token::OpenBrace);
    assert_eq!(tokens[1].token, Token::Variable("amount".to_string()));
    assert_eq!(tokens[2].token, Token::Function("number".to_string()));
    assert_eq!(tokens[3].token, Token::Name("minimumFractionDigits".to_string()));
    assert_eq!(tokens[4].token, Token::Equals);
    assert_eq!(tokens[5].token, Token::Number("2".to_string()));
    assert_eq!(tokens[6].token, Token::CloseBrace);
}

#[test]
fn dot_input() {
    let tokens = tokenize(".input {$count :number}").unwrap();
    assert_eq!(tokens[0].token, Token::DotInput);
}

#[test]
fn dot_match_with_variants() {
    let source = ".input {$count :number}\n.match $count\none {{Hello}}\n* {{default}}";
    let tokens = tokenize(source).unwrap();
    assert!(tokens.iter().any(|t| t.token == Token::DotInput));
    assert!(tokens.iter().any(|t| t.token == Token::DotMatch));
    assert!(tokens.iter().any(|t| t.token == Token::Star));
    assert!(tokens.iter().any(|t| t.token == Token::DoubleOpenBrace));
}

#[test]
fn quoted_literal() {
    let tokens = tokenize("{|hello world| :string}").unwrap();
    assert_eq!(tokens[1].token, Token::QuotedLiteral("hello world".to_string()));
}

#[test]
fn lexer_text_with_punctuation() {
    let tokens = tokenize("You have {$count} items.").unwrap();
    assert_eq!(tokens.len(), 5);
    assert_eq!(tokens[0].token, Token::Text("You have ".to_string()));
    assert_eq!(tokens[4].token, Token::Text(" items.".to_string()));
}

#[test]
fn lexer_spans_are_byte_offsets() {
    let tokens = tokenize("é {$x}").unwrap();
    assert_eq!(tokens[0].span, 0..3);
    assert_eq!(tokens[2].span, 4..6);
    assert!(tokenize("{$x").is_err());
    assert_eq!(tokenize("{$}"), Err(2));
}

#[test]
fn parser_simple_text() {
    let msg = parse("Hello world").unwrap();
    match msg {
        Message::Simple(pat) => {
            assert_eq!(pat.parts.len(), 1);
            assert!(matches!(&pat.parts[0], PatternPart::Text(t) if t == "Hello world"));
        }
        _ => panic!("expected simple message"),
    }
}

#[test]
fn parser_simple_variable() {
    let msg = parse("Hello {$name}").unwrap();
    match msg {
        Message::Simple(pat) => {
            assert_eq!(pat.parts.len(), 2);
            assert!(matches!(&pat.parts[0], PatternPart::Text(t) if t == "Hello "));
            match &pat.parts[1] {
                PatternPart::Expression(expr) => {
                    assert_eq!(expr.operand, Some(Operand::Variable("name".to_string())));
                }
                _ => panic!("expected expression"),
            }
        }
        _ => panic!("expected simple message"),
    }
}

#[test]
fn parser_variable_with_function() {
    let msg = parse("{$amount :number minimumFractionDigits=2}").unwrap();
    match msg {
        Message::Simple(pat) => {
            assert_eq!(pat.parts.len(), 1);
            match &pat.parts[0] {
                PatternPart::Expression(expr) => {
                    assert_eq!(expr.operand, Some(Operand::Variable("amount".to_string())));
                    let ann = expr.annotation.as_ref().unwrap();
                    assert_eq!(ann.function, "number");
                    assert_eq!(ann.options.len(), 1);
                    assert_eq!(ann.options[0].name, "minimumFractionDigits");
                    assert_eq!(ann.options[0].value, OptionValue::Literal("2".to_string()));
                }
                _ => panic!("expected expression"),
            }
        }
        _ => panic!("expected simple message"),
    }
}

#[test]
fn complex_input_match() {
    let source = ".input {$count :number}\n.match $count\none {{You have {$count} notification.}}\n* {{You have {$count} notifications.}}";
    let msg = parse(source).unwrap();
    match msg {
        Message::Complex(cm) => {
            assert_eq!(cm.declarations.len(), 1);
            match &cm.declarations[0] {
                Declaration::Input(input) => {
                    assert_eq!(input.variable, "count");
                    assert_eq!(input.annotation.as_ref().unwrap().function, "number");
                }
                _ => panic!("expected input declaration"),
            }
            match &cm.body {
                ComplexBody::Matcher(matcher) => {
                    assert_eq!(matcher.selectors, vec!["count"]);
                    assert_eq!(matcher.variants.len(), 2);
                    assert_eq!(matcher.variants[0].keys, vec![VariantKey::Literal("one".to_string())]);
                    assert_eq!(matcher.variants[1].keys, vec![VariantKey::Wildcard]);
                }
                _ => panic!("expected matcher body"),
            }
        }
        _ => panic!("expected complex message"),
    }
}

#[test]
fn local_declaration() {
    let source = ".local $greeting = {$name :string}\n.match $greeting\n* {{Hello {$greeting}}}";
    let msg = parse(source).unwrap();
    match msg {
        Message::Complex(cm) => {
            assert_eq!(cm.declarations.len(), 1);
            match &cm.declarations[0] {
                Declaration::Local(local) => {
                    assert_eq!(local.variable, "greeting");
                }
                _ => panic!("expected local declaration"),
            }
        }
        _ => panic!("expected complex message"),
    }
}

#[test]
fn empty_message() {
    let msg = parse("").unwrap();
    match msg {
        Message::Simple(pat) => {
            assert!(pat.parts.is_empty());
        }
        _ => panic!("expected simple message"),
    }
}

#[test]
fn parser_text_with_punctuation() {
    let msg = parse("You have {$count} items.").unwrap();
    match msg {
        Message::Simple(pat) => {
            assert_eq!(pat.parts.len(), 3);
            assert!(matches!(&pat.parts[0], PatternPart::Text(t) if t == "You have "));
            assert!(matches!(&pat.parts[1], PatternPart::Expression(_)));
            assert!(matches!(&pat.parts[2], PatternPart::Text(t) if t == " items."));
        }
        _ => panic!("expected simple message"),
    }
}

#[test]
fn parse_errors() {
    assert!(parse("{$x").is_err());
    assert!(parse(".match\n* {{a}}").is_err());
    let e = parse("{ }").unwrap_err();
    assert!(error_text(&e).starts_with("MF2 parse error at offset"));
}

#[test]
fn valid_simple_message() {
    let msg = parse("Hello {$name}").unwrap();
    let errors = validate(&msg);
    assert!(errors.is_empty());
}

#[test]
fn valid_complex_message() {
    let source = ".input {$count :number}\n.match $count\none {{one}}\n* {{other}}";
    let msg = parse(source).unwrap();
    let errors = validate(&msg);
    assert!(errors.is_empty());
}

#[test]
fn missing_catch_all() {
    let source = ".input {$count :number}\n.match $count\none {{one}}";
    let msg = parse(source).unwrap();
    let errors = validate(&msg);
    assert!(!errors.is_empty());
    assert!(errors.iter().any(|e| error_text(e).contains("catch-all")));
}

#[test]
fn duplicate_option() {
    let msg = parse("{$x :number style=decimal style=percent}").unwrap();
    let errors = validate(&msg);
    assert!(errors.iter().any(|e| error_text(e).contains("duplicate option")));
}

#[test]
fn undeclared_selector_and_parse_and_validate() {
    let (_, errors) = parse_and_validate(".match $n\n* {{x}}").unwrap();
    assert_eq!(errors.len(), 1);
    assert!(error_text(&errors[0]).contains("selector '$n' is not declared"));
}

#[test]
fn extract_variables_simple() {
    let msg = parse("Hello {$name}, you have {$count} items").unwrap();
    let vars = extract_variables(&msg);
    assert!(vars.contains(&"name".to_string()));
    assert!(vars.contains(&"count".to_string()));
    assert_eq!(vars.len(), 2);
}

#[test]
fn extract_variables_complex() {
    let source = ".input {$count :number}\n.match $count\none {{You have {$count} item.}}\n* {{You have {$count} items.}}";
    let msg = parse(source).unwrap();
    let vars = extract_variables(&msg);
    assert!(vars.contains(&"count".to_string()));
    assert_eq!(vars.len(), 1);
}

#[test]
fn type_mismatch() {
    let mut set = DictionarySet::new();

    let mut en = Dictionary::new();
    en.insert(KeyPath::new("msg"), "Hello {$name} {$count}".to_string());
    set.insert(Locale::new("en").unwrap(), en);

    let mut ja = Dictionary::new();
    ja.insert(KeyPath::new("msg"), "こんにちは {$name}".to_string());
    set.insert(Locale::new("ja").unwrap(), ja);

    let diags = check_type_mismatch(&set);
    assert!(!diags.is_empty());
    assert!(diags.iter().any(|d| d.message.contains("missing variables")));
    assert_eq!(diags[0].message, "locale 'ja' is missing variables [\"count\"] (present in 'en')");
}

#[test]
fn syntax_errors_and_check_all() {
    let mut set = DictionarySet::new();
    let mut en = Dictionary::new();
    en.insert(KeyPath::new("bad"), "{$x".to_string());
    en.insert(KeyPath::new("dup"), "{$x :number a=1 a=2}".to_string());
    set.insert(Locale::new("en").unwrap(), en);
    let diags = check_syntax_errors(&set);
    assert_eq!(diags.len(), 2);
    assert_eq!(diags[0].severity, Severity::Error);
    assert!(diags[0].message.starts_with("MF2 syntax error: MF2 parse error at offset 3"));
    assert_eq!(diags[1].severity, Severity::Warning);
    let all = check_all(&vec!["bad".to_string(), "gone".to_string()], &set);
    assert_eq!(all.len(), 1 + 1 + 0 + 2);
}
