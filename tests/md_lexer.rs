use ox_content::md_lexer::Token;

#[test]
fn test_heading_prefix() {
    let mut lexer = Token::lexer("# ");
    assert_eq!(lexer.next(), Some(Ok(Token::HeadingPrefix(1))));
}

#[test]
fn test_thematic_break() {
    let mut lexer = Token::lexer("---");
    assert_eq!(lexer.next(), Some(Ok(Token::ThematicBreak)));
}

#[test]
fn test_ordered_list() {
    let mut lexer = Token::lexer("1. ");
    assert_eq!(lexer.next(), Some(Ok(Token::OrderedListMarker(Some(1)))));
}

#[test]
fn lexer_longest_match_sequence() {
    let mut lexer = Token::lexer("## **bold** ~~x~~\n* * *");
    assert_eq!(lexer.next(), Some(Ok(Token::HeadingPrefix(2))));
    assert_eq!(lexer.next(), Some(Ok(Token::DoubleAsterisk)));
    assert_eq!(lexer.next(), Some(Ok(Token::Text)));
    assert_eq!(lexer.next(), Some(Ok(Token::DoubleAsterisk)));
    assert_eq!(lexer.next(), Some(Err(())));
    assert_eq!(lexer.next(), Some(Ok(Token::Strikethrough)));
    assert_eq!(lexer.next(), Some(Ok(Token::Text)));
    assert_eq!(lexer.next(), Some(Ok(Token::Strikethrough)));
    assert_eq!(lexer.next(), Some(Err(())));
    assert_eq!(lexer.next(), Some(Ok(Token::ThematicBreak)));
    assert_eq!(lexer.next(), None);
}

#[test]
fn lexer_markers_and_fences() {
    let mut lexer = Token::lexer("- item");
    assert_eq!(lexer.next(), Some(Ok(Token::UnorderedListMarker)));
    let mut lexer = Token::lexer("12.  x");
    assert_eq!(lexer.next(), Some(Ok(Token::OrderedListMarker(None))));
    let mut lexer = Token::lexer("```rust\nx");
    assert_eq!(lexer.next(), Some(Ok(Token::FencedCodeDelimiter)));
    let mut lexer = Token::lexer(">_");
    assert_eq!(lexer.next(), Some(Ok(Token::BlockQuotePrefix)));
    assert_eq!(lexer.next(), Some(Ok(Token::Underscore)));
    let mut lexer = Token::lexer("####### x");
    assert_eq!(lexer.next(), Some(Err(())));
}
