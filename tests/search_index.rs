use ox_content::allocator::Allocator;
use ox_content::ast::{Document, Heading, Node, Text};
use ox_content::parser::{Parser, ParserOptions};
use ox_content::search_index::{document_terms, Field, SearchDocument, SearchIndexBuilder};
use ox_content::search_indexer::DocumentIndexer;
use ox_content::span::Span;

#[test]
fn test_extract_title() {
    let heading_children = vec![Node::Text(Text { value: b"Test Title".to_vec(), span: Span::new(0, 10) })];
    let children = vec![Node::Heading(Heading { depth: 1, children: heading_children, span: Span::new(0, 12) })];
    let doc = Document { children, span: Span::new(0, 12) };

    let mut indexer = DocumentIndexer::new();
    indexer.extract(&doc);

    assert_eq!(indexer.title(), Some("Test Title"));
}

#[test]
fn indexer_collects_fields() {
    let src = "## Intro\n\n# Main `x`\n\nSome *body* text\n\n```\ncode();\n```\n\n| a |\n|---|\n| cell |";
    let allocator = Allocator::new();
    let doc = Parser::with_options(&allocator, src, ParserOptions::gfm()).parse().unwrap();
    let mut indexer = DocumentIndexer::new();
    indexer.extract(&doc);
    assert_eq!(indexer.title(), Some("Main x"));
    assert_eq!(indexer.headings().to_vec(), vec!["Intro".to_string(), "Main x".to_string()]);
    assert_eq!(indexer.body(), "Some  body  text a cell");
    assert_eq!(indexer.code().to_vec(), vec!["code();\n".to_string()]);
    let sd = indexer.into_search_document("id1".to_string(), "/x".to_string());
    assert_eq!(sd.title, "Main x");
    assert_eq!(sd.url, "/x");
    assert_eq!(sd.headings.len(), 2);
}

#[test]
fn indexer_without_title() {
    let indexer = DocumentIndexer::new();
    let sd = indexer.into_search_document("a".to_string(), "b".to_string());
    assert_eq!(sd.title, "");
    assert!(sd.body.is_empty());
}

#[test]
fn builder_keeps_documents_in_order() {
    let mut b = SearchIndexBuilder::new();
    b.add_simple("1", "Getting Started", "/getting-started", "Welcome");
    b.add_document(SearchDocument {
        id: "2".to_string(),
        title: "Install".to_string(),
        url: "/install".to_string(),
        body: "How".to_string(),
        headings: vec!["Steps".to_string()],
        code: Vec::new(),
    });
    let docs = b.into_documents();
    assert_eq!(docs.len(), 2);
    assert_eq!(docs[0].title, "Getting Started");
    assert_eq!(docs[0].url, "/getting-started");
    assert_eq!(docs[1].headings, vec!["Steps".to_string()]);
}

#[test]
fn document_terms_count_in_field_order() {
    let doc = SearchDocument {
        id: "d".to_string(),
        title: "Rust guide".to_string(),
        url: "/d".to_string(),
        body: "rust tools and rust code".to_string(),
        headings: vec!["Tools".to_string()],
        code: vec![],
    };
    let (terms, body_len) = document_terms(&doc);
    assert_eq!(body_len, 4);
    let got: Vec<(String, u32, Field)> = terms;
    assert_eq!(
        got,
        vec![
            ("rust".to_string(), 3, Field::Title),
            ("guide".to_string(), 1, Field::Title),
            ("tools".to_string(), 2, Field::Heading),
            ("code".to_string(), 1, Field::Body),
        ]
    );
}
