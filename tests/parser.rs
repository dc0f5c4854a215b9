use ox_content::allocator::Allocator;
use ox_content::ast::{AlignKind, Document, Node};
use ox_content::parser::{Parser, ParserOptions};

fn parse(src: &str) -> Document {
    let allocator = Allocator::new();
    Parser::new(&allocator, src).parse().unwrap()
}

fn parse_gfm(src: &str) -> Document {
    let allocator = Allocator::new();
    Parser::with_options(&allocator, src, ParserOptions::gfm()).parse().unwrap()
}

fn texts(nodes: &[Node]) -> String {
    let mut out = String::new();
    for n in nodes {
        match n {
            Node::Text(t) => out.push_str(std::str::from_utf8(&t.value).unwrap()),
            _ => panic!("expected only text, got {:?}", n),
        }
    }
    out
}

#[test]
fn test_parse_heading() {
    let doc = parse("# Hello\n");
    assert_eq!(doc.children.len(), 1);
    match &doc.children[0] {
        Node::Heading(h) => {
            assert_eq!(h.depth, 1);
        }
        _ => panic!("expected heading"),
    }
}

#[test]
fn test_parse_paragraph() {
    let doc = parse("Hello world");
    assert_eq!(doc.children.len(), 1);
    assert!(matches!(&doc.children[0], Node::Paragraph(_)));
}

#[test]
fn test_parse_thematic_break() {
    let doc = parse("---");
    assert_eq!(doc.children.len(), 1);
    assert!(matches!(&doc.children[0], Node::ThematicBreak(_)));
}

#[test]
fn test_parse_fenced_code() {
    let doc = parse("```rust\nfn main() {}\n```");
    assert_eq!(doc.children.len(), 1);
    match &doc.children[0] {
        Node::CodeBlock(cb) => {
            assert_eq!(cb.lang, Some(b"rust".to_vec()));
        }
        _ => panic!("expected code block"),
    }
}

#[test]
fn test_parse_inline_code() {
    let doc = parse("Use `code` here");
    assert_eq!(doc.children.len(), 1);
    match &doc.children[0] {
        Node::Paragraph(p) => {
            assert!(p.children.iter().any(|n| matches!(n, Node::InlineCode(_))));
        }
        _ => panic!("expected paragraph"),
    }
}

#[test]
fn test_parse_table() {
    let table_md = "| Header 1 | Header 2 |\n|----------|----------|\n| Cell 1   | Cell 2   |";
    let doc = parse_gfm(table_md);
    assert_eq!(doc.children.len(), 1);
    match &doc.children[0] {
        Node::Table(t) => {
            assert_eq!(t.children.len(), 2);
        }
        _ => panic!("expected table, got {:?}", &doc.children[0]),
    }
}

#[test]
fn test_parse_unordered_list() {
    let doc = parse("- Item 1\n- Item 2\n- Item 3");
    assert_eq!(doc.children.len(), 1);
    match &doc.children[0] {
        Node::List(list) => {
            assert!(!list.ordered);
            assert_eq!(list.children.len(), 3);
        }
        _ => panic!("expected list, got {:?}", &doc.children[0]),
    }
}

#[test]
fn test_parse_ordered_list() {
    let doc = parse("1. First\n2. Second\n3. Third");
    assert_eq!(doc.children.len(), 1);
    match &doc.children[0] {
        Node::List(list) => {
            assert!(list.ordered);
            assert_eq!(list.start, Some(1));
            assert_eq!(list.children.len(), 3);
        }
        _ => panic!("expected list, got {:?}", &doc.children[0]),
    }
}

#[test]
fn heading_depths_one_to_six_and_seven() {
    for n in 1..=6usize {
        let src = format!("{} Title", "#".repeat(n));
        let doc = parse(&src);
        match &doc.children[0] {
            Node::Heading(h) => {
                assert_eq!(h.depth as usize, n);
                assert_eq!(texts(&h.children), "Title");
            }
            other => panic!("expected heading, got {:?}", other),
        }
    }
    let doc = parse("####### Title");
    assert!(matches!(&doc.children[0], Node::Paragraph(_)));
}

#[test]
fn heading_trailing_hashes_removed() {
    let doc = parse("## Hi ##  \nnext");
    match &doc.children[0] {
        Node::Heading(h) => {
            assert_eq!(h.depth, 2);
            assert_eq!(texts(&h.children), "Hi");
            assert_eq!((h.span.start, h.span.end), (0, 11));
        }
        other => panic!("expected heading, got {:?}", other),
    }
    assert!(matches!(&doc.children[1], Node::Paragraph(_)));
}

#[test]
fn thematic_break_variants() {
    for src in ["***", "___", "- - -", " *  *\t* ", "-----"] {
        let doc = parse(src);
        assert!(matches!(&doc.children[0], Node::ThematicBreak(_)), "{:?}", src);
    }
    for src in ["-*-", "--", "*_*"] {
        let doc = parse(src);
        assert!(!matches!(&doc.children[0], Node::ThematicBreak(_)), "{:?}", src);
    }
}

#[test]
fn fenced_code_round_trip() {
    let doc = parse("```lang\ncontent\n```");
    match &doc.children[0] {
        Node::CodeBlock(cb) => {
            assert_eq!(cb.lang, Some(b"lang".to_vec()));
            assert_eq!(cb.meta, None);
            assert_eq!(cb.value, b"content\n".to_vec());
        }
        other => panic!("expected code block, got {:?}", other),
    }
}

#[test]
fn fenced_code_short_closing_fence_is_content() {
    let doc = parse("````js title\na\n```\nb\n````\nafter");
    assert_eq!(doc.children.len(), 2);
    match &doc.children[0] {
        Node::CodeBlock(cb) => {
            assert_eq!(cb.lang, Some(b"js".to_vec()));
            assert_eq!(cb.meta, Some(b"title".to_vec()));
            assert_eq!(cb.value, b"a\n```\nb\n".to_vec());
        }
        other => panic!("expected code block, got {:?}", other),
    }
}

#[test]
fn fenced_code_unclosed_runs_to_end() {
    let doc = parse("~~~\nx\ny");
    match &doc.children[0] {
        Node::CodeBlock(cb) => {
            assert_eq!(cb.lang, None);
            assert_eq!(cb.value, b"x\ny".to_vec());
        }
        other => panic!("expected code block, got {:?}", other),
    }
}

#[test]
fn emphasis_strong_and_unmatched() {
    let doc = parse("*a*");
    match &doc.children[0] {
        Node::Paragraph(p) => match &p.children[0] {
            Node::Emphasis(e) => assert_eq!(texts(&e.children), "a"),
            other => panic!("expected emphasis, got {:?}", other),
        },
        other => panic!("expected paragraph, got {:?}", other),
    }
    let doc = parse("**a**");
    match &doc.children[0] {
        Node::Paragraph(p) => match &p.children[0] {
            Node::Strong(s) => assert_eq!(texts(&s.children), "a"),
            other => panic!("expected strong, got {:?}", other),
        },
        other => panic!("expected paragraph, got {:?}", other),
    }
    let doc = parse("*a");
    match &doc.children[0] {
        Node::Paragraph(p) => assert_eq!(texts(&p.children), "*a"),
        other => panic!("expected paragraph, got {:?}", other),
    }
}

#[test]
fn links_escapes_and_code() {
    let doc = parse("see [the *docs*](http://x.y/(z)) \\* `a*b`");
    match &doc.children[0] {
        Node::Paragraph(p) => {
            match &p.children[1] {
                Node::Link(l) => {
                    assert_eq!(l.url, b"http://x.y/(z)".to_vec());
                    assert!(matches!(&l.children[1], Node::Emphasis(_)));
                }
                other => panic!("expected link, got {:?}", other),
            }
            match &p.children[3] {
                Node::Text(t) => assert_eq!(t.value, b"*".to_vec()),
                other => panic!("expected escaped text, got {:?}", other),
            }
            match &p.children[5] {
                Node::InlineCode(c) => assert_eq!(c.value, b"a*b".to_vec()),
                other => panic!("expected code, got {:?}", other),
            }
        }
        other => panic!("expected paragraph, got {:?}", other),
    }
    let doc = parse("[not a link");
    match &doc.children[0] {
        Node::Paragraph(p) => assert_eq!(texts(&p.children), "[not a link"),
        other => panic!("expected paragraph, got {:?}", other),
    }
}

#[test]
fn list_types_and_nesting() {
    let doc = parse("- a\n- b\n- c");
    match &doc.children[0] {
        Node::List(l) => {
            assert!(!l.ordered);
            assert_eq!(l.children.len(), 3);
        }
        other => panic!("expected list, got {:?}", other),
    }
    let doc = parse("1. a\n2. b\n3. c");
    match &doc.children[0] {
        Node::List(l) => {
            assert!(l.ordered);
            assert_eq!(l.children.len(), 3);
        }
        other => panic!("expected list, got {:?}", other),
    }
    let doc = parse("- item 1\n  - sub 1\n- item 2");
    match &doc.children[0] {
        Node::List(l) => {
            assert_eq!(l.children.len(), 2);
            assert_eq!(l.children[0].children.len(), 2);
            assert!(matches!(&l.children[0].children[1], Node::List(_)));
        }
        other => panic!("expected list, got {:?}", other),
    }
}

#[test]
fn task_list_items() {
    let doc = parse_gfm("- [x] done\n- [ ] todo\n- plain");
    match &doc.children[0] {
        Node::List(l) => {
            assert_eq!(l.children[0].checked, Some(true));
            assert_eq!(l.children[1].checked, Some(false));
            assert_eq!(l.children[2].checked, None);
            match &l.children[0].children[0] {
                Node::Paragraph(p) => assert_eq!(texts(&p.children), "done"),
                other => panic!("expected paragraph, got {:?}", other),
            }
        }
        other => panic!("expected list, got {:?}", other),
    }
}

#[test]
fn table_alignments() {
    let doc = parse_gfm("| a | b | c | d |\n|:---:|:---|---:|---|\n| 1 | 2 | 3 | 4 |\n\ntext");
    assert_eq!(doc.children.len(), 2);
    match &doc.children[0] {
        Node::Table(t) => {
            assert_eq!(
                t.align,
                vec![AlignKind::Center, AlignKind::Left, AlignKind::Right, AlignKind::Unaligned]
            );
            assert_eq!(t.children.len(), 2);
            assert_eq!(t.children[1].children.len(), 4);
        }
        other => panic!("expected table, got {:?}", other),
    }
}

#[test]
fn table_needs_tables_option() {
    let doc = parse("| head |\n| --- |\n| body |");
    assert!(!doc.children.iter().any(|n| matches!(n, Node::Table(_))));
}

#[test]
fn plain_text_is_one_paragraph_with_trimmed_text() {
    let doc = parse("  Hello World 42  ");
    assert_eq!(doc.children.len(), 1);
    match &doc.children[0] {
        Node::Paragraph(p) => {
            assert_eq!(p.children.len(), 1);
            match &p.children[0] {
                Node::Text(t) => assert_eq!(t.value, b"Hello World 42".to_vec()),
                other => panic!("expected text, got {:?}", other),
            }
        }
        other => panic!("expected paragraph, got {:?}", other),
    }
}

#[test]
fn blank_input_and_trailing_blanks() {
    assert_eq!(parse("").children.len(), 0);
    assert_eq!(parse("   ").children.len(), 0);
    assert_eq!(parse("\n\n  \n").children.len(), 0);
    let doc = parse("a\n   ");
    assert_eq!(doc.children.len(), 1);
    assert_eq!((doc.span.start, doc.span.end), (0, 5));
}

#[test]
fn paragraph_ends_at_block() {
    let doc = parse("line one\nline two\n# Head");
    assert_eq!(doc.children.len(), 2);
    match &doc.children[0] {
        Node::Paragraph(p) => assert_eq!(texts(&p.children), "line one\nline two"),
        other => panic!("expected paragraph, got {:?}", other),
    }
}

#[test]
fn gfm_options_preset() {
    let o = ParserOptions::gfm();
    assert!(o.gfm && o.footnotes && o.task_lists && o.tables && o.strikethrough && o.autolinks);
    assert_eq!(o.max_nesting_depth, 100);
    let d = ParserOptions::default();
    assert!(!d.gfm && !d.tables);
    assert_eq!(d.max_nesting_depth, 0);
}

#[test]
fn unclosed_link_url_keeps_bracket_alone() {
    let doc = parse("[a](b c");
    match &doc.children[0] {
        Node::Paragraph(p) => {
            match &p.children[0] {
                Node::Text(t) => assert_eq!(t.value, b"[".to_vec()),
                other => panic!("expected text, got {:?}", other),
            }
            assert_eq!(texts(&p.children), "[a](b c");
        }
        other => panic!("expected paragraph, got {:?}", other),
    }
}

#[test]
fn block_sequence() {
    let doc = parse("- - -\n-*-");
    assert_eq!(doc.children.len(), 2);
    assert!(matches!(&doc.children[0], Node::ThematicBreak(_)));
    assert!(matches!(&doc.children[1], Node::Paragraph(_)));
    let doc = parse("####### text");
    assert_eq!(doc.children.len(), 1);
    match &doc.children[0] {
        Node::Paragraph(p) => assert_eq!(texts(&p.children), "####### text"),
        other => panic!("expected paragraph, got {:?}", other),
    }
}

#[test]
fn unicode_whitespace_is_trimmed_in_lookaheads() {
    let doc = parse("---\u{a0}");
    assert!(matches!(&doc.children[0], Node::ThematicBreak(_)));
    let doc = parse("\u{3000}- item");
    assert!(matches!(&doc.children[0], Node::List(_)));
}

#[test]
fn list_item_counts_and_nesting() {
    let doc = parse("- item 1\n  - sub 1\n- item 2");
    match &doc.children[0] {
        Node::List(l) => {
            assert_eq!(l.children.len(), 2);
            assert_eq!(l.children[0].children.len(), 2);
            assert_eq!(l.children[1].children.len(), 1);
            match &l.children[0].children[1] {
                Node::List(n) => assert_eq!(n.children.len(), 1),
                other => panic!("expected nested list, got {:?}", other),
            }
        }
        other => panic!("expected list, got {:?}", other),
    }
}

#[test]
fn escaped_backtick_does_not_close_code_span() {
    let doc = parse("`a\\`b` c");
    match &doc.children[0] {
        Node::Paragraph(p) => match &p.children[0] {
            Node::InlineCode(c) => {
                assert_eq!(c.value, b"a\\`b".to_vec());
                assert_eq!((c.span.start, c.span.end), (0, 6));
            }
            other => panic!("expected code, got {:?}", other),
        },
        other => panic!("expected paragraph, got {:?}", other),
    }
}

#[test]
fn table_cells_are_split_and_trimmed() {
    let doc = parse_gfm("| a |\u{a0}b\u{a0}|\n|---|---|\n x | y\n");
    match &doc.children[0] {
        Node::Table(t) => {
            assert_eq!(t.children.len(), 2);
            let head: Vec<(u32, u32)> =
                t.children[0].children.iter().map(|c| (c.span.start, c.span.end)).collect();
            assert_eq!(head, vec![(2, 3), (7, 8)]);
            let body: Vec<(u32, u32)> =
                t.children[1].children.iter().map(|c| (c.span.start, c.span.end)).collect();
            assert_eq!(body, vec![(23, 24), (27, 28)]);
        }
        other => panic!("expected table, got {:?}", other),
    }
}

#[test]
fn unicode_whitespace_is_trimmed_in_block_text() {
    let doc = parse("\u{a0}para\u{3000}");
    match &doc.children[0] {
        Node::Paragraph(p) => assert_eq!(texts(&p.children), "para"),
        other => panic!("expected paragraph, got {:?}", other),
    }
    assert_eq!(parse("\u{a0}").children.len(), 0);
    let doc = parse("# Title\u{a0}#\u{2003}");
    match &doc.children[0] {
        Node::Heading(h) => assert_eq!(texts(&h.children), "Title"),
        other => panic!("expected heading, got {:?}", other),
    }
    let doc = parse("```rust\u{a0}\nx\n```");
    match &doc.children[0] {
        Node::CodeBlock(cb) => assert_eq!(cb.lang, Some(b"rust".to_vec())),
        other => panic!("expected code block, got {:?}", other),
    }
}
