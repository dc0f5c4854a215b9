use ox_content::allocator::Allocator;
use ox_content::parser::{Parser, ParserOptions};
use ox_content::renderer::{HtmlRenderer, HtmlRendererOptions};
use ox_content::transform::TransformContext;

fn render(src: &str) -> String {
    let allocator = Allocator::new();
    let doc = Parser::new(&allocator, src).parse().unwrap();
    let mut renderer = HtmlRenderer::new();
    renderer.render(&doc)
}

fn render_gfm(src: &str) -> String {
    let allocator = Allocator::new();
    let doc = Parser::with_options(&allocator, src, ParserOptions::gfm()).parse().unwrap();
    let mut renderer = HtmlRenderer::new();
    renderer.render(&doc)
}

#[test]
fn test_render_paragraph() {
    assert_eq!(render("Hello world"), "<p>Hello world</p>\n");
}

#[test]
fn test_render_heading() {
    assert_eq!(render("# Hello"), "<h1>Hello</h1>\n");
}

#[test]
fn test_render_code_block() {
    let html = render("```rust\nfn main() {}\n```");
    assert!(html.contains("<pre><code class=\"language-rust\">"));
}

#[test]
fn test_render_nested_list() {
    let html = render("- item 1\n  - sub 1\n- item 2");
    let normalized = html.replace('\n', "");
    assert!(normalized.contains("<li><p>item 1</p><ul><li><p>sub 1</p></li></ul></li>"));
    assert!(normalized.contains("<li><p>item 2</p></li>"));
}

#[test]
fn test_render_table() {
    let html = render_gfm("| head |\n| --- |\n| body |");
    assert!(html.contains("<table>"));
    assert!(html.contains("<thead>"));
    assert!(html.contains("<th>head</th>"));
    assert!(html.contains("<tbody>"));
    assert!(html.contains("<td>body</td>"));
}

#[test]
fn test_render_table_no_gfm() {
    let html = render("| head |\n| --- |\n| body |");
    assert!(!html.contains("<table>"));
    assert!(html.contains("| head |"));
}

#[test]
fn test_render_heading_with_link() {
    let html = render("### [index](./index-module.md)");
    assert_eq!(html, "<h3><a href=\"./index-module.md\">index</a></h3>\n");
}

#[test]
fn test_render_list_with_bold() {
    let html = render("- **bold** text");
    assert!(html.contains("<strong>bold</strong>"));
}

#[test]
fn test_render_task_list() {
    let html = render_gfm("- [x] task 1\n- [ ] task 2");
    assert!(html.contains("<input type=\"checkbox\" checked disabled> <p>task 1</p>"));
    assert!(html.contains("<input type=\"checkbox\" disabled> <p>task 2</p>"));
}

#[test]
fn render_escapes_text_and_urls() {
    assert_eq!(render("a < b & \"c\" 'd'"), "<p>a &lt; b &amp; &quot;c&quot; &#39;d&#39;</p>\n");
    assert_eq!(render("[x](a b<c)"), "<p><a href=\"a%20b%3Cc\">x</a></p>\n");
    assert_eq!(render("`<b>`"), "<p><code>&lt;b&gt;</code></p>\n");
}

#[test]
fn render_ordered_list_start_and_rules() {
    assert_eq!(render("3. a\n4. b"), "<ol start=\"3\">\n<li><p>a</p>\n</li>\n<li><p>b</p>\n</li>\n</ol>\n");
    assert_eq!(render("***"), "<hr>\n");
    let mut opts = HtmlRendererOptions::new();
    opts.xhtml = true;
    let allocator = Allocator::new();
    let doc = Parser::new(&allocator, "---").parse().unwrap();
    assert_eq!(HtmlRenderer::with_options(opts).render(&doc), "<hr />\n");
    assert_eq!(render(""), "");
}

#[test]
fn test_transform() {
    let ctx = TransformContext::new();
    let html = ctx.transform("# Hello World").unwrap();
    assert!(html.contains("<h1>"));
}

#[test]
fn transform_with_options_and_parse() {
    let ctx = TransformContext::with_options(ParserOptions::default());
    let allocator = Allocator::new();
    let doc = ctx.parse(&allocator, "| a |\n|---|").unwrap();
    assert_eq!(ctx.render_html(&doc), "<p>| a |\n|---|</p>\n");
    assert_eq!(TransformContext::new().transform("| a |\n|---|").unwrap(), "<table>\n<thead>\n<tr>\n<th>a</th>\n</tr>\n</thead>\n</tbody>\n</table>\n");
}

#[test]
fn render_inline_markup_in_blocks() {
    assert_eq!(render("*a* **b**"), "<p><em>a</em> <strong>b</strong></p>\n");
    assert_eq!(render("## see [the *docs*](x y)"), "<h2>see <a href=\"x%20y\">the <em>docs</em></a></h2>\n");
}
