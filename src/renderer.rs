//! Rendering a document tree as HTML.
use vstd::prelude::*;
use vstd::string::*;
use vstd::utf8::{decode_utf8, valid_utf8};

use crate::ast::{
    CodeBlock, Document, FootnoteDefinition, FootnoteReference, Heading, Image, Link, List,
    ListItem, Node, Table, TableRow,
};
use crate::text::{owned, utf8_lossy};

verus! {

/// HTML escaping of text: `&`, `<`, `>`, `"` and `'` become entities.
pub open spec fn escape_html(s: Seq<u8>) -> Seq<u8>
    decreases s.len(),
{
    if s.len() == 0 {
        Seq::empty()
    } else {
        escape_html(s.drop_last()) + escape_byte(s.last())
    }
}

/// The escape of one byte.
pub open spec fn escape_byte(b: u8) -> Seq<u8> {
    if b == 38 {
        seq![38u8, 97, 109, 112, 59]
    } else if b == 60 {
        seq![38u8, 108, 116, 59]
    } else if b == 62 {
        seq![38u8, 103, 116, 59]
    } else if b == 34 {
        seq![38u8, 113, 117, 111, 116, 59]
    } else if b == 39 {
        seq![38u8, 35, 51, 57, 59]
    } else {
        seq![b]
    }
}

/// Escaping of a URL in an attribute: `&` becomes an entity; `<`, `>`,
/// `"` and space are percent-encoded.
pub open spec fn escape_url(s: Seq<u8>) -> Seq<u8>
    decreases s.len(),
{
    if s.len() == 0 {
        Seq::empty()
    } else {
        escape_url(s.drop_last()) + escape_url_byte(s.last())
    }
}

/// The URL escape of one byte.
pub open spec fn escape_url_byte(b: u8) -> Seq<u8> {
    if b == 38 {
        seq![38u8, 97, 109, 112, 59]
    } else if b == 60 {
        seq![37u8, 51, 67]
    } else if b == 62 {
        seq![37u8, 51, 69]
    } else if b == 34 {
        seq![37u8, 50, 50]
    } else if b == 32 {
        seq![37u8, 50, 48]
    } else {
        seq![b]
    }
}

/// The HTML of an inline node: text, a code span, emphasis, strong
/// emphasis, or a link, each of inline nodes again.
pub open spec fn leaf_html(n: Node) -> Option<Seq<u8>>
    decreases n, 0int,
{
    match n {
        Node::Text(t) => Some(escape_html(t.value@)),
        Node::InlineCode(c) => Some(
            seq![60u8, 99, 111, 100, 101, 62] + escape_html(c.value@) + seq![60u8, 47, 99, 111, 100, 101, 62],
        ),
        Node::Emphasis(e) => match leaves_upto(e.children@, e.children@.len() as int) {
            Some(b) => Some(seq![60u8, 101, 109, 62] + b + seq![60u8, 47, 101, 109, 62]),
            None => None,
        },
        Node::Strong(st) => match leaves_upto(st.children@, st.children@.len() as int) {
            Some(b) => Some(
                seq![60u8, 115, 116, 114, 111, 110, 103, 62] + b + seq![60u8, 47, 115, 116, 114, 111, 110, 103, 62],
            ),
            None => None,
        },
        Node::Link(l) => match leaves_upto(l.children@, l.children@.len() as int) {
            Some(b) => Some(
                seq![60u8, 97, 32, 104, 114, 101, 102, 61, 34] + escape_url(l.url@) + seq![34u8]
                    + link_title(l.title) + seq![62u8] + b + seq![60u8, 47, 97, 62],
            ),
            None => None,
        },
        _ => None,
    }
}

/// ` title="..."` with the title escaped, or nothing.
pub open spec fn link_title(t: Option<Vec<u8>>) -> Seq<u8> {
    match t {
        Some(v) => seq![32u8, 116, 105, 116, 108, 101, 61, 34] + escape_html(v@) + seq![34u8],
        None => Seq::empty(),
    }
}

/// The HTML of the first `k` nodes of `ns`, when each is inline.
pub open spec fn leaves_upto(ns: Seq<Node>, k: int) -> Option<Seq<u8>>
    decreases ns, k,
{
    if k <= 0 || k > ns.len() {
        if k == 0 {
            Some(Seq::empty())
        } else {
            None
        }
    } else {
        match (leaves_upto(ns, k - 1), leaf_html(ns[k - 1])) {
            (Some(a), Some(b)) => Some(a + b),
            _ => None,
        }
    }
}

/// The HTML of nodes that are all inline.
pub open spec fn leaves_html(ns: Seq<Node>) -> Option<Seq<u8>> {
    leaves_upto(ns, ns.len() as int)
}

/// The digit of the tag of a heading of depth `d`: `h1` to `h5`, else `h6`.
pub open spec fn heading_digit(d: u8) -> u8 {
    if 1 <= d <= 5 {
        (48 + d) as u8
    } else {
        54
    }
}

/// The HTML of a node when it is inline (`leaf_html`), a thematic break, or
/// a paragraph or heading of inline nodes.
pub open spec fn block_html(n: Node, xhtml: bool) -> Option<Seq<u8>> {
    match n {
        Node::Paragraph(p) => match leaves_html(p.children@) {
            Some(b) => Some(seq![60u8, 112, 62] + b + seq![60u8, 47, 112, 62, 10]),
            None => None,
        },
        Node::Heading(h) => match leaves_html(h.children@) {
            Some(b) => Some(
                seq![60u8, 104, heading_digit(h.depth)] + seq![62u8] + b + seq![60u8, 47, 104, heading_digit(h.depth)]
                    + seq![62u8, 10],
            ),
            None => None,
        },
        Node::ThematicBreak(_) => if xhtml {
            Some(seq![60u8, 104, 114, 32, 47, 62, 10])
        } else {
            Some(seq![60u8, 104, 114, 62, 10])
        },
        _ => leaf_html(n),
    }
}

/// The HTML of nodes that each have a `block_html`.
pub open spec fn blocks_html(ns: Seq<Node>, xhtml: bool) -> Option<Seq<u8>>
    decreases ns.len(),
{
    if ns.len() == 0 {
        Some(Seq::empty())
    } else {
        match (blocks_html(ns.drop_last(), xhtml), block_html(ns.last(), xhtml)) {
            (Some(a), Some(b)) => Some(a + b),
            _ => None,
        }
    }
}

proof fn lemma_leaves_are_blocks(ns: Seq<Node>, xhtml: bool)
    ensures
        leaves_html(ns) is Some ==> blocks_html(ns, xhtml) == leaves_html(ns),
{
    lemma_leaves_upto_blocks(ns, ns.len() as int, xhtml);
    assert(ns.subrange(0, ns.len() as int) =~= ns);
}

proof fn lemma_leaves_upto_blocks(ns: Seq<Node>, k: int, xhtml: bool)
    requires
        0 <= k <= ns.len(),
    ensures
        leaves_upto(ns, k) is Some ==> blocks_html(ns.subrange(0, k), xhtml) == leaves_upto(ns, k),
    decreases k,
{
    if k > 0 {
        lemma_leaves_upto_blocks(ns, k - 1, xhtml);
        assert(ns.subrange(0, k).drop_last() =~= ns.subrange(0, k - 1));
        assert(ns.subrange(0, k).last() == ns[k - 1]);
    } else {
        assert(ns.subrange(0, 0) =~= Seq::<Node>::empty());
    }
}

/// HTML renderer options.
#[derive(Debug, Clone, Default)]
pub struct HtmlRendererOptions {
    /// Self-closing tags in XHTML style (`<hr />`).
    pub xhtml: bool,
    /// Text between soft-broken lines.
    pub soft_break: String,
    /// Markup of a hard line break.
    pub hard_break: String,
    /// Highlight code blocks.
    pub highlight: bool,
    /// Escape raw HTML instead of passing it through.
    pub sanitize: bool,
}

impl HtmlRendererOptions {
    /// Plain HTML, a newline as soft break and `<br>` and a newline as hard break.
    pub fn new() -> (r: HtmlRendererOptions)
        ensures
            !r.xhtml && !r.highlight && !r.sanitize,
            r.soft_break@ == "\n"@,
            r.hard_break@ == "<br>\n"@,
    {
        HtmlRendererOptions {
            xhtml: false,
            soft_break: owned("\n"),
            hard_break: owned("<br>\n"),
            highlight: false,
            sanitize: false,
        }
    }
}

/// Renders documents as HTML.
pub struct HtmlRenderer {
    options: HtmlRendererOptions,
    output: Vec<u8>,
}

impl HtmlRenderer {
    /// The rendering options.
    pub closed spec fn opts(&self) -> HtmlRendererOptions {
        self.options
    }

    /// A renderer with default options.
    pub fn new() -> (r: HtmlRenderer)
        ensures
            !r.opts().xhtml && !r.opts().sanitize,
    {
        HtmlRenderer { options: HtmlRendererOptions::new(), output: Vec::new() }
    }

    /// A renderer with the given options.
    pub fn with_options(options: HtmlRendererOptions) -> (r: HtmlRenderer)
        ensures
            r.opts() == options,
    {
        HtmlRenderer { options, output: Vec::new() }
    }

    /// Renders `document`: its blocks in order.
    pub fn render(&mut self, document: &Document) -> (r: String)
        ensures
            final(self).opts() == old(self).opts(),
            document.children@.len() == 0 ==> r@.len() == 0,
            blocks_html(document.children@, old(self).opts().xhtml) matches Some(b) ==> (valid_utf8(
                b,
            ) ==> r@ == decode_utf8(b)),
    {
        self.output = Vec::new();
        proof {
            assert(self.output@ =~= Seq::<u8>::empty());
        }
        self.visit_nodes(&document.children);
        proof {
            if let Some(b) = blocks_html(document.children@, self.options.xhtml) {
                assert(self.output@ =~= b);
            }
        }
        let out = utf8_lossy(&self.output);
        self.output = Vec::new();
        proof {
            if document.children@.len() == 0 {
                assert(decode_utf8(Seq::<u8>::empty()) =~= Seq::<char>::empty()) by {
                    reveal_with_fuel(decode_utf8, 1);
                }
                assert(valid_utf8(Seq::<u8>::empty())) by {
                    reveal_with_fuel(valid_utf8, 1);
                }
            }
        }
        out
    }

    fn write_bytes(&mut self, b: &[u8])
        ensures
            final(self).output@ == old(self).output@ + b@,
            final(self).options == old(self).options,
    {
        let mut i: usize = 0;
        while i < b.len()
            invariant
                i <= b@.len(),
                self.output@ == old(self).output@ + b@.subrange(0, i as int),
                self.options == old(self).options,
            decreases b@.len() - i,
        {
            self.output.push(b[i]);
            i = i + 1;
            proof {
                assert(self.output@ =~= old(self).output@ + b@.subrange(0, i as int));
            }
        }
        proof {
            assert(b@.subrange(0, b@.len() as int) =~= b@);
        }
    }

    fn write(&mut self, s: &str)
        ensures
            final(self).output@ == old(self).output@ + s.spec_bytes(),
            final(self).options == old(self).options,
    {
        self.write_bytes(s.as_bytes());
    }

    /// Appends `s` with HTML special characters escaped.
    fn write_escaped(&mut self, s: &[u8])
        ensures
            final(self).output@ == old(self).output@ + escape_html(s@),
            final(self).options == old(self).options,
    {
        let mut i: usize = 0;
        while i < s.len()
            invariant
                i <= s@.len(),
                self.output@ == old(self).output@ + escape_html(s@.subrange(0, i as int)),
                self.options == old(self).options,
            decreases s@.len() - i,
        {
            let ghost before = self.output@;
            let b = s[i];
            if b == 38 {
                self.write_bytes(&[38u8, 97, 109, 112, 59]);
            } else if b == 60 {
                self.write_bytes(&[38u8, 108, 116, 59]);
            } else if b == 62 {
                self.write_bytes(&[38u8, 103, 116, 59]);
            } else if b == 34 {
                self.write_bytes(&[38u8, 113, 117, 111, 116, 59]);
            } else if b == 39 {
                self.write_bytes(&[38u8, 35, 51, 57, 59]);
            } else {
                self.output.push(b);
            }
            proof {
                assert(s@.subrange(0, i + 1).drop_last() =~= s@.subrange(0, i as int));
                assert(self.output@ =~= before + escape_byte(b));
            }
            i = i + 1;
        }
        proof {
            assert(s@.subrange(0, s@.len() as int) =~= s@);
        }
    }

    /// Appends a URL with the characters that would end an attribute escaped.
    fn write_url_escaped(&mut self, s: &[u8])
        ensures
            final(self).output@ == old(self).output@ + escape_url(s@),
            final(self).options == old(self).options,
    {
        let mut i: usize = 0;
        while i < s.len()
            invariant
                i <= s@.len(),
                self.output@ == old(self).output@ + escape_url(s@.subrange(0, i as int)),
                self.options == old(self).options,
            decreases s@.len() - i,
        {
            let ghost before = self.output@;
            let b = s[i];
            if b == 38 {
                self.write_bytes(&[38u8, 97, 109, 112, 59]);
            } else if b == 60 {
                self.write_bytes(&[37u8, 51, 67]);
            } else if b == 62 {
                self.write_bytes(&[37u8, 51, 69]);
            } else if b == 34 {
                self.write_bytes(&[37u8, 50, 50]);
            } else if b == 32 {
                self.write_bytes(&[37u8, 50, 48]);
            } else {
                self.output.push(b);
            }
            proof {
                assert(s@.subrange(0, i + 1).drop_last() =~= s@.subrange(0, i as int));
                assert(self.output@ =~= before + escape_url_byte(b));
            }
            i = i + 1;
        }
        proof {
            assert(s@.subrange(0, s@.len() as int) =~= s@);
        }
    }

    fn visit_nodes(&mut self, nodes: &Vec<Node>)
        ensures
            final(self).options == old(self).options,
            nodes@.len() == 0 ==> final(self).output@ == old(self).output@,
            blocks_html(nodes@, old(self).options.xhtml) matches Some(b) ==> final(self).output@
                == old(self).output@ + b,
        decreases nodes, 0int,
    {
        let mut i: usize = 0;
        proof {
            assert(nodes@.subrange(0, 0) =~= Seq::<Node>::empty());
            assert(old(self).output@ + Seq::<u8>::empty() =~= old(self).output@);
        }
        while i < nodes.len()
            invariant
                i <= nodes@.len(),
                self.options == old(self).options,
                nodes@.len() == 0 ==> self.output@ == old(self).output@,
                blocks_html(nodes@.subrange(0, i as int), self.options.xhtml) matches Some(b)
                    ==> self.output@ == old(self).output@ + b,
            decreases nodes@.len() - i,
        {
            proof {
                assert(decreases_to!(nodes => nodes@[i as int]));
                assert(nodes@.subrange(0, i + 1).drop_last() =~= nodes@.subrange(0, i as int));
            }
            let ghost mid = self.output@;
            self.visit_node(&nodes[i]);
            proof {
                let pre = nodes@.subrange(0, i as int);
                let cur = nodes@.subrange(0, i + 1);
                assert(cur.last() == nodes@[i as int]);
                if let Some(b) = blocks_html(cur, self.options.xhtml) {
                    let a = blocks_html(pre, self.options.xhtml)->Some_0;
                    let c = block_html(nodes@[i as int], self.options.xhtml)->Some_0;
                    assert(self.output@ =~= old(self).output@ + b);
                }
            }
            i = i + 1;
        }
        proof {
            assert(nodes@.subrange(0, nodes@.len() as int) =~= nodes@);
        }
    }

    fn visit_node(&mut self, node: &Node)
        ensures
            final(self).options == old(self).options,
            block_html(*node, old(self).options.xhtml) matches Some(b) ==> final(self).output@
                == old(self).output@ + b,
        decreases node, 0int,
    {
        match node {
            Node::Paragraph(p) => {
                let ghost before = self.output@;
                proof {
                    lemma_leaves_are_blocks(p.children@, self.options.xhtml);
                }
                self.write_bytes(&[60u8, 112, 62]);
                let ghost mid = self.output@;
                self.visit_nodes(&p.children);
                let ghost mid2 = self.output@;
                self.write_bytes(&[60u8, 47, 112, 62, 10]);
                proof {
                    if let Some(b) = leaves_html(p.children@) {
                        assert(self.output@ =~= before + (seq![60u8, 112, 62] + b + seq![60u8, 47, 112, 62, 10]));
                    }
                }
            },
            Node::Heading(h) => {
                proof {
                    lemma_leaves_are_blocks(h.children@, self.options.xhtml);
                }
                self.visit_heading(h)
            },
            Node::ThematicBreak(_) => {
                if self.options.xhtml {
                    self.write_bytes(&[60u8, 104, 114, 32, 47, 62, 10]);
                } else {
                    self.write_bytes(&[60u8, 104, 114, 62, 10]);
                }
            },
            Node::BlockQuote(q) => {
                self.write("<blockquote>\n");
                self.visit_nodes(&q.children);
                self.write("</blockquote>\n");
            },
            Node::List(l) => self.visit_list(l),
            Node::ListItem(item) => self.visit_list_item(item),
            Node::CodeBlock(c) => self.visit_code_block(c),
            Node::Html(h) => {
                if self.options.sanitize {
                    self.write_escaped(h.value.as_slice());
                } else {
                    self.write_bytes(h.value.as_slice());
                }
                self.write("\n");
            },
            Node::Table(t) => self.visit_table(t),
            Node::Text(t) => self.write_escaped(t.value.as_slice()),
            Node::Emphasis(e) => {
                let ghost before = self.output@;
                proof {
                    lemma_leaves_are_blocks(e.children@, self.options.xhtml);
                }
                self.write_bytes(&[60u8, 101, 109, 62]);
                self.visit_nodes(&e.children);
                self.write_bytes(&[60u8, 47, 101, 109, 62]);
                proof {
                    if let Some(b) = leaves_html(e.children@) {
                        assert(self.output@ =~= before + (seq![60u8, 101, 109, 62] + b + seq![60u8, 47, 101, 109, 62]));
                    }
                }
            },
            Node::Strong(s) => {
                let ghost before = self.output@;
                proof {
                    lemma_leaves_are_blocks(s.children@, self.options.xhtml);
                }
                self.write_bytes(&[60u8, 115, 116, 114, 111, 110, 103, 62]);
                self.visit_nodes(&s.children);
                self.write_bytes(&[60u8, 47, 115, 116, 114, 111, 110, 103, 62]);
                proof {
                    if let Some(b) = leaves_html(s.children@) {
                        assert(self.output@ =~= before + (seq![60u8, 115, 116, 114, 111, 110, 103, 62] + b
                            + seq![60u8, 47, 115, 116, 114, 111, 110, 103, 62]));
                    }
                }
            },
            Node::InlineCode(c) => {
                let ghost before = self.output@;
                self.write_bytes(&[60u8, 99, 111, 100, 101, 62]);
                self.write_escaped(c.value.as_slice());
                self.write_bytes(&[60u8, 47, 99, 111, 100, 101, 62]);
                proof {
                    assert(self.output@ =~= before + (seq![60u8, 99, 111, 100, 101, 62] + escape_html(
                        c.value@,
                    ) + seq![60u8, 47, 99, 111, 100, 101, 62]));
                }
            },
            Node::Break(_) => {
                let hb = self.options.hard_break.as_str().as_bytes();
                let mut copy: Vec<u8> = Vec::new();
                let mut i: usize = 0;
                while i < hb.len()
                    invariant
                        i <= hb@.len(),
                    decreases hb@.len() - i,
                {
                    copy.push(hb[i]);
                    i = i + 1;
                }
                self.write_bytes(copy.as_slice());
            },
            Node::Link(l) => self.visit_link(l),
            Node::Image(img) => self.visit_image(img),
            Node::Delete(d) => {
                self.write("<del>");
                self.visit_nodes(&d.children);
                self.write("</del>");
            },
            Node::FootnoteReference(f) => self.visit_footnote_reference(f),
            Node::Definition(_) => {},
            Node::FootnoteDefinition(f) => self.visit_footnote_definition(f),
        }
    }

    fn visit_heading(&mut self, heading: &Heading)
        ensures
            final(self).options == old(self).options,
            leaves_html(heading.children@) matches Some(b) ==> final(self).output@ == old(self).output@
                + (seq![60u8, 104, heading_digit(heading.depth)] + seq![62u8] + b + seq![
                60u8,
                47,
                104,
                heading_digit(heading.depth),
            ] + seq![62u8, 10]),
        decreases heading, 0int,
    {
        let d = heading.depth;
        let digit: u8 = if d >= 1 && d <= 5 {
            48 + d
        } else {
            54
        };
        let ghost before = self.output@;
        proof {
            lemma_leaves_are_blocks(heading.children@, self.options.xhtml);
        }
        self.write_bytes(&[60u8, 104, digit, 62]);
        self.visit_nodes(&heading.children);
        self.write_bytes(&[60u8, 47, 104, digit, 62, 10]);
        proof {
            if let Some(b) = leaves_html(heading.children@) {
                assert(self.output@ =~= before + (seq![60u8, 104, heading_digit(heading.depth)]
                    + seq![62u8] + b + seq![60u8, 47, 104, heading_digit(heading.depth)] + seq![
                    62u8,
                    10,
                ]));
            }
        }
    }

    fn visit_list(&mut self, list: &List)
        ensures
            final(self).options == old(self).options,
        decreases list, 0int,
    {
        if list.ordered {
            match list.start {
                Some(start) => {
                    if start != 1 {
                        self.write("<ol start=\"");
                        let digits = crate::checker::decimal_string(start as usize);
                        self.write(digits.as_str());
                        self.write("\">\n");
                    } else {
                        self.write("<ol>\n");
                    }
                },
                None => {
                    self.write("<ol>\n");
                },
            }
        } else {
            self.write("<ul>\n");
        }
        let mut i: usize = 0;
        while i < list.children.len()
            invariant
                i <= list.children@.len(),
                self.options == old(self).options,
            decreases list.children@.len() - i,
        {
            proof {
                assert(decreases_to!(list.children => list.children@[i as int]));
            }
            self.visit_list_item(&list.children[i]);
            i = i + 1;
        }
        if list.ordered {
            self.write("</ol>\n");
        } else {
            self.write("</ul>\n");
        }
    }

    fn visit_list_item(&mut self, item: &ListItem)
        ensures
            final(self).options == old(self).options,
        decreases item, 0int,
    {
        self.write("<li>");
        match item.checked {
            Some(true) => self.write("<input type=\"checkbox\" checked disabled> "),
            Some(false) => self.write("<input type=\"checkbox\" disabled> "),
            None => {},
        }
        self.visit_nodes(&item.children);
        self.write("</li>\n");
    }

    /// `<pre><code>` with the language as a class, the code escaped.
    fn visit_code_block(&mut self, code: &CodeBlock)
        ensures
            final(self).options == old(self).options,
    {
        self.write("<pre><code");
        match &code.lang {
            Some(lang) => {
                self.write(" class=\"language-");
                self.write_escaped(lang.as_slice());
                self.write("\"");
            },
            None => {},
        }
        self.write(">");
        self.write_escaped(code.value.as_slice());
        self.write("</code></pre>\n");
    }

    fn visit_table(&mut self, table: &Table)
        ensures
            final(self).options == old(self).options,
        decreases table, 0int,
    {
        self.write("<table>\n");
        let mut i: usize = 0;
        while i < table.children.len()
            invariant
                i <= table.children@.len(),
                self.options == old(self).options,
            decreases table.children@.len() - i,
        {
            if i == 0 {
                self.write("<thead>\n");
            } else if i == 1 {
                self.write("<tbody>\n");
            }
            proof {
                assert(decreases_to!(table.children => table.children@[i as int]));
            }
            self.visit_table_row(&table.children[i], i == 0);
            if i == 0 {
                self.write("</thead>\n");
            }
            i = i + 1;
        }
        if table.children.len() > 0 {
            self.write("</tbody>\n");
        }
        self.write("</table>\n");
    }

    fn visit_table_row(&mut self, row: &TableRow, is_header: bool)
        ensures
            final(self).options == old(self).options,
        decreases row, 0int,
    {
        self.write("<tr>\n");
        let tag = if is_header {
            "th"
        } else {
            "td"
        };
        let mut i: usize = 0;
        while i < row.children.len()
            invariant
                i <= row.children@.len(),
                self.options == old(self).options,
            decreases row.children@.len() - i,
        {
            self.write("<");
            self.write(tag);
            self.write(">");
            proof {
                assert(decreases_to!(row.children => row.children@[i as int]));
            }
            self.visit_nodes(&row.children[i].children);
            self.write("</");
            self.write(tag);
            self.write(">\n");
            i = i + 1;
        }
        self.write("</tr>\n");
    }

    fn visit_link(&mut self, link: &Link)
        ensures
            final(self).options == old(self).options,
            leaf_html(Node::Link(*link)) matches Some(b) ==> final(self).output@ == old(self).output@ + b,
        decreases link, 0int,
    {
        let ghost before = self.output@;
        proof {
            lemma_leaves_are_blocks(link.children@, self.options.xhtml);
        }
        self.write_bytes(&[60u8, 97, 32, 104, 114, 101, 102, 61, 34]);
        self.write_url_escaped(link.url.as_slice());
        self.write_bytes(&[34u8]);
        let ghost mid = self.output@;
        match &link.title {
            Some(title) => {
                self.write_bytes(&[32u8, 116, 105, 116, 108, 101, 61, 34]);
                self.write_escaped(title.as_slice());
                self.write_bytes(&[34u8]);
            },
            None => {},
        }
        proof {
            assert(self.output@ =~= mid + link_title(link.title));
        }
        self.write_bytes(&[62u8]);
        self.visit_nodes(&link.children);
        self.write_bytes(&[60u8, 47, 97, 62]);
        proof {
            if let Some(b) = leaves_html(link.children@) {
                assert(self.output@ =~= before + (seq![60u8, 97, 32, 104, 114, 101, 102, 61, 34]
                    + escape_url(link.url@) + seq![34u8] + link_title(link.title) + seq![62u8] + b
                    + seq![60u8, 47, 97, 62]));
            }
        }
    }

    fn visit_image(&mut self, image: &Image)
        ensures
            final(self).options == old(self).options,
    {
        self.write("<img src=\"");
        self.write_url_escaped(image.url.as_slice());
        self.write("\" alt=\"");
        self.write_escaped(image.alt.as_slice());
        self.write("\"");
        match &image.title {
            Some(title) => {
                self.write(" title=\"");
                self.write_escaped(title.as_slice());
                self.write("\"");
            },
            None => {},
        }
        if self.options.xhtml {
            self.write(" />");
        } else {
            self.write(">");
        }
    }

    fn visit_footnote_reference(&mut self, f: &FootnoteReference)
        ensures
            final(self).options == old(self).options,
    {
        self.write("<sup><a href=\"#fn-");
        self.write_escaped(f.identifier.as_slice());
        self.write("\" id=\"fnref-");
        self.write_escaped(f.identifier.as_slice());
        self.write("\">");
        self.write_escaped(f.identifier.as_slice());
        self.write("</a></sup>");
    }

    fn visit_footnote_definition(&mut self, f: &FootnoteDefinition)
        ensures
            final(self).options == old(self).options,
        decreases f, 0int,
    {
        self.write("<div id=\"fn-");
        self.write_escaped(f.identifier.as_slice());
        self.write("\" class=\"footnote\">\n");
        self.visit_nodes(&f.children);
        self.write("<a href=\"#fnref-");
        self.write_escaped(f.identifier.as_slice());
        self.write("\">↩</a>\n</div>\n");
    }
}

} // verus!
