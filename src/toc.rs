//! The table of contents of a document: its top-level headings with slugs.
use vstd::prelude::*;
use vstd::string::StringExecFns;

use crate::ast::{Document, Heading, Node};
use crate::search_tokenizer::{alphanumeric, is_alphanumeric, lower_of, to_lowercase};
use crate::text::{chars_of, is_white, is_white_char, push_char, utf8_lossy};

verus! {

/// One entry of a table of contents.
#[derive(Debug, Clone)]
pub struct TocEntry {
    pub depth: u8,
    pub text: String,
    pub slug: String,
}

/// A character of a slug: letters, digits, spaces and `-` stay, anything
/// else becomes a space.
pub open spec fn slug_char(c: char) -> char {
    if alphanumeric(c) || c == ' ' || c == '-' {
        c
    } else {
        ' '
    }
}

/// The slug of `t` from index `i`: its words, split at whitespace, joined
/// by `-`; `acc` is the slug so far and `sep` says a word ended.
pub open spec fn slug_from(t: Seq<char>, i: int, acc: Seq<char>, sep: bool) -> Seq<char>
    decreases t.len() - i,
{
    if i >= t.len() {
        acc
    } else {
        let c = slug_char(t[i]);
        if is_white(c) {
            slug_from(t, i + 1, acc, acc.len() > 0)
        } else {
            slug_from(
                t,
                i + 1,
                if sep {
                    acc.push('-')
                } else {
                    acc
                }.push(c),
                false,
            )
        }
    }
}

/// The URL slug of a heading text: lowercased, other characters than
/// letters, digits, spaces and `-` made spaces, words joined by `-`.
pub open spec fn slug_of(s: Seq<char>) -> Seq<char> {
    slug_from(lower_of(s), 0, Seq::empty(), false)
}

/// The slug of `text`.
pub fn slugify(text: &str) -> (r: String)
    ensures
        r@ == slug_of(text@),
{
    let lower = to_lowercase(text);
    let t = chars_of(lower.as_str());
    let mut out = String::new();
    let mut sep = false;
    let mut i: usize = 0;
    while i < t.len()
        invariant
            i <= t@.len(),
            t@ == lower_of(text@),
            slug_from(t@, i as int, out@, sep) == slug_of(text@),
        decreases t@.len() - i,
    {
        let c0 = t[i];
        let c = if is_alphanumeric(c0) || c0 == ' ' || c0 == '-' {
            c0
        } else {
            ' '
        };
        if is_white_char(c) {
            sep = !out.as_str().is_empty();
        } else {
            if sep {
                push_char(&mut out, '-');
            }
            push_char(&mut out, c);
            sep = false;
        }
        i = i + 1;
    }
    out
}

/// The text of the inline nodes, code spans included, markup dropped.
fn collect_text(nodes: &Vec<Node>, text: &mut String)
    ensures
        nodes@.len() == 0 ==> final(text)@ == old(text)@,
    decreases nodes, 0int,
{
    let mut i: usize = 0;
    while i < nodes.len()
        invariant
            i <= nodes@.len(),
            nodes@.len() == 0 ==> text@ == old(text)@,
        decreases nodes@.len() - i,
    {
        proof {
            assert(decreases_to!(nodes => nodes@[i as int]));
        }
        collect_node_text(&nodes[i], text);
        i = i + 1;
    }
}

fn collect_node_text(node: &Node, text: &mut String)
    decreases node, 1int,
{
    match node {
        Node::Text(t) => text.append(utf8_lossy(&t.value).as_str()),
        Node::InlineCode(c) => text.append(utf8_lossy(&c.value).as_str()),
        Node::Emphasis(e) => collect_text(&e.children, text),
        Node::Strong(s) => collect_text(&s.children, text),
        Node::Delete(d) => collect_text(&d.children, text),
        Node::Link(l) => collect_text(&l.children, text),
        _ => {},
    }
}

/// The plain text of a heading.
pub fn extract_heading_text(heading: &Heading) -> (r: String)
    ensures
        heading.children@.len() == 0 ==> r@.len() == 0,
{
    let mut text = String::new();
    collect_text(&heading.children, &mut text);
    text
}

/// Top-level headings of depth at most `max_depth`, in document order.
pub open spec fn toc_headings(nodes: Seq<Node>, max_depth: u8) -> Seq<Heading>
    decreases nodes.len(),
{
    if nodes.len() == 0 {
        Seq::empty()
    } else {
        toc_headings(nodes.drop_last(), max_depth) + match nodes.last() {
            Node::Heading(h) => if h.depth <= max_depth {
                seq![h]
            } else {
                Seq::empty()
            },
            _ => Seq::empty(),
        }
    }
}

/// One entry per top-level heading of depth at most `max_depth`, in
/// order, with its text and the slug of its text.
pub fn extract_toc(doc: &Document, max_depth: u8) -> (r: Vec<TocEntry>)
    ensures
        r@.len() == toc_headings(doc.children@, max_depth).len(),
        forall|k: int|
            0 <= k < r@.len() ==> (#[trigger] r@[k]).depth == toc_headings(
                doc.children@,
                max_depth,
            )[k].depth && r@[k].slug@ == slug_of(r@[k].text@),
{
    let mut entries: Vec<TocEntry> = Vec::new();
    let mut i: usize = 0;
    while i < doc.children.len()
        invariant
            i <= doc.children@.len(),
            entries@.len() == toc_headings(doc.children@.subrange(0, i as int), max_depth).len(),
            forall|k: int|
                0 <= k < entries@.len() ==> (#[trigger] entries@[k]).depth == toc_headings(
                    doc.children@.subrange(0, i as int),
                    max_depth,
                )[k].depth && entries@[k].slug@ == slug_of(entries@[k].text@),
        decreases doc.children@.len() - i,
    {
        let ghost prefix = doc.children@.subrange(0, i as int);
        proof {
            assert(doc.children@.subrange(0, i + 1).drop_last() =~= prefix);
        }
        match &doc.children[i] {
            Node::Heading(h) => {
                if h.depth <= max_depth {
                    let text = extract_heading_text(h);
                    let slug = slugify(text.as_str());
                    entries.push(TocEntry { depth: h.depth, text, slug });
                }
            },
            _ => {},
        }
        i = i + 1;
    }
    proof {
        assert(doc.children@.subrange(0, doc.children@.len() as int) =~= doc.children@);
    }
    entries
}

} // verus!
