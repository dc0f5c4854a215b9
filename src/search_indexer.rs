//! Collecting the searchable text of a document tree.
use vstd::prelude::*;
use vstd::string::StringExecFns;

use crate::ast::{Document, Heading, List, ListItem, Node, Table, TableCell, TableRow};
use crate::search_index::SearchDocument;
use crate::text::{owned, utf8_lossy};

verus! {

/// Title, headings, body text and code of a document, gathered by a walk
/// over its tree.
#[derive(Debug, Default)]
pub struct DocumentIndexer {
    title: Option<String>,
    headings: Vec<String>,
    body: String,
    code: Vec<String>,
    current_heading: String,
    in_heading: bool,
}

impl DocumentIndexer {
    /// The title found so far.
    pub closed spec fn title_view(&self) -> Option<Seq<char>> {
        match self.title {
            Some(t) => Some(t@),
            None => None,
        }
    }

    /// The number of headings found so far.
    pub closed spec fn heading_count(&self) -> nat {
        self.headings@.len()
    }

    /// The number of code blocks found so far.
    pub closed spec fn code_count(&self) -> nat {
        self.code@.len()
    }

    /// Nothing collected yet.
    pub fn new() -> (r: DocumentIndexer)
        ensures
            r.title_view() is None,
            r.heading_count() == 0,
            r.code_count() == 0,
    {
        DocumentIndexer {
            title: None,
            headings: Vec::new(),
            body: String::new(),
            code: Vec::new(),
            current_heading: String::new(),
            in_heading: false,
        }
    }

    /// Walks `doc`: the text of each heading becomes a heading (the first
    /// level-one heading also the title), other text and code spans join
    /// the body, and code blocks are kept apart.
    pub fn extract(&mut self, doc: &Document)
        ensures
            old(self).title_view() is Some ==> final(self).title_view() == old(self).title_view(),
            final(self).heading_count() >= old(self).heading_count(),
            final(self).code_count() >= old(self).code_count(),
    {
        self.visit_nodes(&doc.children);
    }

    fn add_text(&mut self, value: &Vec<u8>)
        ensures
            final(self).title == old(self).title,
            final(self).headings@ == old(self).headings@,
            final(self).code@ == old(self).code@,
            final(self).in_heading == old(self).in_heading,
    {
        let text = utf8_lossy(value);
        if self.in_heading {
            self.current_heading.append(text.as_str());
        } else {
            if !self.body.as_str().is_empty() {
                self.body.append(" ");
            }
            self.body.append(text.as_str());
        }
    }

    fn visit_heading(&mut self, heading: &Heading)
        ensures
            old(self).title is Some ==> final(self).title == old(self).title,
            final(self).headings@.len() >= old(self).headings@.len(),
            final(self).code@.len() >= old(self).code@.len(),
            final(self).in_heading == old(self).in_heading,
        decreases heading, 1int,
    {
        let was_in_heading = self.in_heading;
        self.in_heading = true;
        self.current_heading = String::new();
        self.visit_nodes(&heading.children);
        self.in_heading = was_in_heading;
        let text = owned(self.current_heading.as_str());
        self.current_heading = String::new();
        if !text.as_str().is_empty() {
            if heading.depth == 1 && self.title.is_none() {
                self.title = Some(owned(text.as_str()));
            }
            self.headings.push(text);
        }
    }

    fn visit_nodes(&mut self, nodes: &Vec<Node>)
        ensures
            old(self).title is Some ==> final(self).title == old(self).title,
            final(self).headings@.len() >= old(self).headings@.len(),
            final(self).code@.len() >= old(self).code@.len(),
            final(self).in_heading == old(self).in_heading,
        decreases nodes, 0int,
    {
        let mut i: usize = 0;
        while i < nodes.len()
            invariant
                i <= nodes@.len(),
                old(self).title is Some ==> self.title == old(self).title,
                self.headings@.len() >= old(self).headings@.len(),
                self.code@.len() >= old(self).code@.len(),
                self.in_heading == old(self).in_heading,
            decreases nodes@.len() - i,
        {
            proof {
                assert(decreases_to!(nodes => nodes@[i as int]));
            }
            self.visit_node(&nodes[i]);
            i = i + 1;
        }
    }

    fn visit_item(&mut self, item: &ListItem)
        ensures
            old(self).title is Some ==> final(self).title == old(self).title,
            final(self).headings@.len() >= old(self).headings@.len(),
            final(self).code@.len() >= old(self).code@.len(),
            final(self).in_heading == old(self).in_heading,
        decreases item, 1int,
    {
        self.visit_nodes(&item.children);
    }

    fn visit_cell(&mut self, cell: &TableCell)
        ensures
            old(self).title is Some ==> final(self).title == old(self).title,
            final(self).headings@.len() >= old(self).headings@.len(),
            final(self).code@.len() >= old(self).code@.len(),
            final(self).in_heading == old(self).in_heading,
        decreases cell, 1int,
    {
        self.visit_nodes(&cell.children);
    }

    fn visit_list(&mut self, l: &List)
        ensures
            old(self).title is Some ==> final(self).title == old(self).title,
            final(self).headings@.len() >= old(self).headings@.len(),
            final(self).code@.len() >= old(self).code@.len(),
            final(self).in_heading == old(self).in_heading,
        decreases l, 1int,
    {
        let mut i: usize = 0;
        while i < l.children.len()
            invariant
                i <= l.children@.len(),
                old(self).title is Some ==> self.title == old(self).title,
                self.headings@.len() >= old(self).headings@.len(),
                self.code@.len() >= old(self).code@.len(),
                self.in_heading == old(self).in_heading,
            decreases l.children@.len() - i,
        {
            proof {
                assert(decreases_to!(l.children => l.children@[i as int]));
            }
            self.visit_item(&l.children[i]);
            i = i + 1;
        }
    }

    fn visit_table(&mut self, t: &Table)
        ensures
            old(self).title is Some ==> final(self).title == old(self).title,
            final(self).headings@.len() >= old(self).headings@.len(),
            final(self).code@.len() >= old(self).code@.len(),
            final(self).in_heading == old(self).in_heading,
        decreases t, 1int,
    {
        let mut r: usize = 0;
        while r < t.children.len()
            invariant
                r <= t.children@.len(),
                old(self).title is Some ==> self.title == old(self).title,
                self.headings@.len() >= old(self).headings@.len(),
                self.code@.len() >= old(self).code@.len(),
                self.in_heading == old(self).in_heading,
            decreases t.children@.len() - r,
        {
            proof {
                assert(decreases_to!(t.children => t.children@[r as int]));
            }
            self.visit_row(&t.children[r]);
            r = r + 1;
        }
    }

    fn visit_row(&mut self, row: &TableRow)
        ensures
            old(self).title is Some ==> final(self).title == old(self).title,
            final(self).headings@.len() >= old(self).headings@.len(),
            final(self).code@.len() >= old(self).code@.len(),
            final(self).in_heading == old(self).in_heading,
        decreases row, 1int,
    {
        let mut c: usize = 0;
        while c < row.children.len()
            invariant
                c <= row.children@.len(),
                old(self).title is Some ==> self.title == old(self).title,
                self.headings@.len() >= old(self).headings@.len(),
                self.code@.len() >= old(self).code@.len(),
                self.in_heading == old(self).in_heading,
            decreases row.children@.len() - c,
        {
            proof {
                assert(decreases_to!(row.children => row.children@[c as int]));
            }
            self.visit_cell(&row.children[c]);
            c = c + 1;
        }
    }

    fn visit_node(&mut self, node: &Node)
        ensures
            old(self).title is Some ==> final(self).title == old(self).title,
            final(self).headings@.len() >= old(self).headings@.len(),
            final(self).code@.len() >= old(self).code@.len(),
            final(self).in_heading == old(self).in_heading,
        decreases node, 2int,
    {
        match node {
            Node::Text(t) => self.add_text(&t.value),
            Node::InlineCode(c) => self.add_text(&c.value),
            Node::Heading(h) => self.visit_heading(h),
            Node::CodeBlock(c) => {
                let value = utf8_lossy(&c.value);
                self.code.push(value);
            },
            Node::Paragraph(p) => self.visit_nodes(&p.children),
            Node::BlockQuote(q) => self.visit_nodes(&q.children),
            Node::List(l) => self.visit_list(l),
            Node::ListItem(item) => self.visit_nodes(&item.children),
            Node::Table(t) => self.visit_table(t),
            Node::Emphasis(e) => self.visit_nodes(&e.children),
            Node::Strong(s) => self.visit_nodes(&s.children),
            Node::Link(l) => self.visit_nodes(&l.children),
            Node::Delete(d) => self.visit_nodes(&d.children),
            Node::FootnoteDefinition(f) => self.visit_nodes(&f.children),
            _ => {},
        }
    }

    /// The search document of what was collected, under `id` and `url`;
    /// an empty title when no level-one heading was found.
    pub fn into_search_document(self, id: String, url: String) -> (r: SearchDocument)
        ensures
            r.id@ == id@,
            r.url@ == url@,
            self.title_view() matches Some(t) ==> r.title@ == t,
            self.title_view() is None ==> r.title@.len() == 0,
            r.headings@.len() == self.heading_count(),
            r.code@.len() == self.code_count(),
    {
        let title = match self.title {
            Some(t) => t,
            None => String::new(),
        };
        SearchDocument { id, title, url, body: self.body, headings: self.headings, code: self.code }
    }

    /// The title: the first level-one heading.
    pub fn title(&self) -> (r: Option<&str>)
        ensures
            r is Some <==> self.title_view() is Some,
            r matches Some(t) ==> self.title_view() == Some(t@),
    {
        match &self.title {
            Some(t) => Some(t.as_str()),
            None => None,
        }
    }

    /// The body text.
    pub fn body(&self) -> (r: &str) {
        self.body.as_str()
    }

    /// The headings, in document order.
    pub fn headings(&self) -> (r: &[String])
        ensures
            r@.len() == self.heading_count(),
    {
        self.headings.as_slice()
    }

    /// The code blocks, in document order.
    pub fn code(&self) -> (r: &[String])
        ensures
            r@.len() == self.code_count(),
    {
        self.code.as_slice()
    }
}

} // verus!
