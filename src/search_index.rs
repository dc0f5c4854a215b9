//! Documents collected for the search index.
use vstd::prelude::*;

use crate::search_tokenizer::{tokenize, tokens_of};
use crate::text::{owned, str_eq, views};

verus! {

/// A document as the search index sees it.
#[derive(Debug, Clone)]
pub struct SearchDocument {
    /// Unique identifier, usually the URL path.
    pub id: String,
    pub title: String,
    pub url: String,
    /// Main text.
    pub body: String,
    pub headings: Vec<String>,
    /// Code snippets.
    pub code: Vec<String>,
}

/// Where in a document a term was found.
#[derive(Debug, Clone, Copy, PartialEq, Eq, Structural)]
pub enum Field {
    Title,
    Heading,
    Body,
    Code,
}

/// One occurrence list entry of the inverted index.
#[derive(Debug, Clone)]
pub struct Posting {
    /// Index of the document.
    pub doc_idx: usize,
    /// Term frequency in the document.
    pub tf: u32,
    pub field: Field,
}

/// Collects the documents of a search index.
#[derive(Debug, Default)]
pub struct SearchIndexBuilder {
    documents: Vec<SearchDocument>,
}

impl SearchIndexBuilder {
    /// The documents added so far, in order.
    pub closed spec fn docs(&self) -> Seq<SearchDocument> {
        self.documents@
    }

    /// A builder with no document.
    pub fn new() -> (r: SearchIndexBuilder)
        ensures
            r.docs().len() == 0,
    {
        SearchIndexBuilder { documents: Vec::new() }
    }

    /// Adds a document.
    pub fn add_document(&mut self, doc: SearchDocument)
        ensures
            final(self).docs() == old(self).docs().push(doc),
    {
        self.documents.push(doc);
    }

    /// Adds a document with only an id, a title, a URL and a body.
    pub fn add_simple(&mut self, id: &str, title: &str, url: &str, body: &str)
        ensures
            final(self).docs().len() == old(self).docs().len() + 1,
            final(self).docs().subrange(0, old(self).docs().len() as int) == old(self).docs(),
            ({
                let d = final(self).docs().last();
                &&& d.id@ == id@
                &&& d.title@ == title@
                &&& d.url@ == url@
                &&& d.body@ == body@
                &&& d.headings@.len() == 0
                &&& d.code@.len() == 0
            }),
    {
        self.documents.push(
            SearchDocument {
                id: owned(id),
                title: owned(title),
                url: owned(url),
                body: owned(body),
                headings: Vec::new(),
                code: Vec::new(),
            },
        );
        proof {
            assert(self.documents@.subrange(0, old(self).documents@.len() as int) =~= old(
                self,
            ).documents@);
        }
    }

    /// The documents, in the order they were added.
    pub fn into_documents(self) -> (r: Vec<SearchDocument>)
        ensures
            r@ == self.docs(),
    {
        self.documents
    }
}

/// Term counts of a document: each term with its frequency and the field
/// it was first found in, in order of first occurrence.
pub open spec fn term_views(v: Seq<(String, u32, Field)>) -> Seq<(Seq<char>, u32, Field)> {
    v.map_values(|e: (String, u32, Field)| (e.0@, e.1, e.2))
}

/// Where `t` stands in `acc` from `i` on, or `acc.len()`.
pub open spec fn term_pos(acc: Seq<(Seq<char>, u32, Field)>, t: Seq<char>, i: int) -> int
    decreases acc.len() - i,
{
    if i < 0 || i >= acc.len() {
        acc.len() as int
    } else if acc[i].0 == t {
        i
    } else {
        term_pos(acc, t, i + 1)
    }
}

/// `acc` after one more occurrence of `t` in `field`: its count goes up by
/// one (stopping at the largest `u32`), or it comes last with count 1.
pub open spec fn add_term(acc: Seq<(Seq<char>, u32, Field)>, t: Seq<char>, field: Field) -> Seq<
    (Seq<char>, u32, Field),
> {
    let k = term_pos(acc, t, 0);
    if 0 <= k < acc.len() {
        acc.update(k, (t, if acc[k].1 < u32::MAX { (acc[k].1 + 1) as u32 } else { acc[k].1 }, acc[k].2))
    } else {
        acc.push((t, 1u32, field))
    }
}

/// `acc` after each of `tokens` in `field`, in order.
pub open spec fn counted(acc: Seq<(Seq<char>, u32, Field)>, tokens: Seq<Seq<char>>, field: Field) -> Seq<
    (Seq<char>, u32, Field),
>
    decreases tokens.len(),
{
    if tokens.len() == 0 {
        acc
    } else {
        add_term(counted(acc, tokens.drop_last(), field), tokens.last(), field)
    }
}

/// `acc` after the index terms of each of `texts` in `field`, in order.
pub open spec fn counted_texts(acc: Seq<(Seq<char>, u32, Field)>, texts: Seq<Seq<char>>, field: Field) -> Seq<
    (Seq<char>, u32, Field),
>
    decreases texts.len(),
{
    if texts.len() == 0 {
        acc
    } else {
        counted(counted_texts(acc, texts.drop_last(), field), tokens_of(texts.last(), true), field)
    }
}

/// The term counts of `d`: its title, headings, body and code, in that order.
pub open spec fn document_counts(d: SearchDocument) -> Seq<(Seq<char>, u32, Field)> {
    let a = counted(Seq::empty(), tokens_of(d.title@, true), Field::Title);
    let b = counted_texts(a, views(d.headings@), Field::Heading);
    let c = counted(b, tokens_of(d.body@, true), Field::Body);
    counted_texts(c, views(d.code@), Field::Code)
}

proof fn lemma_term_pos(acc: Seq<(Seq<char>, u32, Field)>, t: Seq<char>, i: int)
    requires
        0 <= i <= acc.len(),
    ensures
        i <= term_pos(acc, t, i) <= acc.len(),
        term_pos(acc, t, i) < acc.len() ==> acc[term_pos(acc, t, i)].0 == t,
        forall|j: int| i <= j < term_pos(acc, t, i) ==> acc[j].0 != t,
    decreases acc.len() - i,
{
    if i < acc.len() && acc[i].0 != t {
        lemma_term_pos(acc, t, i + 1);
    }
}

/// Counts one more occurrence of each of `tokens`, found in `field`.
pub fn count_terms(terms: &mut Vec<(String, u32, Field)>, tokens: &Vec<String>, field: Field)
    ensures
        term_views(final(terms)@) == counted(term_views(old(terms)@), views(tokens@), field),
{
    let mut i: usize = 0;
    while i < tokens.len()
        invariant
            i <= tokens@.len(),
            term_views(terms@) == counted(term_views(old(terms)@), views(tokens@.subrange(0, i as int)), field),
        decreases tokens@.len() - i,
    {
        let t = tokens[i].as_str();
        let ghost acc = term_views(terms@);
        let mut j: usize = 0;
        proof {
            lemma_term_pos(acc, t@, 0);
        }
        while j < terms.len() && !str_eq(terms[j].0.as_str(), t)
            invariant
                j <= terms@.len(),
                acc == term_views(terms@),
                forall|q: int| 0 <= q < j ==> acc[q].0 != t@,
                term_pos(acc, t@, 0) >= j,
                0 <= term_pos(acc, t@, 0) <= acc.len(),
                term_pos(acc, t@, 0) < acc.len() ==> acc[term_pos(acc, t@, 0)].0 == t@,
                forall|q: int| 0 <= q < term_pos(acc, t@, 0) ==> acc[q].0 != t@,
            decreases terms@.len() - j,
        {
            assert(acc[j as int].0 == terms@[j as int].0@);
            j = j + 1;
        }
        if j < terms.len() {
            proof {
                assert(acc[j as int].0 == t@);
            }
            let c = terms[j].1;
            let f = terms[j].2;
            let name = owned(t);
            terms.set(j, (name, c.saturating_add(1), f));
            proof {
                assert(term_views(terms@) =~= add_term(acc, t@, field));
            }
        } else {
            terms.push((owned(t), 1, field));
            proof {
                assert(term_views(terms@) =~= add_term(acc, t@, field));
            }
        }
        proof {
            let pre = views(tokens@.subrange(0, i as int));
            let cur = views(tokens@.subrange(0, i + 1));
            assert(cur.drop_last() =~= pre);
            assert(cur.last() == t@);
        }
        i = i + 1;
    }
    proof {
        assert(tokens@.subrange(0, tokens@.len() as int) =~= tokens@);
    }
}

/// Counts the index terms of each of `texts`, found in `field`.
fn count_texts(terms: &mut Vec<(String, u32, Field)>, texts: &Vec<String>, field: Field)
    ensures
        term_views(final(terms)@) == counted_texts(term_views(old(terms)@), views(texts@), field),
{
    let mut i: usize = 0;
    while i < texts.len()
        invariant
            i <= texts@.len(),
            term_views(terms@) == counted_texts(term_views(old(terms)@), views(texts@.subrange(0, i as int)), field),
        decreases texts@.len() - i,
    {
        let tokens = tokenize(texts[i].as_str());
        count_terms(terms, &tokens, field);
        proof {
            let pre = views(texts@.subrange(0, i as int));
            let cur = views(texts@.subrange(0, i + 1));
            assert(cur.drop_last() =~= pre);
        }
        i = i + 1;
    }
    proof {
        assert(texts@.subrange(0, texts@.len() as int) =~= texts@);
    }
}

/// The term counts of `doc` and the number of its body terms.
pub fn document_terms(doc: &SearchDocument) -> (r: (Vec<(String, u32, Field)>, usize))
    ensures
        term_views(r.0@) == document_counts(*doc),
        r.1 == tokens_of(doc.body@, true).len(),
{
    let mut terms: Vec<(String, u32, Field)> = Vec::new();
    proof {
        assert(term_views(terms@) =~= Seq::empty());
    }
    let title = tokenize(doc.title.as_str());
    count_terms(&mut terms, &title, Field::Title);
    count_texts(&mut terms, &doc.headings, Field::Heading);
    let body = tokenize(doc.body.as_str());
    let body_len = body.len();
    count_terms(&mut terms, &body, Field::Body);
    count_texts(&mut terms, &doc.code, Field::Code);
    proof {
        assert(body_len == views(body@).len());
    }
    (terms, body_len)
}

} // verus!
