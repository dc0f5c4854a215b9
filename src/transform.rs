//! Markdown to HTML in one step, with the parser options of a site.
use vstd::prelude::*;
use vstd::string::StringSliceAdditionalSpecFns;

use crate::allocator::Allocator;
use crate::ast::Document;
use crate::parser::{block_kind_fits, node_starts, ParseError, Parser, ParserOptions};
use crate::renderer::blocks_html;
use vstd::utf8::{decode_utf8, valid_utf8};
use crate::renderer::HtmlRenderer;

verus! {

/// `d` is the document that parsing `src` with options `o` gives: one node
/// for each start in `node_starts`, each the block that opens there.
pub open spec fn parsed(d: Document, src: Seq<u8>, o: ParserOptions) -> bool {
    let tables = o.tables || o.gfm;
    let task = o.task_lists || o.gfm;
    &&& d.children@.len() == node_starts(src, 0, tables, task).len()
    &&& forall|k: int|
        0 <= k < d.children@.len() ==> block_kind_fits(
            Some(#[trigger] d.children@[k]),
            src,
            node_starts(src, 0, tables, task)[k],
            tables,
            task,
        )
}

/// Parser options for the Markdown files of a site.
pub struct TransformContext {
    parser_options: ParserOptions,
}

impl TransformContext {
    /// The options in use.
    pub closed spec fn opts(&self) -> ParserOptions {
        self.parser_options
    }

    /// A context with every GFM extension on.
    pub fn new() -> (r: TransformContext)
        ensures
            r.opts().gfm && r.opts().tables && r.opts().task_lists,
            r.opts().max_nesting_depth == 100,
    {
        TransformContext { parser_options: ParserOptions::gfm() }
    }

    /// A context with the given options.
    pub fn with_options(parser_options: ParserOptions) -> (r: TransformContext)
        ensures
            r.opts() == parser_options,
    {
        TransformContext { parser_options }
    }

    /// Parses `source` with the context's options.
    pub fn parse(&self, allocator: &Allocator, source: &str) -> (r: Result<Document, ParseError>)
        requires
            source.spec_bytes().len() <= u32::MAX,
        ensures
            r is Ok,
            r matches Ok(d) ==> d.span.start == 0 && d.span.end == source.spec_bytes().len(),
            r matches Ok(d) ==> parsed(d, source.spec_bytes(), self.opts()),
    {
        let parser = Parser::with_options(allocator, source, self.parser_options);
        parser.parse()
    }

    /// Renders a document to HTML.
    pub fn render_html(&self, document: &Document) -> (r: String)
        ensures
            document.children@.len() == 0 ==> r@.len() == 0,
            blocks_html(document.children@, false) matches Some(b) ==> (valid_utf8(b) ==> r@
                == decode_utf8(b)),
    {
        let mut renderer = HtmlRenderer::new();
        renderer.render(document)
    }

    /// Markdown to HTML: the rendering of the parsed document.
    pub fn transform(&self, source: &str) -> (r: Result<String, ParseError>)
        requires
            source.spec_bytes().len() <= u32::MAX,
        ensures
            r is Ok,
            r matches Ok(h) ==> exists|d: Document|
                parsed(d, source.spec_bytes(), self.opts()) && (blocks_html(d.children@, false) matches Some(
                    b,
                ) ==> (valid_utf8(b) ==> h@ == decode_utf8(b))),
    {
        let allocator = Allocator::new();
        let doc = self.parse(&allocator, source)?;
        let h = self.render_html(&doc);
        proof {
            assert(parsed(doc, source.spec_bytes(), self.opts()));
        }
        Ok(h)
    }
}

} // verus!
