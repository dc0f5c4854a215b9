//! Block-level Markdown parsing: headings, thematic breaks, fenced code,
//! tables, lists and paragraphs, each found by a cheap lookahead and then
//! consumed line by line.
use vstd::prelude::*;
use vstd::string::*;

use crate::allocator::Allocator;
use crate::ast::{
    AlignKind, CodeBlock, Document, Heading, List, ListItem, Node, Paragraph, Table, TableCell,
    TableRow, ThematicBreak,
};
use crate::inline::{
    copy_range, inline_shapes, is_special, is_text_of, nodes_fit, parse_inline, plain_range,
};
use crate::scan::{
    bullet_marker, contains_byte, count_digits, count_run, digit_run, fence_start,
    find_line_end, find_trim_end, find_trim_start, find_utrim_end, has_byte, heading_start, is_blank,
    is_fence_start, is_heading_start, is_list_start, is_table_start,
    is_thematic_break, is_ws, lemma_digit_run_bounds, lemma_line_end_bounds, lemma_trim_bounds, line_end, list_start,
    ordinal_marker, run_len, skip_blank, skip_blanks, table_start, thematic_break_line,
    trim_end, trim_start, cell_alignment, alignment_of, utrim_start, utrim_end, find_utrim_start,
    lemma_utrim_bounds, lemma_utrim_ascii, lemma_utrim_all_ws, lemma_utrim_end_keeps, lemma_utrim_start_longer,
};
use crate::md_lexer::digits_value;
use crate::span::Span;

verus! {

/// Feature switches of the parser.
#[derive(Debug, Clone, Copy, PartialEq, Eq, Structural, Default)]
pub struct ParserOptions {
    /// GitHub Flavored Markdown extensions.
    pub gfm: bool,
    /// Footnotes.
    pub footnotes: bool,
    /// Task-list checkboxes on list items.
    pub task_lists: bool,
    /// Tables.
    pub tables: bool,
    /// Strikethrough.
    pub strikethrough: bool,
    /// Autolinks.
    pub autolinks: bool,
    /// Deepest nesting of block containers that is accepted.
    pub max_nesting_depth: usize,
}

impl ParserOptions {
    /// Every GFM extension on, nesting capped at 100.
    pub fn gfm() -> (r: ParserOptions)
        ensures
            r.gfm && r.footnotes && r.task_lists && r.tables && r.strikethrough && r.autolinks,
            r.max_nesting_depth == 100,
    {
        ParserOptions {
            gfm: true,
            footnotes: true,
            task_lists: true,
            tables: true,
            strikethrough: true,
            autolinks: true,
            max_nesting_depth: 100,
        }
    }
}

/// The one fatal parse error.
#[derive(Debug, Clone, Copy, PartialEq, Eq, Structural)]
pub enum ParseError {
    /// Block containers nest deeper than `max_depth`.
    NestingTooDeep { span: Span, max_depth: usize },
}

/// Index just past the line at `p`: after its newline, or the end of input.
pub open spec fn next_line(s: Seq<u8>, p: int) -> int {
    if line_end(s, p) < s.len() {
        line_end(s, p) + 1
    } else {
        s.len() as int
    }
}

/// Where the next block starts: lines of only spaces and tabs ended by a
/// newline are skipped.
pub open spec fn skip_blank_lines(s: Seq<u8>, p: int) -> int
    decreases s.len() - p,
{
    if p < 0 || p >= s.len() {
        p
    } else {
        let q = skip_blank(s, p);
        if p <= q < s.len() && s[q] == 10 {
            skip_blank_lines(s, q + 1)
        } else {
            p
        }
    }
}

/// Where the content of fenced code starting at `q` ends, for a fence of
/// `n` bytes `c`: at the first line that starts with at least `n` of `c`
/// (a shorter run is content), or at the end of input.
pub open spec fn fence_close(s: Seq<u8>, q: int, c: u8, n: int) -> int
    decreases s.len() - q,
{
    if q < 0 || q >= s.len() {
        s.len() as int
    } else if run_len(s, q, s.len() as int, c) >= n {
        q
    } else if next_line(s, q) <= q {
        s.len() as int
    } else {
        fence_close(s, next_line(s, q), c, n)
    }
}

/// Where the info string of the fence at `p` starts, before trimming.
pub open spec fn info_start(s: Seq<u8>, p: int) -> int {
    skip_blank(s, p + run_len(s, p, s.len() as int, s[p]))
}

/// Where the content of the fenced code at `p` starts: the line after the
/// fence.
pub open spec fn code_start(s: Seq<u8>, p: int) -> int {
    next_line(s, info_start(s, p))
}

/// Index of the first space in `s[a..b]`, or `b`.
pub open spec fn first_space(s: Seq<u8>, a: int, b: int) -> int
    decreases b - a,
{
    if a >= b {
        b
    } else if s[a] == 32 {
        a
    } else {
        first_space(s, a + 1, b)
    }
}

/// The alignment of the cell `s[a..b]` when it is not blank.
pub open spec fn cell_align(s: Seq<u8>, a: int, b: int) -> Seq<AlignKind> {
    let ta = utrim_start(s, a, b);
    let tb = utrim_end(s, ta, b);
    if tb > ta {
        seq![alignment_of(s, ta, tb)]
    } else {
        Seq::empty()
    }
}

/// Alignments of the non-blank `|`-separated cells of `s[piece..hi]`, the
/// first cell starting at `piece` and read up to `i` so far.
pub open spec fn row_aligns(s: Seq<u8>, piece: int, i: int, hi: int) -> Seq<AlignKind>
    decreases hi - i,
{
    if i >= hi {
        cell_align(s, piece, hi)
    } else if s[i] == 124 {
        cell_align(s, piece, i) + row_aligns(s, i + 1, i + 1, hi)
    } else {
        row_aligns(s, piece, i + 1, hi)
    }
}

/// The column alignments of the table at `p`, read from its second line.
pub open spec fn table_aligns(s: Seq<u8>, p: int) -> Seq<AlignKind> {
    let l2 = line_end(s, p) + 1;
    row_aligns(s, l2, l2, line_end(s, l2))
}

/// Where the text of the heading at `p` starts: after its `#` run and blanks.
pub open spec fn heading_text_start(s: Seq<u8>, p: int) -> int {
    skip_blank(s, p + run_len(s, p, s.len() as int, 35))
}

/// Where the text of the heading at `p` ends: trailing whitespace, then a
/// closing run of `#`, then whitespace again are removed.
pub open spec fn heading_text_end(s: Seq<u8>, p: int) -> int {
    let cs = heading_text_start(s, p);
    utrim_end(s, cs, trim_hashes(s, cs, utrim_end(s, cs, line_end(s, cs))))
}

/// `n` is a heading whose children are the inline nodes of its text
/// `s[a..b]`.
pub open spec fn heading_text_fits(n: Node, s: Seq<u8>, a: int, b: int) -> bool {
    &&& nodes_fit(n->Heading_0.children@, inline_shapes(s, a, b), s, b - a)
    &&& a >= b ==> n->Heading_0.children@.len() == 0
    &&& a < b && plain_range(s, a, b) ==> n->Heading_0.children@.len() == 1 && is_text_of(
        n->Heading_0.children@[0],
        s,
        a,
        b,
    )
}

/// Number of body rows of a table from `pos`: lines holding a `|`, up to a
/// blank line or a line without one.
pub open spec fn body_rows(s: Seq<u8>, pos: int) -> nat
    decreases s.len() - pos,
{
    if pos < 0 || pos >= s.len() {
        0
    } else {
        let q = skip_blank(s, pos);
        if q >= s.len() || s[q] == 10 {
            0
        } else if !contains_byte(s, pos, line_end(s, pos), 124) {
            0
        } else if next_line(s, pos) <= pos {
            0
        } else {
            1 + body_rows(s, next_line(s, pos))
        }
    }
}

/// A cell `s[a..b]` without its surrounding Unicode whitespace.
pub open spec fn cell_of(s: Seq<u8>, a: int, b: int) -> (int, int) {
    let ca = utrim_start(s, a, b);
    (ca, utrim_end(s, ca, b))
}

/// The cells of `s[piece..hi]` split at `|`, the first one starting at
/// `piece` and read up to `i` so far.
pub open spec fn cells_from(s: Seq<u8>, piece: int, i: int, hi: int) -> Seq<(int, int)>
    decreases hi - i,
{
    if i >= hi {
        seq![cell_of(s, piece, hi)]
    } else if s[i] == 124 {
        seq![cell_of(s, piece, i)] + cells_from(s, i + 1, i + 1, hi)
    } else {
        cells_from(s, piece, i + 1, hi)
    }
}

/// The part of the row `s[a..b]` between its outer pipes, once trimmed.
pub open spec fn row_inner(s: Seq<u8>, a: int, b: int) -> (int, int) {
    let ta = utrim_start(s, a, b);
    let tb = utrim_end(s, ta, b);
    let lo = if ta < tb && s[ta] == 124 {
        ta + 1
    } else {
        ta
    };
    let hi = if lo < tb && s[tb - 1] == 124 {
        tb - 1
    } else {
        tb
    };
    (lo, hi)
}

/// The cell ranges of the row `s[a..b]`.
pub open spec fn row_cell_ranges(s: Seq<u8>, a: int, b: int) -> Seq<(int, int)> {
    cells_from(s, row_inner(s, a, b).0, row_inner(s, a, b).0, row_inner(s, a, b).1)
}

/// `row` is the row on `s[a..b]`: one cell per range, each the inline
/// nodes of its text.
pub open spec fn row_fits(row: TableRow, s: Seq<u8>, a: int, b: int) -> bool {
    let cells = row_cell_ranges(s, a, b);
    &&& row.span.start == a && row.span.end == b
    &&& row.children@.len() == cells.len()
    &&& forall|k: int|
        0 <= k < cells.len() ==> (#[trigger] row.children@[k]).span.start == cells[k].0
            && row.children@[k].span.end == cells[k].1 && nodes_fit(
            row.children@[k].children@,
            inline_shapes(s, cells[k].0, cells[k].1),
            s,
            cells[k].1 - cells[k].0,
        )
}

/// The line starts of the body rows of a table from `pos`.
pub open spec fn body_lines(s: Seq<u8>, pos: int) -> Seq<int>
    decreases s.len() - pos,
{
    if pos < 0 || pos >= s.len() {
        Seq::empty()
    } else {
        let q = skip_blank(s, pos);
        if q >= s.len() || s[q] == 10 {
            Seq::empty()
        } else if !contains_byte(s, pos, line_end(s, pos), 124) {
            Seq::empty()
        } else if next_line(s, pos) <= pos {
            Seq::empty()
        } else {
            seq![pos] + body_lines(s, next_line(s, pos))
        }
    }
}

proof fn lemma_body_lines_len(s: Seq<u8>, pos: int)
    ensures
        body_lines(s, pos).len() == body_rows(s, pos),
    decreases s.len() - pos,
{
    if 0 <= pos < s.len() && next_line(s, pos) > pos {
        lemma_body_lines_len(s, next_line(s, pos));
    }
}

/// Where the body rows of a table from `pos` end.
pub open spec fn body_end(s: Seq<u8>, pos: int) -> int
    decreases s.len() - pos,
{
    if pos < 0 || pos >= s.len() {
        pos
    } else {
        let q = skip_blank(s, pos);
        if q >= s.len() || s[q] == 10 {
            pos
        } else if !contains_byte(s, pos, line_end(s, pos), 124) {
            pos
        } else if next_line(s, pos) <= pos {
            pos
        } else {
            body_end(s, next_line(s, pos))
        }
    }
}

/// Where the body of the table at `p` starts: after its delimiter line.
pub open spec fn table_body(s: Seq<u8>, p: int) -> int {
    next_line(s, line_end(s, p) + 1)
}

/// Whether the list at `p` is ordered: its trimmed line starts with a digit.
pub open spec fn ordered_at(s: Seq<u8>, p: int) -> bool {
    let le = line_end(s, p);
    let ts = utrim_start(s, p, le);
    ts < le && 48 <= s[ts] <= 57
}

/// Where a list that started at `start` with indentation `baseline` ends,
/// scanning from the line at `pos`: a blank or shallower line, or a line at
/// the baseline that is no item, ends it; a deeper list marker starts a
/// nested list that is skipped as a whole; other deeper lines are skipped.
pub open spec fn scan_end(s: Seq<u8>, pos: int, start: int, baseline: int, ordered: bool, task: bool) -> int
    decreases s.len() - pos, if pos > start { 2int } else { 0int },
{
    if pos < 0 || pos >= s.len() {
        s.len() as int
    } else {
        let le = line_end(s, pos);
        let ts = trim_start(s, pos, le);
        let ind = indentation(s, pos);
        if ts >= le {
            pos
        } else if ind < baseline {
            pos
        } else if ind > baseline {
            if list_start(s, pos) && pos > start {
                let ne = list_end(s, pos, task);
                if pos < ne <= s.len() {
                    scan_end(s, ne, start, baseline, ordered, task)
                } else {
                    s.len() as int
                }
            } else if pos < next_line(s, pos) <= s.len() {
                scan_end(s, next_line(s, pos), start, baseline, ordered, task)
            } else {
                s.len() as int
            }
        } else if item_content(s, pos, ordered, task) is Some && pos < next_line(s, pos) <= s.len() {
            scan_end(s, next_line(s, pos), start, baseline, ordered, task)
        } else {
            pos
        }
    }
}

/// Where the list that opens at `p` ends.
pub open spec fn list_end(s: Seq<u8>, p: int, task: bool) -> int
    decreases s.len() - p, 1int,
{
    scan_end(s, p, p, indentation(s, p), ordered_at(s, p), task)
}

/// `acc` with nested list start `q` attached to its last item (dropped when
/// there is no item yet).
pub open spec fn attach(acc: Seq<(int, Seq<int>)>, q: int) -> Seq<(int, Seq<int>)> {
    if acc.len() == 0 {
        acc
    } else {
        acc.update(acc.len() - 1, (acc.last().0, acc.last().1.push(q)))
    }
}

/// The items of a list that started at `start`, scanning from `pos`: for
/// each item the start of its line and the starts of the nested lists
/// attached to it, in order; `acc` holds what was read before `pos`.
pub open spec fn shape_from(
    s: Seq<u8>,
    pos: int,
    start: int,
    baseline: int,
    ordered: bool,
    task: bool,
    acc: Seq<(int, Seq<int>)>,
) -> Seq<(int, Seq<int>)>
    decreases s.len() - pos,
{
    if pos < 0 || pos >= s.len() {
        acc
    } else {
        let le = line_end(s, pos);
        let ts = trim_start(s, pos, le);
        let ind = indentation(s, pos);
        if ts >= le {
            acc
        } else if ind < baseline {
            acc
        } else if ind > baseline {
            if list_start(s, pos) && pos > start {
                let ne = list_end(s, pos, task);
                if pos < ne <= s.len() {
                    shape_from(s, ne, start, baseline, ordered, task, attach(acc, pos))
                } else {
                    acc
                }
            } else if pos < next_line(s, pos) <= s.len() {
                shape_from(s, next_line(s, pos), start, baseline, ordered, task, acc)
            } else {
                acc
            }
        } else if item_content(s, pos, ordered, task) is Some && pos < next_line(s, pos) <= s.len() {
            shape_from(s, next_line(s, pos), start, baseline, ordered, task, acc.push((pos, Seq::empty())))
        } else {
            acc
        }
    }
}

/// The items of the list that opens at `p`, with their nested lists.
pub open spec fn list_shape(s: Seq<u8>, p: int, task: bool) -> Seq<(int, Seq<int>)> {
    shape_from(s, p, p, indentation(s, p), ordered_at(s, p), task, Seq::empty())
}

/// `items` are the items that `shape` lists: one per entry, starting on its
/// line, holding its paragraph and then one nested list per nested start,
/// each the list that opens there.
pub open spec fn items_fit(items: Seq<ListItem>, shape: Seq<(int, Seq<int>)>, s: Seq<u8>, p: int, task: bool) -> bool
    decreases s.len() - p, 0int,
{
    &&& items.len() == shape.len()
    &&& forall|k: int|
        0 <= k < items.len() ==> (#[trigger] items[k]).span.start == shape[k].0
            && items[k].children@.len() == 1 + shape[k].1.len()
    &&& forall|k: int, j: int|
        0 <= k < items.len() && 0 <= j < shape[k].1.len() ==> (#[trigger] items[k].children@[j + 1])
            is List && p < shape[k].1[j] <= s.len() && list_fits(
            items[k].children@[j + 1]->List_0,
            s,
            shape[k].1[j],
            task,
        )
}

/// Where the lines of a paragraph end, scanning from `pos`: at a blank line,
/// a line that opens another block, or the end of input.
pub open spec fn para_end(s: Seq<u8>, pos: int, tables: bool) -> int
    decreases s.len() - pos,
{
    if pos < 0 || pos >= s.len() {
        pos
    } else {
        let q = skip_blank(s, pos);
        if q >= s.len() || s[q] == 10 {
            pos
        } else if opens_block(s, pos, tables) {
            pos
        } else if pos < next_line(s, pos) <= s.len() {
            para_end(s, next_line(s, pos), tables)
        } else {
            s.len() as int
        }
    }
}

/// The trimmed text of the paragraph at `p`.
pub open spec fn para_text(s: Seq<u8>, p: int, tables: bool) -> (int, int) {
    let pe = para_end(s, p, tables);
    let cs = utrim_start(s, p, pe);
    (cs, utrim_end(s, cs, pe))
}

/// Whether the paragraph at `p` holds any text.
pub open spec fn para_has_text(s: Seq<u8>, p: int, tables: bool) -> bool {
    para_text(s, p, tables).1 > para_text(s, p, tables).0
}

/// Where parsing goes on after the paragraph at `p`: after its lines, or
/// after its first line when it holds no text.
pub open spec fn para_block_end(s: Seq<u8>, p: int, tables: bool) -> int {
    if !para_has_text(s, p, tables) && para_end(s, p, tables) <= p {
        next_line(s, p)
    } else {
        para_end(s, p, tables)
    }
}

/// Where parsing goes on after the block that opens at `p`.
pub open spec fn block_end(s: Seq<u8>, p: int, tables: bool, task: bool) -> int {
    if heading_start(s, p) {
        next_line(s, heading_text_start(s, p))
    } else if thematic_break_line(s, p) {
        next_line(s, p)
    } else if fence_start(s, p) {
        let cs = code_start(s, p);
        let fc = fence_close(s, cs, s[p], run_len(s, p, s.len() as int, s[p]));
        if fc < s.len() {
            next_line(s, fc)
        } else {
            s.len() as int
        }
    } else if tables && table_start(s, p) {
        body_end(s, table_body(s, p))
    } else if list_start(s, p) {
        list_end(s, p, task)
    } else {
        para_block_end(s, p, tables)
    }
}

/// Whether the block at `p` gives a node: every block does but a paragraph
/// without text.
pub open spec fn gives_node(s: Seq<u8>, p: int, tables: bool) -> bool {
    opens_block(s, p, tables) || para_has_text(s, p, tables)
}

/// Where each node of the document from `pos` starts, in order: blank lines
/// are skipped, then one block is read.
pub open spec fn node_starts(s: Seq<u8>, pos: int, tables: bool, task: bool) -> Seq<int>
    decreases s.len() - pos,
{
    if pos < 0 || pos >= s.len() {
        Seq::empty()
    } else {
        let p1 = skip_blank_lines(s, pos);
        if p1 >= s.len() {
            Seq::empty()
        } else {
            let e = block_end(s, p1, tables, task);
            let rest = if pos < e <= s.len() {
                node_starts(s, e, tables, task)
            } else {
                Seq::empty()
            };
            if gives_node(s, p1, tables) {
                seq![p1] + rest
            } else {
                rest
            }
        }
    }
}

/// Leading indentation at `p`: a space counts one, a tab four.
pub open spec fn indentation(s: Seq<u8>, p: int) -> int
    decreases s.len() - p,
{
    if p < 0 || p >= s.len() {
        0
    } else if s[p] == 32 {
        1 + indentation(s, p + 1)
    } else if s[p] == 9 {
        4 + indentation(s, p + 1)
    } else {
        0
    }
}

/// End of `s[a..b]` once trailing `#` bytes are removed.
pub open spec fn trim_hashes(s: Seq<u8>, a: int, b: int) -> int
    decreases b - a,
{
    if b <= a {
        a
    } else if s[b - 1] == 35 {
        trim_hashes(s, a, b - 1)
    } else {
        b
    }
}

/// Any block other than a paragraph opens at `p`.
pub open spec fn opens_block(s: Seq<u8>, p: int, tables: bool) -> bool {
    heading_start(s, p) || thematic_break_line(s, p) || fence_start(s, p) || (tables
        && table_start(s, p)) || list_start(s, p)
}

/// The text holds only ASCII letters, digits and spaces.
pub open spec fn plain_text(s: Seq<u8>) -> bool {
    forall|k: int|
        0 <= k < s.len() ==> (#[trigger] s[k] == 32 || (48 <= s[k] <= 57) || (65 <= s[k] <= 90)
            || (97 <= s[k] <= 122))
}

/// `n` is a paragraph whose only child is the text `s[a..b]`.
pub open spec fn is_plain_paragraph(n: Node, s: Seq<u8>, a: int, b: int) -> bool {
    &&& n is Paragraph
    &&& n->Paragraph_0.children@.len() == 1
    &&& is_text_of(n->Paragraph_0.children@[0], s, a, b)
}

/// Some byte of the text is not a space.
pub open spec fn has_nonspace(s: Seq<u8>) -> bool {
    exists|k: int| 0 <= k < s.len() && s[k] != 32
}

/// `c` is the fenced code block at `p`, ending at `end`: its content up to
/// the closing fence, the first word of its info string as language and
/// the rest as meta.
pub open spec fn code_fits(c: CodeBlock, s: Seq<u8>, p: int, end: int) -> bool {
    let n = run_len(s, p, s.len() as int, s[p]);
    let cs = code_start(s, p);
    let le = line_end(s, info_start(s, p));
    let is = utrim_start(s, info_start(s, p), le);
    let ie = utrim_end(s, is, le);
    let sp = first_space(s, is, ie);
    &&& c.value@ == s.subrange(cs, fence_close(s, cs, s[p], n))
    &&& end == if fence_close(s, cs, s[p], n) < s.len() {
        next_line(s, fence_close(s, cs, s[p], n))
    } else {
        s.len() as int
    }
    &&& c.span.start == p && c.span.end == end
    &&& ie <= is ==> c.lang is None && c.meta is None
    &&& ie > is ==> (c.lang matches Some(l) && l@ == s.subrange(is, sp))
    &&& ie > is && sp < ie ==> (c.meta matches Some(m) && m@ == s.subrange(sp + 1, ie))
    &&& sp >= ie ==> c.meta is None
}

/// `t` is the table at `p`: alignments from its delimiter row, its header
/// row first, one row for each body line, each with its cells.
pub open spec fn table_fits(t: Table, s: Seq<u8>, p: int) -> bool {
    &&& t.align@ == table_aligns(s, p)
    &&& t.children@.len() == 1 + body_rows(s, table_body(s, p))
    &&& t.children@[0].span.start == p
    &&& t.children@[0].span.end == line_end(s, p)
    &&& t.span.start == p && t.span.end == body_end(s, table_body(s, p))
    &&& t.children@.len() == 1 + body_lines(s, table_body(s, p)).len()
    &&& row_fits(t.children@[0], s, p, line_end(s, p))
    &&& forall|k: int|
        1 <= k < t.children@.len() ==> row_fits(
            #[trigger] t.children@[k],
            s,
            body_lines(s, table_body(s, p))[k - 1],
            line_end(s, body_lines(s, table_body(s, p))[k - 1]),
        )
}

/// `l` is the list at `p`: its kind and start ordinal from the first line,
/// exactly the items of `list_shape`, in order, each with its text and its
/// nested lists.
pub open spec fn list_fits(l: List, s: Seq<u8>, p: int, task: bool) -> bool
    decreases s.len() - p, 1int,
{
    &&& items_fit(l.children@, list_shape(s, p, task), s, p, task)
    &&& l.ordered == !bullet_marker(s, p)
    &&& ordinal_fits(l.start, s, p, l.ordered)
    &&& !l.spread
    &&& l.span.start == p && l.span.end == list_end(s, p, task)
    &&& l.children@.len() >= 1
    &&& l.children@[0].span.start == p
    &&& forall|k: int|
        0 <= k < l.children@.len() ==> item_fits(#[trigger] l.children@[k], s, l.ordered, task)
            && indentation(s, l.children@[k].span.start as int) == indentation(s, p) && p
            <= l.children@[k].span.start < list_end(s, p, task)
    &&& forall|k: int|
        0 <= k < l.children@.len() - 1 ==> (#[trigger] l.children@[k]).span.start
            < l.children@[k + 1].span.start
}

/// What the block that starts at `p` turns into, by the first lookahead
/// that matches: heading, thematic break, fenced code, table, list, and a
/// paragraph for a line that holds more than whitespace.
pub open spec fn block_kind_fits(n: Option<Node>, s: Seq<u8>, p: int, tables: bool, task: bool) -> bool {
    let h = heading_start(s, p);
    let t = thematic_break_line(s, p);
    let f = fence_start(s, p);
    let tb = tables && table_start(s, p);
    let l = list_start(s, p);
    let le = line_end(s, p);
    let end = block_end(s, p, tables, task);
    &&& h ==> n is Some && n->Some_0 is Heading && n->Some_0->Heading_0.depth == run_len(
        s,
        p,
        s.len() as int,
        35,
    ) && heading_text_fits(n->Some_0, s, heading_text_start(s, p), heading_text_end(s, p))
        && n->Some_0->Heading_0.span.start == p && n->Some_0->Heading_0.span.end == end
    &&& !h && t ==> n is Some && n->Some_0 is ThematicBreak && n->Some_0->ThematicBreak_0.span.start
        == p && n->Some_0->ThematicBreak_0.span.end == end
    &&& !h && !t && f ==> n is Some && n->Some_0 is CodeBlock && code_fits(
        n->Some_0->CodeBlock_0,
        s,
        p,
        end,
    )
    &&& !h && !t && !f && tb ==> n is Some && n->Some_0 is Table && table_fits(
        n->Some_0->Table_0,
        s,
        p,
    )
    &&& !h && !t && !f && !tb && l ==> n is Some && n->Some_0 is List && list_fits(
        n->Some_0->List_0,
        s,
        p,
        task,
    )
    &&& !opens_block(s, p, tables) ==> (n is Some <==> para_has_text(s, p, tables))
    &&& !opens_block(s, p, tables) ==> (n matches Some(x) ==> x is Paragraph
        && x->Paragraph_0.span.start == p && x->Paragraph_0.span.end == end && nodes_fit(
        x->Paragraph_0.children@,
        inline_shapes(s, para_text(s, p, tables).0, para_text(s, p, tables).1),
        s,
        para_text(s, p, tables).1 - para_text(s, p, tables).0,
    ))
    &&& !opens_block(s, p, tables) && utrim_start(s, p, le) < le ==> n is Some && n->Some_0 is Paragraph
}

/// A line with a byte that is not whitespace is not blank: skipping spaces
/// and tabs stops on it before the newline.
pub proof fn lemma_line_not_blank(s: Seq<u8>, p: int)
    requires
        0 <= p <= s.len(),
        trim_start(s, p, line_end(s, p)) < line_end(s, p),
    ensures
        skip_blank(s, p) < s.len(),
        s[skip_blank(s, p)] != 10,
        skip_blank(s, p) <= trim_start(s, p, line_end(s, p)),
{
    let le = line_end(s, p);
    lemma_line_end_bounds(s, p);
    lemma_trim_bounds(s, p, le);
    lemma_skip_blank_bounds(s, p);
    let ts = trim_start(s, p, le);
    let q = skip_blank(s, p);
    if q > ts {
        assert(is_blank(s[ts]));
    }
}

/// In a one-line text of letters, digits and spaces that is not all spaces,
/// no block but a paragraph opens at its start.
pub proof fn lemma_plain_text_opens_nothing(s: Seq<u8>, tables: bool)
    requires
        plain_text(s),
        has_nonspace(s),
    ensures
        line_end(s, 0) == s.len(),
        trim_start(s, 0, s.len() as int) < s.len(),
        !opens_block(s, 0, tables),
        skip_blank_lines(s, 0) == 0,
{
    lemma_line_end_bounds(s, 0);
    if line_end(s, 0) < s.len() {
        assert(s[line_end(s, 0)] == 10);
    }
    let len = s.len() as int;
    lemma_trim_bounds(s, 0, len);
    let ts = trim_start(s, 0, len);
    let k = choose|k: int| 0 <= k < s.len() && s[k] != 32;
    if ts == len {
        assert(is_ws(s[k]));
    }
    assert(s[ts] == 32 || (48 <= s[ts] <= 57) || (65 <= s[ts] <= 90) || (97 <= s[ts] <= 122));
    assert(s[0] == 32 || (48 <= s[0] <= 57) || (65 <= s[0] <= 90) || (97 <= s[0] <= 122));
    assert(!heading_start(s, 0));
    assert forall|k: int| 0 <= k < len implies #[trigger] s[k] < 0x80 by {
        assert(s[k] == 32 || (48 <= s[k] <= 57) || (65 <= s[k] <= 90) || (97 <= s[k] <= 122));
    }
    lemma_utrim_ascii(s, 0, len);
    lemma_utrim_ascii(s, ts, len);
    assert(!thematic_break_line(s, 0));
    assert(!bullet_marker(s, 0));
    lemma_digit_run_bounds(s, ts, len);
    let d = digit_run(s, ts, len);
    if ts + d + 1 < len {
        assert(s[ts + d] == 32 || (48 <= s[ts + d] <= 57) || (65 <= s[ts + d] <= 90) || (97 <= s[ts
            + d] <= 122));
    }
    assert(!ordinal_marker(s, 0));
    if contains_byte(s, 0, line_end(s, 0), 124) {
        let j = choose|j: int| 0 <= j < line_end(s, 0) && s[j] == 124;
        assert(s[j] == 32 || (48 <= s[j] <= 57) || (65 <= s[j] <= 90) || (97 <= s[j] <= 122));
    }
    assert(!table_start(s, 0));
    lemma_line_not_blank(s, 0);
}

pub proof fn lemma_skip_blank_bounds(s: Seq<u8>, p: int)
    requires
        0 <= p <= s.len(),
    ensures
        p <= skip_blank(s, p) <= s.len(),
        forall|k: int| p <= k < skip_blank(s, p) ==> is_blank(#[trigger] s[k]),
        skip_blank(s, p) < s.len() ==> !is_blank(s[skip_blank(s, p)]),
    decreases s.len() - p,
{
    if p < s.len() && is_blank(s[p]) {
        lemma_skip_blank_bounds(s, p + 1);
    }
}

pub proof fn lemma_skip_blank_lines_bounds(s: Seq<u8>, p: int)
    requires
        0 <= p <= s.len(),
    ensures
        p <= skip_blank_lines(s, p) <= s.len(),
    decreases s.len() - p,
{
    if p < s.len() {
        lemma_skip_blank_bounds(s, p);
        let q = skip_blank(s, p);
        if q < s.len() && s[q] == 10 {
            lemma_skip_blank_lines_bounds(s, q + 1);
        }
    }
}

pub proof fn lemma_indentation_bounds(s: Seq<u8>, p: int)
    requires
        0 <= p <= s.len(),
    ensures
        0 <= indentation(s, p) <= 4 * (s.len() - p),
    decreases s.len() - p,
{
    if p < s.len() && (s[p] == 32 || s[p] == 9) {
        lemma_indentation_bounds(s, p + 1);
    }
}

/// Index just past the line at `p`.
fn find_next_line(s: &[u8], p: usize) -> (r: usize)
    requires
        p <= s@.len(),
    ensures
        r == next_line(s@, p as int),
        p <= r <= s@.len(),
        p < s@.len() ==> p < r,
{
    let le = find_line_end(s, p);
    if le < s.len() {
        le + 1
    } else {
        le
    }
}

/// End of `s[a..b]` without its trailing `#` bytes.
fn find_trim_hashes(s: &[u8], a: usize, b: usize) -> (r: usize)
    requires
        a <= b <= s@.len(),
    ensures
        r == trim_hashes(s@, a as int, b as int),
        a <= r <= b,
{
    let mut j = b;
    while j > a && s[j - 1] == 35
        invariant
            a <= j <= b,
            b <= s@.len(),
            trim_hashes(s@, a as int, j as int) == trim_hashes(s@, a as int, b as int),
        decreases j - a,
    {
        j = j - 1;
    }
    j
}

/// Indentation of the line at `p`.
fn calc_indentation(s: &[u8], p: usize) -> (r: u64)
    requires
        p <= s@.len(),
        s@.len() <= u32::MAX,
    ensures
        r == indentation(s@, p as int),
{
    proof {
        lemma_indentation_bounds(s@, p as int);
    }
    let mut i = p;
    let mut n: u64 = 0;
    while i < s.len() && (s[i] == 32 || s[i] == 9)
        invariant
            p <= i <= s@.len(),
            s@.len() <= u32::MAX,
            n + indentation(s@, i as int) == indentation(s@, p as int),
            0 <= indentation(s@, i as int) <= 4 * (s@.len() - i),
            n <= 4 * (i - p),
        decreases s@.len() - i,
    {
        proof {
            lemma_indentation_bounds(s@, i + 1);
        }
        if s[i] == 32 {
            n = n + 1;
        } else {
            n = n + 4;
        }
        i = i + 1;
    }
    n
}

/// The value of the decimal digits `s[a..b]`, when it fits in a `u32`.
fn parse_ordinal(s: &[u8], a: usize, b: usize) -> (r: Option<u32>)
    requires
        a <= b <= s@.len(),
        forall|k: int| a <= k < b ==> 48 <= #[trigger] s@[k] <= 57,
    ensures
        r matches Some(v) ==> v == digits_value(s@, a as int, b as int),
        r is None ==> digits_value(s@, a as int, b as int) > u32::MAX,
{
    let mut v: u64 = 0;
    let mut i = a;
    while i < b
        invariant
            a <= i <= b,
            b <= s@.len(),
            forall|k: int| a <= k < b ==> 48 <= #[trigger] s@[k] <= 57,
            v == digits_value(s@, a as int, i as int),
            v <= u32::MAX,
        decreases b - i,
    {
        let next = v * 10 + (s[i] - 48) as u64;
        if next > u32::MAX as u64 {
            proof {
                lemma_digits_grow(s@, a as int, i + 1, b as int);
            }
            return None;
        }
        v = next;
        i = i + 1;
    }
    Some(v as u32)
}

proof fn lemma_digits_grow(s: Seq<u8>, a: int, i: int, b: int)
    requires
        a <= i <= b,
        forall|k: int| a <= k < b ==> 48 <= #[trigger] s[k] <= 57,
    ensures
        digits_value(s, a, b) >= digits_value(s, a, i),
    decreases b - i,
{
    if i < b {
        lemma_digits_grow(s, a, i, b - 1);
        lemma_digits_nonneg(s, a, b - 1);
    }
}

proof fn lemma_digits_nonneg(s: Seq<u8>, a: int, b: int)
    requires
        forall|k: int| a <= k < b ==> 48 <= #[trigger] s[k] <= 57,
    ensures
        digits_value(s, a, b) >= 0,
    decreases b - a,
{
    if a < b {
        lemma_digits_nonneg(s, a, b - 1);
    }
}

/// The checkbox at `c` on a line ending at `le`, when task lists are on:
/// where the item text then starts, and whether it is checked.
pub open spec fn task_box(s: Seq<u8>, c: int, le: int, task: bool) -> (int, Option<bool>) {
    if task && le - c >= 3 {
        let boxed_end = le - c == 3 || s[c + 3] == 32;
        let next = if le - c > 3 { c + 4 } else { le };
        if s[c] == 91 && (s[c + 1] == 120 || s[c + 1] == 88) && s[c + 2] == 93 && boxed_end {
            (next, Some(true))
        } else if s[c] == 91 && s[c + 1] == 32 && s[c + 2] == 93 && boxed_end {
            (next, Some(false))
        } else {
            (c, None)
        }
    } else {
        (c, None)
    }
}

/// The list item on the line at `p`: the range of its text after the
/// marker (and checkbox) and its checkbox state; ordinal markers count
/// only in an ordered list.
pub open spec fn item_content(s: Seq<u8>, p: int, ordered: bool, task: bool) -> Option<(int, int, Option<bool>)> {
    let le = line_end(s, p);
    let ts = utrim_start(s, p, le);
    if bullet_marker(s, p) {
        let (c, checked) = task_box(s, ts + 2, le, task);
        Some((c, le, checked))
    } else if ordered && ordinal_marker(s, p) {
        Some((ts + digit_run(s, ts, le) + 2, le, None))
    } else {
        None
    }
}

/// The nodes are the inline parse of `s[a..b]`.
pub open spec fn inline_fits(nodes: Seq<Node>, s: Seq<u8>, a: int, b: int) -> bool {
    &&& nodes_fit(nodes, inline_shapes(s, a, b), s, b - a)
    &&& a >= b ==> nodes.len() == 0
    &&& a < b && plain_range(s, a, b) ==> nodes.len() == 1 && is_text_of(nodes[0], s, a, b)
}

/// `item` is the item on its line: text after the marker as its first
/// child, nested lists after it.
pub open spec fn item_fits(item: ListItem, s: Seq<u8>, ordered: bool, task: bool) -> bool {
    match item_content(s, item.span.start as int, ordered, task) {
        Some(t) => {
            &&& item.checked == t.2
            &&& item.children@.len() >= 1
            &&& item.children@[0] is Paragraph
            &&& item.children@[0]->Paragraph_0.span.start == t.0
            &&& item.children@[0]->Paragraph_0.span.end == t.1
            &&& inline_fits(item.children@[0]->Paragraph_0.children@, s, t.0, t.1)
            &&& forall|j: int| 1 <= j < item.children@.len() ==> (#[trigger] item.children@[j]) is List
        },
        None => false,
    }
}

/// The ordinal that starts the list at `p`: the value of its digits when
/// the list is ordered and the value fits in a `u32`.
pub open spec fn ordinal_fits(start: Option<u32>, s: Seq<u8>, p: int, ordered: bool) -> bool {
    let le = line_end(s, p);
    let ts = utrim_start(s, p, le);
    let v = digits_value(s, ts, ts + digit_run(s, ts, le));
    &&& !ordered ==> start is None
    &&& ordered ==> (start matches Some(x) ==> x == v)
    &&& ordered && v <= u32::MAX ==> start is Some
}

/// Markdown parser over one source text.
///
/// The nesting depth is not counted while descending into lists, so
/// `max_nesting_depth` sets no limit in practice: the guard is checked
/// before each block but never trips, and parsing always succeeds.
pub struct Parser<'a> {
    allocator: &'a Allocator,
    source: &'a str,
    options: ParserOptions,
    position: usize,
    nesting_depth: usize,
}

impl<'a> Parser<'a> {
    /// The source as bytes.
    pub closed spec fn src(&self) -> Seq<u8> {
        self.source.spec_bytes()
    }

    /// The parser's options.
    pub closed spec fn opts(&self) -> ParserOptions {
        self.options
    }

    /// Offsets of the source fit in a span, and nothing has been consumed yet.
    pub closed spec fn wf(&self) -> bool {
        &&& self.source.spec_bytes().len() <= u32::MAX
        &&& self.nesting_depth == 0
        &&& self.position == 0
    }

    /// A parser with default options.
    pub fn new(allocator: &'a Allocator, source: &'a str) -> (r: Parser<'a>)
        requires
            source.spec_bytes().len() <= u32::MAX,
        ensures
            r.wf(),
            r.src() == source.spec_bytes(),
            r.opts() == (ParserOptions {
                gfm: false,
                footnotes: false,
                task_lists: false,
                tables: false,
                strikethrough: false,
                autolinks: false,
                max_nesting_depth: 0,
            }),
    {
        Parser {
            allocator,
            source,
            options: ParserOptions {
                gfm: false,
                footnotes: false,
                task_lists: false,
                tables: false,
                strikethrough: false,
                autolinks: false,
                max_nesting_depth: 0,
            },
            position: 0,
            nesting_depth: 0,
        }
    }

    /// A parser with the given options.
    pub fn with_options(allocator: &'a Allocator, source: &'a str, options: ParserOptions) -> (r:
        Parser<'a>)
        requires
            source.spec_bytes().len() <= u32::MAX,
        ensures
            r.wf(),
            r.src() == source.spec_bytes(),
            r.opts() == options,
    {
        Parser { allocator, source, options, position: 0, nesting_depth: 0 }
    }

    /// Where the next block starts at or after `p`.
    fn skip_blank_lines(&self, p: usize) -> (r: usize)
        requires
            p <= self.src().len(),
        ensures
            r == skip_blank_lines(self.src(), p as int),
            p <= r <= self.src().len(),
    {
        let s = self.source.as_bytes();
        proof {
            lemma_skip_blank_lines_bounds(s@, p as int);
        }
        let mut pos = p;
        let mut done = false;
        while !done && pos < s.len()
            invariant
                p <= pos <= s@.len(),
                s@ == self.src(),
                skip_blank_lines(s@, pos as int) == skip_blank_lines(s@, p as int),
                done ==> skip_blank_lines(s@, pos as int) == pos,
            decreases s@.len() - pos + if done { 0int } else { 1int },
        {
            let q = skip_blanks(s, pos);
            if q < s.len() && s[q] == 10 {
                pos = q + 1;
            } else {
                done = true;
            }
        }
        pos
    }

    /// Parses the heading that opens at `start`.
    fn parse_heading(&self, start: usize) -> (r: (Node, usize))
        requires
            start < self.src().len(),
            self.src().len() <= u32::MAX,
            heading_start(self.src(), start as int),
        ensures
            r.0 is Heading,
            r.0->Heading_0.depth == run_len(self.src(), start as int, self.src().len() as int, 35),
            heading_text_fits(
                r.0,
                self.src(),
                heading_text_start(self.src(), start as int),
                heading_text_end(self.src(), start as int),
            ),
            r.1 == next_line(self.src(), heading_text_start(self.src(), start as int)),
            r.0->Heading_0.span.start == start && r.0->Heading_0.span.end == r.1,
            start < r.1 <= self.src().len(),
    {
        let s = self.source.as_bytes();
        let depth = count_run(s, start, s.len(), 35);
        let content_start = skip_blanks(s, start + depth);
        let le = find_line_end(s, content_start);
        let e1 = find_utrim_end(s, content_start, le);
        let e2 = find_trim_hashes(s, content_start, e1);
        let content_end = find_utrim_end(s, content_start, e2);
        let end = if le < s.len() {
            le + 1
        } else {
            le
        };
        let children = if content_end > content_start {
            parse_inline(s, content_start, content_end)
        } else {
            Vec::new()
        };
        let span = Span::new(start as u32, end as u32);
        (Node::Heading(Heading { depth: depth as u8, children, span }), end)
    }

    /// Parses the thematic break on the line at `start`.
    fn parse_thematic_break(&self, start: usize) -> (r: (Node, usize))
        requires
            start < self.src().len(),
            self.src().len() <= u32::MAX,
        ensures
            r.0 is ThematicBreak,
            r.1 == next_line(self.src(), start as int),
            r.0->ThematicBreak_0.span.start == start && r.0->ThematicBreak_0.span.end == r.1,
            start < r.1 <= self.src().len(),
    {
        let s = self.source.as_bytes();
        let end = find_next_line(s, start);
        (Node::ThematicBreak(ThematicBreak { span: Span::new(start as u32, end as u32) }), end)
    }

    /// Parses the fenced code block that opens at `start`. Content runs up to
    /// a line that starts with at least as many fence bytes as opened it, or
    /// to the end of input.
    fn parse_fenced_code(&self, start: usize) -> (r: (Node, usize))
        requires
            start < self.src().len(),
            self.src().len() <= u32::MAX,
            fence_start(self.src(), start as int),
        ensures
            r.0 is CodeBlock,
            start < r.1 <= self.src().len(),
            ({
                let s = self.src();
                let n = run_len(s, start as int, s.len() as int, s[start as int]);
                let cs = code_start(s, start as int);
                let le = line_end(s, info_start(s, start as int));
                let is = utrim_start(s, info_start(s, start as int), le);
                let ie = utrim_end(s, is, le);
                &&& r.0->CodeBlock_0.value@ == s.subrange(cs, fence_close(s, cs, s[start as int], n))
                &&& r.1 == if fence_close(s, cs, s[start as int], n) < s.len() {
                    next_line(s, fence_close(s, cs, s[start as int], n))
                } else {
                    s.len() as int
                }
                &&& r.0->CodeBlock_0.span.start == start && r.0->CodeBlock_0.span.end == r.1
                &&& ie <= is ==> r.0->CodeBlock_0.lang is None
                &&& ie > is ==> (r.0->CodeBlock_0.lang matches Some(l) && l@ == s.subrange(
                    is,
                    first_space(s, is, ie),
                ))
            }),
            code_fits(r.0->CodeBlock_0, self.src(), start as int, r.1 as int),
    {
        let s = self.source.as_bytes();
        let fence = s[start];
        let fence_len = count_run(s, start, s.len(), fence);
        let info_start = skip_blanks(s, start + fence_len);
        let info_end = find_line_end(s, info_start);
        let is = find_utrim_start(s, info_start, info_end);
        let ie = find_utrim_end(s, is, info_end);
        let mut lang: Option<Vec<u8>> = None;
        let mut meta: Option<Vec<u8>> = None;
        if ie > is {
            let mut sp = is;
            while sp < ie && s[sp] != 32
                invariant
                    is <= sp <= ie,
                    ie <= s@.len(),
                    first_space(s@, sp as int, ie as int) == first_space(s@, is as int, ie as int),
                decreases ie - sp,
            {
                sp = sp + 1;
            }
            if sp < ie {
                lang = Some(copy_range(s, is, sp));
                meta = Some(copy_range(s, sp + 1, ie));
            } else {
                lang = Some(copy_range(s, is, ie));
            }
        }
        let content_start = if info_end < s.len() {
            info_end + 1
        } else {
            info_end
        };
        let mut pos = content_start;
        let mut content_end = content_start;
        let mut closed = false;
        proof {
            crate::scan::lemma_run_len_bounds(s@, start as int, s@.len() as int, fence);
        }
        while !closed && pos < s.len()
            invariant
                content_start <= content_end <= pos <= s@.len(),
                start < content_start,
                s@ == self.src(),
                !closed ==> content_end == pos && fence_close(s@, pos as int, fence, fence_len as int)
                    == fence_close(s@, content_start as int, fence, fence_len as int),
                closed ==> content_end == fence_close(s@, content_start as int, fence, fence_len as int),
                closed ==> content_end < s@.len() && pos == next_line(s@, content_end as int),
            decreases s@.len() - pos + if closed { 0int } else { 1int },
        {
            let closing = count_run(s, pos, s.len(), fence);
            if closing >= fence_len {
                content_end = pos;
                pos = find_next_line(s, pos);
                closed = true;
            } else {
                pos = find_next_line(s, pos);
                content_end = pos;
            }
        }
        let value = copy_range(s, content_start, content_end);
        let span = Span::new(start as u32, pos as u32);
        (Node::CodeBlock(CodeBlock { lang, meta, value, span }), pos)
    }

    /// Whether a block other than a paragraph opens at `p`.
    fn opens_block_at(&self, p: usize) -> (r: bool)
        requires
            p <= self.src().len(),
        ensures
            r == opens_block(self.src(), p as int, self.opts().tables || self.opts().gfm),
    {
        let s = self.source.as_bytes();
        is_heading_start(s, p) || is_thematic_break(s, p) || is_fence_start(s, p) || ((
        self.options.tables || self.options.gfm) && is_table_start(s, p)) || is_list_start(s, p)
    }

    /// Cell ranges of the table row `s[a..b]`: the row is trimmed, one pipe is
    /// stripped from each end, the rest is split on `|` and each cell trimmed.
    fn row_cells(&self, a: usize, b: usize) -> (r: Vec<(usize, usize)>)
        requires
            a <= b <= self.src().len(),
        ensures
            forall|i: int| 0 <= i < r@.len() ==> a <= (#[trigger] r@[i]).0 <= r@[i].1 <= b,
            r@.len() == row_cell_ranges(self.src(), a as int, b as int).len(),
            forall|i: int|
                0 <= i < r@.len() ==> (#[trigger] r@[i]).0 == row_cell_ranges(
                    self.src(),
                    a as int,
                    b as int,
                )[i].0 && r@[i].1 == row_cell_ranges(self.src(), a as int, b as int)[i].1,
    {
        let s = self.source.as_bytes();
        let ta = find_utrim_start(s, a, b);
        let tb = find_utrim_end(s, ta, b);
        let mut lo = ta;
        let mut hi = tb;
        if lo < hi && s[lo] == 124 {
            lo = lo + 1;
        }
        if lo < hi && s[hi - 1] == 124 {
            hi = hi - 1;
        }
        let ghost want = row_cell_ranges(s@, a as int, b as int);
        let mut cells: Vec<(usize, usize)> = Vec::new();
        let mut piece = lo;
        let mut i = lo;
        proof {
            assert(want == cells_from(s@, lo as int, lo as int, hi as int));
        }
        while i < hi
            invariant
                a <= lo <= piece <= i <= hi <= b,
                b <= s@.len(),
                forall|k: int| 0 <= k < cells@.len() ==> a <= (#[trigger] cells@[k]).0 <= cells@[k].1 <= b,
                want == cells_from(s@, lo as int, lo as int, hi as int),
                want == cells@.map_values(|c: (usize, usize)| (c.0 as int, c.1 as int)) + cells_from(
                    s@,
                    piece as int,
                    i as int,
                    hi as int,
                ),
            decreases hi - i,
        {
            if s[i] == 124 {
                let ca = find_utrim_start(s, piece, i);
                let cb = find_utrim_end(s, ca, i);
                let ghost before = cells@;
                cells.push((ca, cb));
                proof {
                    assert(cells@.map_values(|c: (usize, usize)| (c.0 as int, c.1 as int)) =~= before.map_values(
                        |c: (usize, usize)| (c.0 as int, c.1 as int),
                    ).push((ca as int, cb as int)));
                    assert(want =~= cells@.map_values(|c: (usize, usize)| (c.0 as int, c.1 as int))
                        + cells_from(s@, i + 1, i + 1, hi as int));
                }
                piece = i + 1;
            }
            i = i + 1;
        }
        let ca = find_utrim_start(s, piece, hi);
        let cb = find_utrim_end(s, ca, hi);
        let ghost before = cells@;
        cells.push((ca, cb));
        proof {
            assert(cells@.map_values(|c: (usize, usize)| (c.0 as int, c.1 as int)) =~= before.map_values(
                |c: (usize, usize)| (c.0 as int, c.1 as int),
            ).push((ca as int, cb as int)));
            assert(want =~= cells@.map_values(|c: (usize, usize)| (c.0 as int, c.1 as int)));
            assert forall|k: int| 0 <= k < cells@.len() implies (#[trigger] cells@[k]).0 == want[k].0
                && cells@[k].1 == want[k].1 by {
                assert(cells@.map_values(|c: (usize, usize)| (c.0 as int, c.1 as int))[k] == want[k]);
            }
        }
        cells
    }

    /// The table row on `s[a..b]`, its cells parsed as inline content.
    fn table_row(&self, a: usize, b: usize) -> (r: TableRow)
        requires
            a <= b <= self.src().len(),
            self.src().len() <= u32::MAX,
        ensures
            r.span.start == a,
            r.span.end == b,
            row_fits(r, self.src(), a as int, b as int),
    {
        let s = self.source.as_bytes();
        let ranges = self.row_cells(a, b);
        let mut cells: Vec<TableCell> = Vec::new();
        let mut i: usize = 0;
        while i < ranges.len()
            invariant
                0 <= i <= ranges@.len(),
                s@ == self.src(),
                s@.len() <= u32::MAX,
                forall|k: int| 0 <= k < ranges@.len() ==> a <= (#[trigger] ranges@[k]).0 <= ranges@[k].1 <= b,
                b <= s@.len(),
                ranges@.len() == row_cell_ranges(s@, a as int, b as int).len(),
                forall|k: int|
                    0 <= k < ranges@.len() ==> (#[trigger] ranges@[k]).0 == row_cell_ranges(
                        s@,
                        a as int,
                        b as int,
                    )[k].0 && ranges@[k].1 == row_cell_ranges(s@, a as int, b as int)[k].1,
                cells@.len() == i,
                forall|k: int|
                    0 <= k < i ==> (#[trigger] cells@[k]).span.start == ranges@[k].0
                        && cells@[k].span.end == ranges@[k].1 && nodes_fit(
                        cells@[k].children@,
                        inline_shapes(s@, ranges@[k].0 as int, ranges@[k].1 as int),
                        s@,
                        ranges@[k].1 - ranges@[k].0,
                    ),
            decreases ranges@.len() - i,
        {
            let (ca, cb) = ranges[i];
            let ghost before = cells@;
            cells.push(TableCell { children: parse_inline(s, ca, cb), span: Span::new(ca as u32, cb as u32) });
            proof {
                assert forall|k: int| 0 <= k < i implies cells@[k] == before[k] by {}
            }
            i = i + 1;
        }
        TableRow { children: cells, span: Span::new(a as u32, b as u32) }
    }

    /// Alignments named by the delimiter row `s[a..b]`, one for each cell
    /// that is not blank.
    fn row_alignments(&self, a: usize, b: usize) -> (r: Vec<AlignKind>)
        requires
            a <= b <= self.src().len(),
        ensures
            r@ == row_aligns(self.src(), a as int, a as int, b as int),
    {
        let s = self.source.as_bytes();
        let mut align: Vec<AlignKind> = Vec::new();
        let mut piece = a;
        let mut i = a;
        proof {
            assert(align@ + row_aligns(s@, a as int, a as int, b as int) =~= row_aligns(
                s@,
                a as int,
                a as int,
                b as int,
            ));
        }
        while i < b
            invariant
                a <= piece <= i <= b,
                b <= s@.len(),
                s@ == self.src(),
                align@ + row_aligns(s@, piece as int, i as int, b as int) == row_aligns(
                    s@,
                    a as int,
                    a as int,
                    b as int,
                ),
            decreases b - i,
        {
            if s[i] == 124 {
                let ca = find_utrim_start(s, piece, i);
                let cb = find_utrim_end(s, ca, i);
                let ghost before = align@;
                if cb > ca {
                    align.push(cell_alignment(s, ca, cb));
                }
                proof {
                    assert(align@ =~= before + cell_align(s@, piece as int, i as int));
                    assert(align@ + row_aligns(s@, i + 1, i + 1, b as int) =~= before + (cell_align(
                        s@,
                        piece as int,
                        i as int,
                    ) + row_aligns(s@, i + 1, i + 1, b as int)));
                }
                piece = i + 1;
            }
            i = i + 1;
        }
        let ca = find_utrim_start(s, piece, b);
        let cb = find_utrim_end(s, ca, b);
        let ghost before = align@;
        if cb > ca {
            align.push(cell_alignment(s, ca, cb));
        }
        proof {
            assert(align@ =~= before + cell_align(s@, piece as int, b as int));
        }
        align
    }

    /// Parses the table that opens at `start`: the header row, the delimiter
    /// row, then body rows while lines hold a `|`.
    fn parse_table(&self, start: usize) -> (r: (Node, usize))
        requires
            start < self.src().len(),
            self.src().len() <= u32::MAX,
            table_start(self.src(), start as int),
        ensures
            r.0 is Table,
            r.0->Table_0.align@ == table_aligns(self.src(), start as int),
            r.0->Table_0.children@.len() == 1 + body_rows(self.src(), table_body(self.src(), start as int)),
            r.0->Table_0.children@[0].span.start == start,
            r.0->Table_0.children@[0].span.end == line_end(self.src(), start as int),
            r.1 == body_end(self.src(), table_body(self.src(), start as int)),
            table_fits(r.0->Table_0, self.src(), start as int),
            start < r.1 <= self.src().len(),
    {
        let s = self.source.as_bytes();
        let le1 = find_line_end(s, start);
        let l2 = le1 + 1;
        let le2 = find_line_end(s, l2);
        let mut rows: Vec<TableRow> = Vec::new();
        rows.push(self.table_row(start, le1));
        let align = self.row_alignments(l2, le2);
        let mut pos = find_next_line(s, l2);
        let ghost first = pos as int;
        let ghost mut lines: Seq<int> = Seq::empty();
        let mut done = false;
        while !done && pos < s.len()
            invariant
                start < pos <= s@.len(),
                s@ == self.src(),
                s@.len() <= u32::MAX,
                first == table_body(s@, start as int),
                rows@.len() >= 1,
                rows@[0].span.start == start,
                rows@[0].span.end == le1,
                le1 == line_end(s@, start as int),
                !done ==> rows@.len() + body_rows(s@, pos as int) == 1 + body_rows(s@, first),
                done ==> rows@.len() == 1 + body_rows(s@, first),
                !done ==> body_end(s@, pos as int) == body_end(s@, first),
                done ==> pos == body_end(s@, first),
                rows@.len() == 1 + lines.len(),
                !done ==> lines + body_lines(s@, pos as int) == body_lines(s@, first),
                done ==> lines == body_lines(s@, first),
                row_fits(rows@[0], s@, start as int, le1 as int),
                forall|k: int|
                    1 <= k < rows@.len() ==> row_fits(
                        #[trigger] rows@[k],
                        s@,
                        lines[k - 1],
                        line_end(s@, lines[k - 1]),
                    ),
            decreases s@.len() - pos + if done { 0int } else { 1int },
        {
            let q = skip_blanks(s, pos);
            if q >= s.len() || s[q] == 10 {
                done = true;
                proof {
                    assert(lines + body_lines(s@, pos as int) =~= lines);
                }
            } else {
                let le = find_line_end(s, pos);
                if !has_byte(s, pos, le, 124) {
                    done = true;
                    proof {
                        assert(lines + body_lines(s@, pos as int) =~= lines);
                    }
                } else {
                    let ghost before = rows@;
                    let ghost p0 = pos as int;
                    rows.push(self.table_row(pos, le));
                    proof {
                        assert(rows@[0] == before[0]);
                        assert forall|k: int| 1 <= k < before.len() implies rows@[k] == before[k] by {}
                    }
                    pos = find_next_line(s, pos);
                    proof {
                        assert(body_lines(s@, p0) == seq![p0] + body_lines(s@, pos as int));
                        assert(lines.push(p0) + body_lines(s@, pos as int) =~= lines + body_lines(s@, p0));
                        lines = lines.push(p0);
                        assert forall|k: int|
                            1 <= k < rows@.len() implies row_fits(
                            #[trigger] rows@[k],
                            s@,
                            lines[k - 1],
                            line_end(s@, lines[k - 1]),
                        ) by {
                            if k < rows@.len() - 1 {
                                assert(rows@[k] == before[k]);
                            }
                        }
                    }
                }
            }
        }
        proof {
            if !done {
                assert(pos == s@.len());
                assert(body_lines(s@, pos as int) =~= Seq::<int>::empty());
                assert(lines + body_lines(s@, pos as int) =~= lines);
            }
            lemma_body_lines_len(s@, first);
        }
        let span = Span::new(start as u32, pos as u32);
        (Node::Table(Table { align, children: rows, span }), pos)
    }

    /// The item on the line at `p` when its marker fits the list: the range
    /// of its content and its checkbox state.
    fn list_item_content(&self, p: usize, ordered: bool) -> (r: Option<(usize, usize, Option<bool>)>)
        requires
            p <= self.src().len(),
        ensures
            (r matches Some(t) ==> p <= t.0 && t.0 <= t.1 && t.1 <= self.src().len()),
            r is Some <==> item_content(
                self.src(),
                p as int,
                ordered,
                self.opts().task_lists || self.opts().gfm,
            ) is Some,
            r matches Some(t) ==> item_content(
                self.src(),
                p as int,
                ordered,
                self.opts().task_lists || self.opts().gfm,
            ) == Some((t.0 as int, t.1 as int, t.2)),
            bullet_marker(self.src(), p as int) ==> r is Some,
            ordered && ordinal_marker(self.src(), p as int) ==> r is Some,
    {
        let s = self.source.as_bytes();
        let le = find_line_end(s, p);
        let ts = find_utrim_start(s, p, le);
        if le - ts > 1 && (s[ts] == 45 || s[ts] == 42 || s[ts] == 43) && s[ts + 1] == 32 {
            let mut c = ts + 2;
            let mut checked: Option<bool> = None;
            if (self.options.task_lists || self.options.gfm) && le - c >= 3 {
                let boxed_end = le - c == 3 || s[c + 3] == 32;
                if s[c] == 91 && (s[c + 1] == 120 || s[c + 1] == 88) && s[c + 2] == 93 && boxed_end {
                    checked = Some(true);
                    c = if le - c > 3 { c + 4 } else { le };
                } else if s[c] == 91 && s[c + 1] == 32 && s[c + 2] == 93 && boxed_end {
                    checked = Some(false);
                    c = if le - c > 3 { c + 4 } else { le };
                }
            }
            return Some((c, le, checked));
        }
        if ordered {
            let d = count_digits(s, ts, le);
            if d > 0 && le - ts - d > 1 && (s[ts + d] == 46 || s[ts + d] == 41) && s[ts + d + 1] == 32 {
                return Some((ts + d + 2, le, None));
            }
        }
        None
    }

    /// Parses the list that opens at `start`. Items at its indentation are
    /// siblings; a deeper list marker starts a nested list inside the last
    /// item; other deeper lines are skipped; a shallower or blank line ends it.
    #[verifier::rlimit(100)]
    #[verifier::spinoff_prover]
    fn parse_list(&self, start: usize) -> (r: (List, usize))
        requires
            start < self.src().len(),
            self.src().len() <= u32::MAX,
            list_start(self.src(), start as int),
        ensures
            r.0.ordered == !bullet_marker(self.src(), start as int),
            start < r.1 <= self.src().len(),
            r.1 == list_end(self.src(), start as int, self.opts().task_lists || self.opts().gfm),
            r.0.span.start == start && r.0.span.end == r.1,
            list_fits(r.0, self.src(), start as int, self.opts().task_lists || self.opts().gfm),
            ordinal_fits(r.0.start, self.src(), start as int, r.0.ordered),
            !r.0.spread,
            r.0.children@.len() >= 1,
            r.0.children@[0].span.start == start,
            forall|k: int|
                0 <= k < r.0.children@.len() ==> item_fits(
                    #[trigger] r.0.children@[k],
                    self.src(),
                    r.0.ordered,
                    self.opts().task_lists || self.opts().gfm,
                ) && indentation(self.src(), r.0.children@[k].span.start as int) == indentation(
                    self.src(),
                    start as int,
                ) && start <= r.0.children@[k].span.start < r.1,
            forall|k: int|
                0 <= k < r.0.children@.len() - 1 ==> (#[trigger] r.0.children@[k]).span.start
                    < r.0.children@[k + 1].span.start,
        decreases self.src().len() - start,
    {
        let s = self.source.as_bytes();
        let baseline = calc_indentation(s, start);
        let le0 = find_line_end(s, start);
        let ts0 = find_utrim_start(s, start, le0);
        let ordered = ts0 < le0 && 48 <= s[ts0] && s[ts0] <= 57;
        proof {
            lemma_utrim_bounds(s@, start as int, le0 as int);
            lemma_line_end_bounds(s@, start as int);
            crate::scan::lemma_digit_run_bounds(s@, ts0 as int, le0 as int);
        }
        let first_ordinal = if ordered {
            let d = count_digits(s, ts0, le0);
            parse_ordinal(s, ts0, ts0 + d)
        } else {
            None
        };
        let ghost task = self.opts().task_lists || self.opts().gfm;
        let mut items: Vec<ListItem> = Vec::new();
        let ghost mut acc: Seq<(int, Seq<int>)> = Seq::empty();
        let mut pos = start;
        let mut done = false;
        while !done && pos < s.len()
            invariant
                start <= pos <= s@.len(),
                s@ == self.src(),
                s@.len() <= u32::MAX,
                baseline == indentation(s@, start as int),
                le0 == line_end(s@, start as int),
                ts0 == utrim_start(s@, start as int, le0 as int),
                ordered == (ts0 < le0 && 48 <= s@[ts0 as int] <= 57),
                list_start(s@, start as int),
                done ==> start < pos,
                task == (self.opts().task_lists || self.opts().gfm),
                pos == start ==> items@.len() == 0,
                pos > start ==> items@.len() >= 1 && items@[0].span.start == start,
                !done ==> scan_end(s@, pos as int, start as int, baseline as int, ordered, task)
                    == list_end(s@, start as int, task),
                done ==> pos == list_end(s@, start as int, task),
                forall|k: int|
                    0 <= k < items@.len() ==> item_fits(#[trigger] items@[k], s@, ordered, task)
                        && indentation(s@, items@[k].span.start as int) == baseline && start
                        <= items@[k].span.start < pos,
                forall|k: int|
                    0 <= k < items@.len() - 1 ==> (#[trigger] items@[k]).span.start
                        < items@[k + 1].span.start,
                ordered == ordered_at(s@, start as int),
                !done ==> shape_from(s@, pos as int, start as int, baseline as int, ordered, task, acc)
                    == list_shape(s@, start as int, task),
                done ==> acc == list_shape(s@, start as int, task),
                items_fit(items@, acc, s@, start as int, task),
            decreases s@.len() - pos + if done { 0int } else { 1int },
        {
            let line_start = pos;
            let le = find_line_end(s, line_start);
            let ts = find_trim_start(s, line_start, le);
            proof {
                lemma_line_end_bounds(s@, line_start as int);
                if ts >= le {
                    lemma_utrim_all_ws(s@, line_start as int, le as int);
                }
            }
            if ts >= le {
                done = true;
            } else {
                let indent = calc_indentation(s, line_start);
                if indent < baseline {
                    done = true;
                } else if indent > baseline {
                    if is_list_start(s, line_start) {
                        let (nested, np) = self.parse_list(line_start);
                        let ghost before = items@;
                        let ghost nested_view = nested;
                        let ghost acc0 = acc;
                        match items.pop() {
                            Some(mut last) => {
                                let ghost old_last = last;
                                last.children.push(Node::List(nested));
                                proof {
                                    assert(last.children@[0] == old_last.children@[0]);
                                    assert forall|j: int| 1 <= j < last.children@.len() implies (
                                    #[trigger] last.children@[j]) is List by {
                                        if j < old_last.children@.len() {
                                            assert(last.children@[j] == old_last.children@[j]);
                                        }
                                    }
                                }
                                items.push(last);
                                proof {
                                    assert forall|k: int| 0 <= k < items@.len() - 1 implies items@[k]
                                        == before[k] by {}
                                    acc = attach(acc0, line_start as int);
                                    let n = items@.len() - 1;
                                    assert(acc[n].1 == acc0[n].1.push(line_start as int));
                                    assert(items@[n].children@ == old_last.children@.push(Node::List(nested_view)));
                                    assert forall|k: int, j: int|
                                        0 <= k < items@.len() && 0 <= j < acc[k].1.len() implies (
                                        #[trigger] items@[k].children@[j + 1]) is List && start < acc[k].1[j]
                                        <= s@.len() && list_fits(
                                        items@[k].children@[j + 1]->List_0,
                                        s@,
                                        acc[k].1[j],
                                        task,
                                    ) by {
                                        if k < n {
                                            assert(items@[k] == before[k]);
                                            assert(acc[k] == acc0[k]);
                                        } else if j < acc0[k].1.len() {
                                            assert(items@[k].children@[j + 1] == old_last.children@[j + 1]);
                                            assert(acc[k].1[j] == acc0[k].1[j]);
                                        }
                                    }
                                    assert forall|k: int| 0 <= k < items@.len() implies (#[trigger] items@[k]).span.start
                                        == acc[k].0 && items@[k].children@.len() == 1 + acc[k].1.len() by {
                                        if k < n {
                                            assert(items@[k] == before[k]);
                                        }
                                    }
                                }
                            },
                            None => {},
                        }
                        pos = np;
                    } else {
                        pos = find_next_line(s, line_start);
                    }
                } else {
                    match self.list_item_content(line_start, ordered) {
                        Some((ca, cb, checked)) => {
                            let next = find_next_line(s, line_start);
                            let inline = parse_inline(s, ca, cb);
                            let ghost before = items@;
                            let para = Paragraph {
                                children: inline,
                                span: Span::new(ca as u32, cb as u32),
                            };
                            let mut item_children: Vec<Node> = Vec::new();
                            item_children.push(Node::Paragraph(para));
                            items.push(
                                ListItem {
                                    checked,
                                    spread: false,
                                    children: item_children,
                                    span: Span::new(line_start as u32, next as u32),
                                },
                            );
                            proof {
                                assert forall|k: int| 0 <= k < before.len() implies items@[k]
                                    == before[k] by {}
                                let acc0 = acc;
                                acc = acc.push((line_start as int, Seq::<int>::empty()));
                                assert forall|k: int, j: int|
                                    0 <= k < items@.len() && 0 <= j < acc[k].1.len() implies (
                                    #[trigger] items@[k].children@[j + 1]) is List && start < acc[k].1[j]
                                    <= s@.len() && list_fits(
                                    items@[k].children@[j + 1]->List_0,
                                    s@,
                                    acc[k].1[j],
                                    task,
                                ) by {
                                    assert(k < before.len());
                                    assert(items@[k] == before[k]);
                                    assert(acc[k] == acc0[k]);
                                }
                                assert forall|k: int| 0 <= k < items@.len() implies (#[trigger] items@[k]).span.start
                                    == acc[k].0 && items@[k].children@.len() == 1 + acc[k].1.len() by {
                                    if k < before.len() {
                                        assert(items@[k] == before[k]);
                                    }
                                }
                            }
                            pos = next;
                        },
                        None => {
                            done = true;
                        },
                    }
                }
            }
        }
        let span = Span::new(start as u32, pos as u32);
        (List { ordered, start: first_ordinal, spread: false, children: items, span }, pos)
    }

    /// Parses a paragraph from `start`: lines up to a blank line, the end of
    /// input, or a line that opens another block. A paragraph that trims to
    /// nothing gives no node, and the parse moves past its line.
    fn parse_paragraph(&self, start: usize) -> (r: (Option<Node>, usize))
        requires
            start < self.src().len(),
            self.src().len() <= u32::MAX,
        ensures
            start < r.1 <= self.src().len(),
            !opens_block(self.src(), start as int, self.opts().tables || self.opts().gfm) ==> r.1
                == para_block_end(self.src(), start as int, self.opts().tables || self.opts().gfm),
            !opens_block(self.src(), start as int, self.opts().tables || self.opts().gfm) ==> (
            r.0 is Some <==> para_has_text(
                self.src(),
                start as int,
                self.opts().tables || self.opts().gfm,
            )),
            !opens_block(self.src(), start as int, self.opts().tables || self.opts().gfm) ==> (
            r.0 matches Some(n) ==> n is Paragraph && n->Paragraph_0.span.start == start
                && n->Paragraph_0.span.end == r.1 && nodes_fit(
                n->Paragraph_0.children@,
                inline_shapes(
                    self.src(),
                    para_text(self.src(), start as int, self.opts().tables || self.opts().gfm).0,
                    para_text(self.src(), start as int, self.opts().tables || self.opts().gfm).1,
                ),
                self.src(),
                para_text(self.src(), start as int, self.opts().tables || self.opts().gfm).1 - para_text(
                    self.src(),
                    start as int,
                    self.opts().tables || self.opts().gfm,
                ).0,
            )),
            !opens_block(self.src(), start as int, self.opts().tables || self.opts().gfm)
                && utrim_start(self.src(), start as int, line_end(self.src(), start as int))
                < line_end(self.src(), start as int) ==> r.0 is Some && r.0->Some_0 is Paragraph,
            start == 0 && plain_text(self.src()) && has_nonspace(self.src()) ==> r.1
                == self.src().len() && r.0 is Some && is_plain_paragraph(
                r.0->Some_0,
                self.src(),
                trim_start(self.src(), 0, self.src().len() as int),
                trim_end(
                    self.src(),
                    trim_start(self.src(), 0, self.src().len() as int),
                    self.src().len() as int,
                ),
            ),
    {
        let s = self.source.as_bytes();
        let ghost tables = self.opts().tables || self.opts().gfm;
        let ghost first_line_counts = !opens_block(s@, start as int, tables) && trim_start(
            s@,
            start as int,
            line_end(s@, start as int),
        ) < line_end(s@, start as int);
        proof {
            if start == 0 && plain_text(s@) && has_nonspace(s@) {
                lemma_plain_text_opens_nothing(s@, tables);
            }
            if first_line_counts {
                lemma_line_not_blank(s@, start as int);
            }
        }
        let mut pos = start;
        let mut done = false;
        while !done && pos < s.len()
            invariant
                start <= pos <= s@.len(),
                s@ == self.src(),
                tables == (self.opts().tables || self.opts().gfm),
                first_line_counts == (!opens_block(s@, start as int, tables) && trim_start(
                    s@,
                    start as int,
                    line_end(s@, start as int),
                ) < line_end(s@, start as int)),
                first_line_counts ==> skip_blank(s@, start as int) < s@.len() && s@[skip_blank(
                    s@,
                    start as int,
                )] != 10,
                first_line_counts && pos == start ==> !done,
                first_line_counts && pos > start ==> pos >= next_line(s@, start as int),
                !opens_block(s@, start as int, tables) ==> (!done ==> para_end(s@, pos as int, tables)
                    == para_end(s@, start as int, tables)),
                !opens_block(s@, start as int, tables) ==> (done ==> pos == para_end(
                    s@,
                    start as int,
                    tables,
                )),
            decreases s@.len() - pos + if done { 0int } else { 1int },
        {
            let q = skip_blanks(s, pos);
            if q >= s.len() || s[q] == 10 {
                done = true;
            } else if self.opens_block_at(pos) {
                done = true;
            } else {
                let next = find_next_line(s, pos);
                proof {
                    if first_line_counts && pos > start {
                        lemma_line_end_bounds(s@, start as int);
                    }
                }
                pos = next;
            }
        }
        proof {
            if !opens_block(s@, start as int, tables) && !done {
                assert(pos == s@.len());
            }
        }
        let cs = find_utrim_start(s, start, pos);
        let ce = find_utrim_end(s, cs, pos);
        proof {
            let le = line_end(s@, start as int);
            lemma_line_end_bounds(s@, start as int);
            if !opens_block(s@, start as int, tables) && utrim_start(s@, start as int, le) < le {
                lemma_trim_bounds(s@, start as int, le);
                if trim_start(s@, start as int, le) == le {
                    lemma_utrim_all_ws(s@, start as int, le);
                }
                assert(first_line_counts);
                lemma_utrim_start_longer(s@, start as int, le, pos as int);
                lemma_utrim_end_keeps(s@, cs as int, pos as int);
            }
            if start == 0 && plain_text(s@) && has_nonspace(s@) {
                lemma_utrim_ascii(s@, 0, pos as int);
                lemma_trim_bounds(s@, 0, pos as int);
                lemma_utrim_ascii(s@, cs as int, pos as int);
            }
        }
        if ce <= cs {
            let next = if pos > start {
                pos
            } else {
                find_next_line(s, start)
            };
            return (None, next);
        }
        let children = parse_inline(s, cs, ce);
        proof {
            if start == 0 && plain_text(s@) && has_nonspace(s@) {
                lemma_plain_text_opens_nothing(s@, tables);
                assert(plain_range(s@, cs as int, ce as int)) by {
                    assert forall|k: int| cs <= k < ce implies !is_special(#[trigger] s@[k]) by {
                        assert(s@[k] == 32 || (48 <= s@[k] <= 57) || (65 <= s@[k] <= 90) || (97
                            <= s@[k] <= 122));
                    }
                }
            }
        }
        (
            Some(Node::Paragraph(Paragraph { children, span: Span::new(start as u32, pos as u32) })),
            pos,
        )
    }

    /// Skips blank lines from `p`, then parses one block.
    fn parse_block(&self, p: usize) -> (r: Result<(Option<Node>, usize), ParseError>)
        requires
            p < self.src().len(),
            self.src().len() <= u32::MAX,
            self.nesting_depth == 0,
        ensures
            r is Ok,
            r matches Ok(v) ==> p < v.1 <= self.src().len(),
            r matches Ok(v) ==> skip_blank_lines(self.src(), p as int) >= self.src().len() ==> v.0
                is None && v.1 == skip_blank_lines(self.src(), p as int),
            r matches Ok(v) ==> skip_blank_lines(self.src(), p as int) < self.src().len() ==> v.1
                == block_end(
                self.src(),
                skip_blank_lines(self.src(), p as int),
                self.opts().tables || self.opts().gfm,
                self.opts().task_lists || self.opts().gfm,
            ) && (v.0 is Some <==> gives_node(
                self.src(),
                skip_blank_lines(self.src(), p as int),
                self.opts().tables || self.opts().gfm,
            )),
            r matches Ok(v) ==> skip_blank_lines(self.src(), p as int) < self.src().len()
                ==> block_kind_fits(
                v.0,
                self.src(),
                skip_blank_lines(self.src(), p as int),
                self.opts().tables || self.opts().gfm,
                self.opts().task_lists || self.opts().gfm,
            ),
            r matches Ok(v) ==> (p == 0 && plain_text(self.src()) && has_nonspace(self.src())
                ==> v.1 == self.src().len() && v.0 is Some && is_plain_paragraph(
                v.0->Some_0,
                self.src(),
                trim_start(self.src(), 0, self.src().len() as int),
                trim_end(
                    self.src(),
                    trim_start(self.src(), 0, self.src().len() as int),
                    self.src().len() as int,
                ),
            )),
    {
        let s = self.source.as_bytes();
        let start = self.skip_blank_lines(p);
        if start >= s.len() {
            return Ok((None, start));
        }
        if self.nesting_depth > self.options.max_nesting_depth {
            return Err(
                ParseError::NestingTooDeep {
                    span: Span::new(start as u32, start as u32),
                    max_depth: self.options.max_nesting_depth,
                },
            );
        }
        proof {
            if p == 0 && plain_text(s@) && has_nonspace(s@) {
                lemma_plain_text_opens_nothing(s@, self.opts().tables || self.opts().gfm);
            }
        }
        if is_heading_start(s, start) {
            let (n, q) = self.parse_heading(start);
            Ok((Some(n), q))
        } else if is_thematic_break(s, start) {
            let (n, q) = self.parse_thematic_break(start);
            Ok((Some(n), q))
        } else if is_fence_start(s, start) {
            let (n, q) = self.parse_fenced_code(start);
            Ok((Some(n), q))
        } else if (self.options.tables || self.options.gfm) && is_table_start(s, start) {
            let (n, q) = self.parse_table(start);
            Ok((Some(n), q))
        } else if is_list_start(s, start) {
            let (l, q) = self.parse_list(start);
            Ok((Some(Node::List(l)), q))
        } else {
            Ok(self.parse_paragraph(start))
        }
    }

    /// Parses the whole source into a document. The parser is used up.
    ///
    /// Parsing always succeeds. The document holds one node for each start
    /// in `node_starts`, in order, each the block that the first lookahead
    /// to match there names (`block_kind_fits`); a one-line text of letters,
    /// digits and spaces is one paragraph holding its trimmed text.
    pub fn parse(self) -> (r: Result<Document, ParseError>)
        requires
            self.wf(),
        ensures
            r is Ok,
            r matches Ok(d) ==> d.span.start == 0 && d.span.end == self.src().len(),
            r matches Ok(d) ==> d.children@.len() == node_starts(
                self.src(),
                0,
                self.opts().tables || self.opts().gfm,
                self.opts().task_lists || self.opts().gfm,
            ).len(),
            r matches Ok(d) ==> forall|k: int|
                0 <= k < d.children@.len() ==> block_kind_fits(
                    Some(#[trigger] d.children@[k]),
                    self.src(),
                    node_starts(
                        self.src(),
                        0,
                        self.opts().tables || self.opts().gfm,
                        self.opts().task_lists || self.opts().gfm,
                    )[k],
                    self.opts().tables || self.opts().gfm,
                    self.opts().task_lists || self.opts().gfm,
                ),
            r matches Ok(d) ==> (plain_text(self.src()) && has_nonspace(self.src())
                ==> d.children@.len() == 1 && is_plain_paragraph(
                d.children@[0],
                self.src(),
                trim_start(self.src(), 0, self.src().len() as int),
                trim_end(
                    self.src(),
                    trim_start(self.src(), 0, self.src().len() as int),
                    self.src().len() as int,
                ),
            )),
    {
        let s = self.source.as_bytes();
        let ghost src = s@;
        let ghost tables = self.opts().tables || self.opts().gfm;
        let ghost task = self.opts().task_lists || self.opts().gfm;
        let ghost plain = plain_text(src) && has_nonspace(src);
        let ghost mut starts: Seq<int> = Seq::empty();
        let mut children: Vec<Node> = Vec::new();
        let mut pos: usize = 0;
        while pos < s.len()
            invariant
                pos <= s@.len(),
                s@ == src,
                src == self.src(),
                self.wf() || pos > 0,
                self.nesting_depth == 0,
                src.len() <= u32::MAX,
                tables == (self.opts().tables || self.opts().gfm),
                task == (self.opts().task_lists || self.opts().gfm),
                plain == (plain_text(src) && has_nonspace(src)),
                pos == 0 ==> children@.len() == 0,
                node_starts(src, 0, tables, task) == starts + node_starts(src, pos as int, tables, task),
                children@.len() == starts.len(),
                forall|k: int|
                    0 <= k < children@.len() ==> block_kind_fits(
                        Some(#[trigger] children@[k]),
                        src,
                        starts[k],
                        tables,
                        task,
                    ),
                plain && pos > 0 ==> pos == src.len() && children@.len() == 1 && is_plain_paragraph(
                    children@[0],
                    src,
                    trim_start(src, 0, src.len() as int),
                    trim_end(src, trim_start(src, 0, src.len() as int), src.len() as int),
                ),
            decreases s@.len() - pos,
        {
            let ghost at = pos as int;
            let ghost p1 = skip_blank_lines(src, at);
            match self.parse_block(pos) {
                Ok((n, q)) => {
                    let ghost before = children@;
                    proof {
                        lemma_skip_blank_lines_bounds(src, at);
                    }
                    match n {
                        Some(node) => {
                            children.push(node);
                            proof {
                                assert(node_starts(src, at, tables, task) == seq![p1] + node_starts(
                                    src,
                                    q as int,
                                    tables,
                                    task,
                                ));
                                assert(starts.push(p1) + node_starts(src, q as int, tables, task)
                                    =~= starts + (seq![p1] + node_starts(src, q as int, tables, task)));
                                starts = starts.push(p1);
                                assert forall|k: int| 0 <= k < children@.len() implies block_kind_fits(
                                    Some(#[trigger] children@[k]),
                                    src,
                                    starts[k],
                                    tables,
                                    task,
                                ) by {
                                    if k < before.len() {
                                        assert(children@[k] == before[k]);
                                    }
                                }
                            }
                        },
                        None => {
                            proof {
                                assert(node_starts(src, at, tables, task) == node_starts(
                                    src,
                                    q as int,
                                    tables,
                                    task,
                                ));
                            }
                        },
                    }
                    pos = q;
                },
                Err(e) => {
                    return Err(e);
                },
            }
        }
        proof {
            assert(starts + Seq::<int>::empty() =~= starts);
        }
        Ok(Document { children, span: Span::new(0, s.len() as u32) })
    }
}

} // verus!
