//! Laws of the block parser, stated over the shapes of input they are about.
use vstd::prelude::*;

use crate::inline::{is_special, is_text_of, plain_range};
use crate::parser::{block_kind_fits, opens_block, plain_text, skip_blank_lines, trim_hashes};
use crate::scan::{
    heading_start, is_ws, lemma_line_end_bounds, lemma_trim_bounds, line_end, run_len, skip_blank,
    thematic_break_line, trim_end, trim_start, table_start, utrim_end, utrim_start,
};

verus! {

/// `n` copies of `#`, a space, then `text`.
pub open spec fn hashes_then_text(n: nat, text: Seq<u8>) -> Seq<u8> {
    Seq::new(n, |i: int| 35u8) + seq![32u8] + text
}

proof fn lemma_hash_run(s: Seq<u8>, n: int, k: int)
    requires
        0 <= k <= n < s.len(),
        forall|i: int| 0 <= i < n ==> s[i] == 35,
        s[n] != 35,
    ensures
        run_len(s, k, s.len() as int, 35) == n - k,
    decreases n - k,
{
    if k < n {
        lemma_hash_run(s, n, k + 1);
    }
}

/// One to six `#` and a space open a heading whose depth is the number of
/// `#`; the document's first block is then that heading.
pub proof fn heading_depth_law(n: nat, text: Seq<u8>)
    requires
        1 <= n <= 6,
    ensures
        skip_blank_lines(hashes_then_text(n, text), 0) == 0,
        heading_start(hashes_then_text(n, text), 0),
        run_len(hashes_then_text(n, text), 0, hashes_then_text(n, text).len() as int, 35) == n,
        forall|b: Option<crate::ast::Node>, tables: bool, task: bool|
            #[trigger] block_kind_fits(b, hashes_then_text(n, text), 0, tables, task) ==> b is Some
                && b->Some_0 is Heading && b->Some_0->Heading_0.depth == n,
{
    let s = hashes_then_text(n, text);
    assert(s[n as int] == 32);
    assert(forall|i: int| 0 <= i < n ==> s[i] == 35);
    lemma_hash_run(s, n as int, 0);
}

/// Seven `#` do not open a heading: a one-line input of that shape is a
/// paragraph.
pub proof fn seven_hashes_law(text: Seq<u8>)
    requires
        forall|i: int| 0 <= i < text.len() ==> text[i] != 10,
    ensures
        !heading_start(hashes_then_text(7, text), 0),
        skip_blank_lines(hashes_then_text(7, text), 0) == 0,
        forall|b: Option<crate::ast::Node>, tables: bool, task: bool|
            #[trigger] block_kind_fits(b, hashes_then_text(7, text), 0, tables, task) ==> b is Some
                && b->Some_0 is Paragraph,
{
    let s = hashes_then_text(7, text);
    assert(s[7] == 32);
    assert(forall|i: int| 0 <= i < 7 ==> s[i] == 35);
    lemma_hash_run(s, 7, 0);
    lemma_line_end_bounds(s, 0);
    let le = line_end(s, 0);
    if le < s.len() {
        assert(s[le] == 10);
        if le >= 8 {
            assert(s[le] == text[le - 8]);
        }
    }
    assert(le == s.len());
    lemma_trim_bounds(s, 0, le);
    assert(trim_start(s, 0, le) == 0);
    assert(!thematic_break_line(s, 0));
    assert(!table_start(s, 0));
    assert(forall|tables: bool| !opens_block(s, 0, tables));
}

/// A line that is a thematic break never opens a heading, so the first
/// block of a document that starts with one is a thematic break.
pub proof fn thematic_break_law(s: Seq<u8>, p: int)
    requires
        0 <= p <= s.len(),
        thematic_break_line(s, p),
    ensures
        !heading_start(s, p),
        forall|b: Option<crate::ast::Node>, tables: bool, task: bool|
            #[trigger] block_kind_fits(b, s, p, tables, task) ==> b is Some && b->Some_0 is ThematicBreak,
{
    let le = line_end(s, p);
    lemma_line_end_bounds(s, p);
    lemma_trim_bounds(s, p, le);
    let ts = trim_start(s, p, le);
    if ts > p {
        assert(s[p] != 35);
    } else {
        assert(s[p] != 35);
    }
}

/// A trimmed line that holds two different rule bytes is no thematic break.
pub proof fn mixed_rule_law(s: Seq<u8>, p: int, i: int, j: int)
    requires
        0 <= p <= s.len(),
        utrim_start(s, p, line_end(s, p)) <= i < utrim_end(
            s,
            utrim_start(s, p, line_end(s, p)),
            line_end(s, p),
        ),
        utrim_start(s, p, line_end(s, p)) <= j < utrim_end(
            s,
            utrim_start(s, p, line_end(s, p)),
            line_end(s, p),
        ),
        s[i] == 45 || s[i] == 42 || s[i] == 95,
        s[j] == 45 || s[j] == 42 || s[j] == 95,
        s[i] != s[j],
    ensures
        !thematic_break_line(s, p),
{
}

/// A plain word-like text after one to six `#` and a space becomes the
/// heading's single text child.
pub proof fn heading_text_law(n: nat, text: Seq<u8>)
    requires
        1 <= n <= 6,
        text.len() > 0,
        plain_text(text),
        text[0] != 32,
        text.last() != 32,
    ensures
        forall|b: Option<crate::ast::Node>, tables: bool, task: bool|
            #[trigger] block_kind_fits(b, hashes_then_text(n, text), 0, tables, task) ==> b is Some
                && b->Some_0 is Heading && b->Some_0->Heading_0.depth == n
                && b->Some_0->Heading_0.children@.len() == 1 && is_text_of(
                b->Some_0->Heading_0.children@[0],
                hashes_then_text(n, text),
                n + 1 as int,
                hashes_then_text(n, text).len() as int,
            ),
{
    heading_depth_law(n, text);
    let s = hashes_then_text(n, text);
    let len = s.len() as int;
    let c = n as int + 1;
    assert forall|k: int| c <= k < len implies s[k] == text[k - c] by {}
    assert(s[n as int] == 32);
    assert(s[c] == text[0]);
    assert(s[len - 1] == text.last());
    assert(skip_blank(s, c) == c);
    assert(skip_blank(s, n as int) == c);
    lemma_line_end_bounds(s, c);
    if line_end(s, c) < len {
        let le = line_end(s, c);
        assert(s[le] == text[le - c]);
    }
    assert(line_end(s, c) == len);
    assert(!is_ws(s[len - 1]));
    assert(trim_end(s, c, len) == len);
    assert(trim_hashes(s, c, len) == len);
    assert(plain_range(s, c, len)) by {
        assert forall|k: int| c <= k < len implies !is_special(#[trigger] s[k]) by {
            assert(s[k] == text[k - c]);
        }
    }
}

} // verus!
