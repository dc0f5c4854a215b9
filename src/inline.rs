//! Inline Markdown: text runs, escapes, emphasis, code spans and links,
//! resolved within one range of the source.
use vstd::prelude::*;

use crate::ast::{Emphasis, InlineCode, Link, Node, Strong, Text};
use crate::scan::{count_run, lemma_run_len_bounds, run_len};
use crate::span::Span;

verus! {

/// Bytes that may open inline markup.
pub open spec fn is_special(b: u8) -> bool {
    b == 42 || b == 95 || b == 96 || b == 91 || b == 33 || b == 126 || b == 92
}

/// `s[lo..hi]` holds no byte that opens inline markup.
pub open spec fn plain_range(s: Seq<u8>, lo: int, hi: int) -> bool {
    forall|k: int| lo <= k < hi ==> !is_special(#[trigger] s[k])
}

/// `n` is a `Text` node holding `s[a..b]` with that span.
pub open spec fn is_text_of(n: Node, s: Seq<u8>, a: int, b: int) -> bool {
    &&& n is Text
    &&& n->Text_0.value@ == s.subrange(a, b)
    &&& n->Text_0.span.start == a
    &&& n->Text_0.span.end == b
}

/// A copy of `s[a..b]`.
pub fn copy_range(s: &[u8], a: usize, b: usize) -> (r: Vec<u8>)
    requires
        a <= b <= s@.len(),
    ensures
        r@ == s@.subrange(a as int, b as int),
{
    let mut r: Vec<u8> = Vec::new();
    let mut i = a;
    while i < b
        invariant
            a <= i <= b,
            b <= s@.len(),
            r@ == s@.subrange(a as int, i as int),
        decreases b - i,
    {
        r.push(s[i]);
        i = i + 1;
        proof {
            assert(r@ =~= s@.subrange(a as int, i as int));
        }
    }
    r
}

/// A `Text` node holding `s[a..b]`.
pub fn text_node(s: &[u8], a: usize, b: usize) -> (r: Node)
    requires
        a <= b <= s@.len(),
        s@.len() <= u32::MAX,
    ensures
        is_text_of(r, s@, a as int, b as int),
{
    Node::Text(Text { value: copy_range(s, a, b), span: Span::new(a as u32, b as u32) })
}

/// Where the text run from `p` ends: at the first markup byte, or `hi`.
pub open spec fn text_stop(s: Seq<u8>, p: int, hi: int) -> int
    decreases hi - p,
{
    if p >= hi {
        hi
    } else if is_special(s[p]) {
        p
    } else {
        text_stop(s, p + 1, hi)
    }
}

/// Where a run of `n` delimiters `c` opened before `q` closes: the start of
/// the next run of `c` of at least `n` bytes; `hi` when there is none.
pub open spec fn emph_close(s: Seq<u8>, q: int, hi: int, c: u8, n: int) -> int
    decreases hi - q,
{
    if q >= hi {
        hi
    } else if s[q] == c {
        let m = run_len(s, q, hi, c);
        if m >= n {
            q
        } else if m <= 0 || q + m > hi {
            hi
        } else {
            emph_close(s, q + m, hi, c, n)
        }
    } else {
        emph_close(s, q + 1, hi, c, n)
    }
}

/// The first backtick at or after `q` not escaped by a backslash (the
/// content starting at `c0`), or `hi`.
pub open spec fn code_close(s: Seq<u8>, q: int, hi: int, c0: int) -> int
    decreases hi - q,
{
    if q >= hi {
        hi
    } else if s[q] == 96 && (q == c0 || s[q - 1] != 92) {
        q
    } else {
        code_close(s, q + 1, hi, c0)
    }
}

/// Where the bracket pair open to `depth` at `q` closes (`open`, `shut`
/// being the bracket bytes), or `hi`.
pub open spec fn pair_close(s: Seq<u8>, q: int, hi: int, depth: int, open: u8, shut: u8) -> int
    decreases hi - q,
{
    if q >= hi {
        hi
    } else {
        let d = if s[q] == open {
            depth + 1
        } else if s[q] == shut {
            depth - 1
        } else {
            depth
        };
        if d <= 0 {
            q
        } else {
            pair_close(s, q + 1, hi, d, open, shut)
        }
    }
}

/// Kinds of inline node, as shapes number them.
pub open spec fn text_kind() -> int {
    0
}

pub open spec fn emphasis_kind() -> int {
    1
}

pub open spec fn strong_kind() -> int {
    2
}

pub open spec fn code_kind() -> int {
    3
}

pub open spec fn link_kind() -> int {
    4
}

/// The node that the markup byte at `pos` opens, as (kind, span start,
/// span end, inner start, inner end, URL start, URL end), and where
/// scanning resumes. Text has its value as inner range.
pub open spec fn special_at(s: Seq<u8>, pos: int, hi: int) -> ((int, int, int, int, int, int, int), int) {
    let c = s[pos];
    if c == 92 && hi - pos > 1 {
        ((text_kind(), pos, pos + 2, pos + 1, pos + 2, 0, 0), pos + 2)
    } else if c == 42 || c == 95 {
        let n = run_len(s, pos, hi, c);
        let close = emph_close(s, pos + n, hi, c, n);
        if close < hi {
            (
                (if n >= 2 {
                    strong_kind()
                } else {
                    emphasis_kind()
                }, pos, close + n, pos + n, close, 0, 0),
                close + n,
            )
        } else {
            ((text_kind(), pos, pos + n, pos, pos + n, 0, 0), pos + n)
        }
    } else if c == 96 {
        let e = code_close(s, pos + 1, hi, pos + 1);
        if e < hi {
            ((code_kind(), pos, e + 1, pos + 1, e, 0, 0), e + 1)
        } else {
            ((text_kind(), pos, hi, pos, hi, 0, 0), hi)
        }
    } else if c == 91 {
        let close = pair_close(s, pos + 1, hi, 1, 91, 93);
        if close < hi && s[close] == 93 && close + 1 < hi && s[close + 1] == 40 {
            let u = pair_close(s, close + 2, hi, 1, 40, 41);
            if u < hi && s[u] == 41 {
                ((link_kind(), pos, u + 1, pos + 1, close, close + 2, u), u + 1)
            } else {
                ((text_kind(), pos, pos + 1, pos, pos + 1, 0, 0), pos + 1)
            }
        } else {
            ((text_kind(), pos, pos + 1, pos, pos + 1, 0, 0), pos + 1)
        }
    } else {
        ((text_kind(), pos, pos + 1, pos, pos + 1, 0, 0), pos + 1)
    }
}

/// The shapes of the inline nodes of `s[pos..hi]`, in order: text runs up
/// to a markup byte, then the node that byte opens.
pub open spec fn inline_shapes(s: Seq<u8>, pos: int, hi: int) -> Seq<(int, int, int, int, int, int, int)>
    decreases hi - pos,
{
    if pos >= hi {
        Seq::empty()
    } else {
        let t = text_stop(s, pos, hi);
        if t > pos && t <= hi {
            seq![(text_kind(), pos, t, pos, t, 0, 0)] + inline_shapes(s, t, hi)
        } else {
            let (sh, next) = special_at(s, pos, hi);
            if next > pos && next <= hi {
                seq![sh] + inline_shapes(s, next, hi)
            } else {
                Seq::empty()
            }
        }
    }
}

/// The children are the inline parse of `s[a..b]` as far as it is stated
/// one level down: nothing for an empty range, one text node for a range
/// without markup.
pub open spec fn inner_fits(nodes: Seq<Node>, s: Seq<u8>, a: int, b: int) -> bool {
    &&& a >= b ==> nodes.len() == 0
    &&& a < b && plain_range(s, a, b) ==> nodes.len() == 1 && is_text_of(nodes[0], s, a, b)
}

/// `n` is the node that shape `sh` describes.
///
/// The children of emphasis, strong emphasis and links are in turn the
/// inline nodes of their inner range, narrower than `m`.
pub open spec fn node_fits(n: Node, sh: (int, int, int, int, int, int, int), s: Seq<u8>, m: int) -> bool
    decreases m, 0int,
{
    let (k, a, b, x, y, u, v) = sh;
    if k == text_kind() {
        n is Text && n->Text_0.value@ == s.subrange(x, y) && n->Text_0.span.start == a
            && n->Text_0.span.end == b
    } else if k == emphasis_kind() {
        n is Emphasis && n->Emphasis_0.span.start == a && n->Emphasis_0.span.end == b
            && inner_fits(n->Emphasis_0.children@, s, x, y) && 0 <= y - x < m && nodes_fit(
            n->Emphasis_0.children@,
            inline_shapes(s, x, y),
            s,
            y - x,
        )
    } else if k == strong_kind() {
        n is Strong && n->Strong_0.span.start == a && n->Strong_0.span.end == b && inner_fits(
            n->Strong_0.children@,
            s,
            x,
            y,
        ) && 0 <= y - x < m && nodes_fit(n->Strong_0.children@, inline_shapes(s, x, y), s, y - x)
    } else if k == code_kind() {
        n is InlineCode && n->InlineCode_0.value@ == s.subrange(x, y) && n->InlineCode_0.span.start
            == a && n->InlineCode_0.span.end == b
    } else {
        n is Link && n->Link_0.url@ == s.subrange(u, v) && n->Link_0.title is None
            && n->Link_0.span.start == a && n->Link_0.span.end == b && inner_fits(
            n->Link_0.children@,
            s,
            x,
            y,
        ) && 0 <= y - x < m && nodes_fit(n->Link_0.children@, inline_shapes(s, x, y), s, y - x)
    }
}

/// The nodes are exactly the shapes, in order, of a range `m` wide.
pub open spec fn nodes_fit(nodes: Seq<Node>, shapes: Seq<(int, int, int, int, int, int, int)>, s: Seq<u8>, m: int) -> bool
    decreases m, 1int,
{
    &&& nodes.len() == shapes.len()
    &&& forall|k: int| 0 <= k < nodes.len() ==> node_fits(#[trigger] nodes[k], shapes[k], s, m)
}

proof fn lemma_text_stop(s: Seq<u8>, p: int, hi: int)
    requires
        p <= hi,
    ensures
        p <= text_stop(s, p, hi) <= hi,
        text_stop(s, p, hi) < hi ==> is_special(s[text_stop(s, p, hi)]),
    decreases hi - p,
{
    if p < hi && !is_special(s[p]) {
        lemma_text_stop(s, p + 1, hi);
    }
}

/// The node that the markup byte at `pos` opens, and where scanning
/// resumes: exactly `special_at`.
fn parse_special(s: &[u8], pos: usize, lo: usize, hi: usize) -> (r: (Node, usize))
    requires
        lo <= pos < hi <= s@.len(),
        s@.len() <= u32::MAX,
        is_special(s@[pos as int]),
    ensures
        node_fits(r.0, special_at(s@, pos as int, hi as int).0, s@, hi - lo),
        r.1 == special_at(s@, pos as int, hi as int).1,
        pos < r.1 <= hi,
    decreases hi - pos, 0int,
{
    let mut children: Vec<Node> = Vec::new();
    let mut pos = pos;
    let ch = s[pos];
    assert(is_special(s@[pos as int]));
    if ch == 92 && hi - pos > 1 {
        children.push(
            Node::Text(
                Text {
                    value: copy_range(s, pos + 1, pos + 2),
                    span: Span::new(pos as u32, (pos + 2) as u32),
                },
            ),
        );
        pos = pos + 2;
    } else if ch == 42 || ch == 95 {
        let count = count_run(s, pos, hi, ch);
        proof {
            lemma_run_len_bounds(s@, pos + 1, hi as int, ch);
        }
        let inner_start = pos + count;
        let mut inner_end = inner_start;
        let mut found = false;
        while inner_end < hi && !found
            invariant
                inner_start <= inner_end <= hi,
                hi <= s@.len(),
                count >= 1,
                found ==> inner_end + count <= hi,
                !found ==> emph_close(s@, inner_end as int, hi as int, ch, count as int)
                    == emph_close(s@, inner_start as int, hi as int, ch, count as int),
                found ==> inner_end == emph_close(
                    s@,
                    inner_start as int,
                    hi as int,
                    ch,
                    count as int,
                ),
            decreases hi - inner_end + if found { 0int } else { 1int },
        {
            if s[inner_end] == ch {
                let end_count = count_run(s, inner_end, hi, ch);
                proof {
                    lemma_run_len_bounds(s@, inner_end + 1, hi as int, ch);
                }
                if end_count >= count {
                    found = true;
                } else {
                    inner_end = inner_end + end_count;
                }
            } else {
                inner_end = inner_end + 1;
            }
        }
        if found {
            let inner = parse_inline(s, inner_start, inner_end);
            let span = Span::new(pos as u32, (inner_end + count) as u32);
            if count >= 2 {
                children.push(Node::Strong(Strong { children: inner, span }));
            } else {
                children.push(Node::Emphasis(Emphasis { children: inner, span }));
            }
            pos = inner_end + count;
        } else {
            children.push(text_node(s, pos, pos + count));
            pos = pos + count;
        }
    } else if ch == 96 {
        let code_start = pos + 1;
        let mut end = code_start;
        while end < hi && !(s[end] == 96 && (end == code_start || s[end - 1] != 92))
            invariant
                code_start <= end <= hi,
                hi <= s@.len(),
                code_close(s@, end as int, hi as int, code_start as int) == code_close(
                    s@,
                    code_start as int,
                    hi as int,
                    code_start as int,
                ),
            decreases hi - end,
        {
            end = end + 1;
        }
        if end < hi {
            children.push(
                Node::InlineCode(
                    InlineCode {
                        value: copy_range(s, code_start, end),
                        span: Span::new(pos as u32, (end + 1) as u32),
                    },
                ),
            );
            pos = end + 1;
        } else {
            children.push(text_node(s, pos, hi));
            pos = hi;
        }
    } else if ch == 91 {
        let link_start = pos;
        let text_start = pos + 1;
        let mut close = text_start;
        let mut depth: usize = 1;
        while close < hi && depth > 0
            invariant
                text_start <= close <= hi,
                hi <= s@.len(),
                s@.len() <= u32::MAX,
                depth <= close - text_start + 1,
                text_start >= 1,
                depth > 0 ==> pair_close(s@, close as int, hi as int, depth as int, 91, 93)
                    == pair_close(s@, text_start as int, hi as int, 1, 91, 93),
                depth == 0 ==> close < hi && close == pair_close(
                    s@,
                    text_start as int,
                    hi as int,
                    1,
                    91,
                    93,
                ),
            decreases hi - close, depth,
        {
            if s[close] == 91 {
                depth = depth + 1;
            } else if s[close] == 93 {
                depth = depth - 1;
            }
            if depth > 0 {
                close = close + 1;
            }
        }
        if close < hi && s[close] == 93 && hi - close > 1 && s[close + 1] == 40 {
            let url_start = close + 2;
            let mut url_end = url_start;
            let mut paren: usize = 1;
            while url_end < hi && paren > 0
                invariant
                    url_start <= url_end <= hi,
                    hi <= s@.len(),
                    s@.len() <= u32::MAX,
                    paren <= url_end - url_start + 1,
                    url_start >= 1,
                    paren > 0 ==> pair_close(s@, url_end as int, hi as int, paren as int, 40, 41)
                        == pair_close(s@, url_start as int, hi as int, 1, 40, 41),
                    paren == 0 ==> url_end < hi && url_end == pair_close(
                        s@,
                        url_start as int,
                        hi as int,
                        1,
                        40,
                        41,
                    ),
                decreases hi - url_end, paren,
            {
                if s[url_end] == 40 {
                    paren = paren + 1;
                } else if s[url_end] == 41 {
                    paren = paren - 1;
                }
                if paren > 0 {
                    url_end = url_end + 1;
                }
            }
            if url_end < hi && s[url_end] == 41 {
                let link_children = parse_inline(s, text_start, close);
                children.push(
                    Node::Link(
                        Link {
                            url: copy_range(s, url_start, url_end),
                            title: None,
                            children: link_children,
                            span: Span::new(link_start as u32, (url_end + 1) as u32),
                        },
                    ),
                );
                pos = url_end + 1;
            } else {
                children.push(text_node(s, link_start, link_start + 1));
                pos = link_start + 1;
            }
        } else {
            children.push(text_node(s, link_start, link_start + 1));
            pos = link_start + 1;
        }
    } else {
        children.push(text_node(s, pos, pos + 1));
        pos = pos + 1;
    }
    proof {
        assert(children@.len() == 1);
    }
    (children.pop().unwrap(), pos)
}

/// Parses `s[lo..hi]` as inline content, with spans as offsets into `s`:
/// the nodes are exactly `inline_shapes(s, lo, hi)`. A range free of markup
/// bytes gives one `Text` node holding all of it; an empty range gives no
/// node.
pub fn parse_inline(s: &[u8], lo: usize, hi: usize) -> (r: Vec<Node>)
    requires
        lo <= hi <= s@.len(),
        s@.len() <= u32::MAX,
    ensures
        nodes_fit(r@, inline_shapes(s@, lo as int, hi as int), s@, hi - lo),
        lo == hi ==> r@.len() == 0,
        lo < hi && plain_range(s@, lo as int, hi as int) ==> r@.len() == 1 && is_text_of(
            r@[0],
            s@,
            lo as int,
            hi as int,
        ),
    decreases hi - lo, 1int,
{
    let mut children: Vec<Node> = Vec::new();
    let ghost mut done: Seq<(int, int, int, int, int, int, int)> = Seq::empty();
    let mut pos = lo;
    while pos < hi
        invariant
            lo <= pos <= hi,
            hi <= s@.len(),
            s@.len() <= u32::MAX,
            pos == lo ==> children@.len() == 0,
            plain_range(s@, lo as int, hi as int) ==> (pos == lo && children@.len() == 0) || (
            pos == hi && children@.len() == 1 && is_text_of(
                children@[0],
                s@,
                lo as int,
                hi as int,
            )),
            inline_shapes(s@, lo as int, hi as int) == done + inline_shapes(s@, pos as int, hi as int),
            nodes_fit(children@, done, s@, hi - lo),
        decreases hi - pos,
    {
        let start = pos;
        while pos < hi && !(s[pos] == 42 || s[pos] == 95 || s[pos] == 96 || s[pos] == 91 || s[pos]
            == 33 || s[pos] == 126 || s[pos] == 92)
            invariant
                start <= pos <= hi,
                hi <= s@.len(),
                plain_range(s@, start as int, pos as int),
                text_stop(s@, pos as int, hi as int) == text_stop(s@, start as int, hi as int),
            decreases hi - pos,
        {
            pos = pos + 1;
        }
        proof {
            lemma_text_stop(s@, start as int, hi as int);
        }
        if pos > start {
            let ghost sh = (text_kind(), start as int, pos as int, start as int, pos as int, 0int, 0int);
            proof {
                assert(inline_shapes(s@, start as int, hi as int) == seq![sh] + inline_shapes(
                    s@,
                    pos as int,
                    hi as int,
                ));
            }
            let ghost before = children@;
            children.push(text_node(s, start, pos));
            proof {
                assert(done.push(sh) + inline_shapes(s@, pos as int, hi as int) =~= done + (seq![sh]
                    + inline_shapes(s@, pos as int, hi as int)));
                done = done.push(sh);
                assert forall|k: int| 0 <= k < children@.len() implies node_fits(
                    #[trigger] children@[k],
                    done[k],
                    s@,
                    hi - lo,
                ) by {
                    if k < before.len() {
                        assert(children@[k] == before[k]);
                    }
                }
            }
        }
        if pos < hi {
            let ghost at = pos as int;
            let ghost before = children@;
            let (node, next) = parse_special(s, pos, lo, hi);
            let ghost sh = special_at(s@, at, hi as int).0;
            children.push(node);
            pos = next;
            proof {
                assert(inline_shapes(s@, at, hi as int) == seq![sh] + inline_shapes(
                    s@,
                    pos as int,
                    hi as int,
                ));
                assert(done.push(sh) + inline_shapes(s@, pos as int, hi as int) =~= done + (seq![sh]
                    + inline_shapes(s@, pos as int, hi as int)));
                done = done.push(sh);
                assert forall|k: int| 0 <= k < children@.len() implies node_fits(
                    #[trigger] children@[k],
                    done[k],
                    s@,
                    hi - lo,
                ) by {
                    if k < before.len() {
                        assert(children@[k] == before[k]);
                    }
                }
            }
        }
    }
    proof {
        assert(inline_shapes(s@, pos as int, hi as int) == Seq::<(int, int, int, int, int, int, int)>::empty());
        assert(done + Seq::<(int, int, int, int, int, int, int)>::empty() =~= done);
    }
    children
}

} // verus!
