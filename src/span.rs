use vstd::prelude::*;
use vstd::string::*;
use vstd::utf8::*;

verus! {

/// A half-open byte range `[start, end)` into a source text.
#[derive(Debug, Clone, Copy, PartialEq, Eq, Structural, Hash, Default)]
pub struct Span {
    /// Start offset (inclusive), zero-indexed.
    pub start: u32,
    /// End offset (exclusive), zero-indexed.
    pub end: u32,
}

impl Span {
    /// A span is well formed when it does not run backwards.
    pub open spec fn wf(&self) -> bool {
        self.start <= self.end
    }

    /// The span lies inside a text of `len` bytes.
    pub open spec fn within(&self, len: int) -> bool {
        self.start <= self.end && self.end <= len
    }

    /// Creates a new span.
    pub fn new(start: u32, end: u32) -> (r: Span)
        requires
            start <= end,
        ensures
            r.start == start,
            r.end == end,
            r.wf(),
    {
        Span { start, end }
    }

    /// The empty span at offset 0.
    pub fn empty() -> (r: Span)
        ensures
            r.start == 0,
            r.end == 0,
    {
        Span { start: 0, end: 0 }
    }

    /// Number of bytes covered.
    pub fn len(&self) -> (r: u32)
        requires
            self.wf(),
        ensures
            r == self.end - self.start,
    {
        self.end - self.start
    }

    /// True when the span covers no byte.
    pub fn is_empty(&self) -> (r: bool)
        ensures
            r == (self.start == self.end),
    {
        self.start == self.end
    }

    /// The smallest span covering both spans: least start, greatest end.
    pub fn merge(self, other: Span) -> (r: Span)
        ensures
            r.start == if self.start < other.start { self.start } else { other.start },
            r.end == if self.end > other.end { self.end } else { other.end },
            r.start <= self.start && r.start <= other.start,
            r.end >= self.end && r.end >= other.end,
            self.wf() && other.wf() ==> r.wf(),
    {
        let start = if self.start < other.start { self.start } else { other.start };
        let end = if self.end > other.end { self.end } else { other.end };
        Span { start, end }
    }

    /// True when `offset` lies in `[start, end)`.
    pub fn contains(&self, offset: u32) -> (r: bool)
        ensures
            r == (self.start <= offset && offset < self.end),
    {
        self.start <= offset && offset < self.end
    }

    /// True when `other` lies entirely inside this span.
    pub fn contains_span(&self, other: &Span) -> (r: bool)
        ensures
            r == (self.start <= other.start && other.end <= self.end),
    {
        self.start <= other.start && other.end <= self.end
    }

    /// The part of `source` that the span covers.
    pub fn source_text<'a>(&self, source: &'a str) -> (r: &'a str)
        requires
            self.within(source.spec_bytes().len() as int),
            is_char_boundary(source.spec_bytes(), self.start as int),
            is_char_boundary(source.spec_bytes(), self.end as int),
        ensures
            r.spec_bytes() == source.spec_bytes().subrange(self.start as int, self.end as int),
    {
        let (head, _) = source.split_at(self.end as usize);
        proof {
            assert(head.spec_bytes() == source.spec_bytes().subrange(0, self.end as int));
            encode_utf8_valid_utf8(source@);
            encode_utf8_valid_utf8(head@);
            if self.start < self.end {
                is_char_boundary_iff_not_is_continuation_byte(source.spec_bytes(), self.start as int);
                is_char_boundary_iff_not_is_continuation_byte(head.spec_bytes(), self.start as int);
            } else {
                is_char_boundary_start_end_of_seq(head.spec_bytes());
            }
        }
        let (_, r) = head.split_at(self.start as usize);
        proof {
            assert(r.spec_bytes() =~= source.spec_bytes().subrange(self.start as int, self.end as int));
        }
        r
    }
}

/// A human-facing position: 1-indexed line and column, 0-indexed byte offset.
#[derive(Debug, Clone, Copy, PartialEq, Eq, Structural, Hash, Default)]
pub struct Position {
    /// 1-indexed line number.
    pub line: u32,
    /// 1-indexed column number.
    pub column: u32,
    /// 0-indexed byte offset.
    pub offset: u32,
}

impl Position {
    /// Creates a new position.
    pub fn new(line: u32, column: u32, offset: u32) -> (r: Position)
        ensures
            r.line == line,
            r.column == column,
            r.offset == offset,
    {
        Position { line, column, offset }
    }
}

} // verus!
