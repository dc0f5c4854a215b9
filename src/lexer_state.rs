//! Line, column and indentation tracking over Markdown text.
use vstd::prelude::*;

use crate::text::chars_of;

verus! {

/// Where a scan of the text stands.
#[derive(Debug, Clone, Copy, Default, PartialEq, Eq, Structural)]
pub struct LexerState {
    /// Current line number (1-indexed).
    pub line: u32,
    /// Current column number (1-indexed).
    pub column: u32,
    /// Whether only indentation has been seen on the current line.
    pub at_line_start: bool,
    /// Indentation of the current line: a space counts one, a tab four.
    pub indent: u32,
}

/// The state after one more character.
pub open spec fn step(st: LexerState, ch: char) -> LexerState {
    if ch == '\n' {
        LexerState { line: (st.line + 1) as u32, column: 1, at_line_start: true, indent: 0 }
    } else {
        let (at, ind) = if st.at_line_start {
            if ch == ' ' {
                (true, (st.indent + 1) as u32)
            } else if ch == '\t' {
                (true, (st.indent + 4) as u32)
            } else {
                (false, st.indent)
            }
        } else {
            (false, st.indent)
        };
        LexerState { line: st.line, column: (st.column + 1) as u32, at_line_start: at, indent: ind }
    }
}

/// The state after all of `s`.
pub open spec fn advanced(st: LexerState, s: Seq<char>) -> LexerState
    decreases s.len(),
{
    if s.len() == 0 {
        st
    } else {
        step(advanced(st, s.drop_last()), s.last())
    }
}

impl LexerState {
    /// The state at the start of a text.
    pub fn new() -> (r: LexerState)
        ensures
            r == (LexerState { line: 1, column: 1, at_line_start: true, indent: 0 }),
    {
        LexerState { line: 1, column: 1, at_line_start: true, indent: 0 }
    }

    /// Moves past `text`.
    pub fn advance(&mut self, text: &str)
        requires
            old(self).line + text@.len() <= u32::MAX,
            old(self).column + text@.len() <= u32::MAX,
            old(self).indent + 4 * text@.len() <= u32::MAX,
        ensures
            *final(self) == advanced(*old(self), text@),
    {
        let chars = chars_of(text);
        let ghost start = *self;
        let mut i: usize = 0;
        while i < chars.len()
            invariant
                i <= chars@.len(),
                chars@ == text@,
                *self == advanced(start, chars@.subrange(0, i as int)),
                self.line <= start.line + i,
                self.column <= start.column + i,
                self.indent <= start.indent + 4 * i,
                start.line + text@.len() <= u32::MAX,
                start.column + text@.len() <= u32::MAX,
                start.indent + 4 * text@.len() <= u32::MAX,
            decreases chars@.len() - i,
        {
            let ch = chars[i];
            proof {
                assert(chars@.subrange(0, i + 1).drop_last() =~= chars@.subrange(0, i as int));
            }
            if ch == '\n' {
                self.line = self.line + 1;
                self.column = 1;
                self.at_line_start = true;
                self.indent = 0;
            } else {
                if self.at_line_start {
                    if ch == ' ' {
                        self.indent = self.indent + 1;
                    } else if ch == '\t' {
                        self.indent = self.indent + 4;
                    } else {
                        self.at_line_start = false;
                    }
                }
                self.column = self.column + 1;
            }
            i = i + 1;
        }
        proof {
            assert(chars@.subrange(0, chars@.len() as int) =~= chars@);
        }
    }
}

} // verus!
