//! Tokens of a MessageFormat 2 message. Text is literal up to `{` (or `}}`
//! inside a quoted pattern); inside `{ }` come variables, functions,
//! options and literals; a leading `.` starts declarations.
use vstd::prelude::*;

use crate::text::{chars_of, string_of};

verus! {

/// One token.
#[derive(Debug, Clone, PartialEq)]
pub enum Token {
    DotInput,
    DotLocal,
    DotMatch,
    /// `$name`, without the `$`.
    Variable(String),
    /// `:name`, without the `:`.
    Function(String),
    Name(String),
    Number(String),
    /// `|...|`, without the bars.
    QuotedLiteral(String),
    Text(String),
    OpenBrace,
    CloseBrace,
    DoubleOpenBrace,
    DoubleCloseBrace,
    Equals,
    Star,
    Newline,
}

/// A token and the byte range it came from.
#[derive(Debug, PartialEq)]
pub struct SpannedToken {
    pub token: Token,
    pub span: std::ops::Range<usize>,
}

/// `tokens` is `before`, then a `Text` token holding `text` when `text` is
/// not empty.
pub open spec fn ends_with_text(tokens: Seq<SpannedToken>, before: Seq<SpannedToken>, text: Seq<char>) -> bool {
    if text.len() == 0 {
        tokens == before
    } else {
        &&& tokens.len() == before.len() + 1
        &&& tokens.subrange(0, before.len() as int) == before
        &&& tokens.last().token is Text
        &&& tokens.last().token->Text_0@ == text
    }
}

/// Space or tab.
pub open spec fn is_space(c: char) -> bool {
    c == ' ' || c == '\t'
}

/// Index of the first character at or after `i` that is not a space, tab
/// or line break.
pub open spec fn skip_layout(s: Seq<char>, i: int) -> int
    decreases s.len() - i,
{
    if 0 <= i < s.len() && (is_space(s[i]) || s[i] == '\n' || s[i] == '\r') {
        skip_layout(s, i + 1)
    } else {
        i
    }
}

fn is_ascii_alpha(c: char) -> (r: bool) {
    ('a' <= c && c <= 'z') || ('A' <= c && c <= 'Z')
}

fn is_ascii_digit(c: char) -> (r: bool) {
    '0' <= c && c <= '9'
}

fn is_name_char(c: char) -> (r: bool) {
    is_ascii_alpha(c) || is_ascii_digit(c) || c == '_'
}

/// Bytes that `c` takes in UTF-8.
fn utf8_len(c: char) -> (r: usize)
    ensures
        1 <= r <= 4,
{
    if (c as u32) < 0x80 {
        1
    } else if (c as u32) < 0x800 {
        2
    } else if (c as u32) < 0x10000 {
        3
    } else {
        4
    }
}

struct Scanner {
    chars: Vec<char>,
    offsets: Vec<usize>,
    pos: usize,
    tokens: Vec<SpannedToken>,
}

impl Scanner {
    spec fn wf(&self) -> bool {
        &&& self.offsets@.len() == self.chars@.len() + 1
        &&& self.chars@.len() < usize::MAX
        &&& self.pos <= self.chars@.len()
        &&& forall|i: int, j: int|
            0 <= i <= j < self.offsets@.len() ==> self.offsets@[i] <= self.offsets@[j]
        &&& forall|k: int|
            0 <= k < self.tokens@.len() ==> (#[trigger] self.tokens@[k]).span.start
                <= self.tokens@[k].span.end
    }

    spec fn same_text(&self, other: &Scanner) -> bool {
        self.chars@ == other.chars@ && self.offsets@ == other.offsets@
    }

    fn new(source: &str) -> (r: Scanner)
        ensures
            r.wf(),
            r.chars@ == source@,
            r.pos == 0,
            r.tokens@.len() == 0,
    {
        let chars = chars_of(source);
        let mut offsets: Vec<usize> = Vec::new();
        let n = chars.len();
        offsets.push(0);
        let mut i: usize = 0;
        let mut off: usize = 0;
        while i < n
            invariant
                n == chars@.len(),
                i <= chars@.len(),
                offsets@.len() == i + 1,
                offsets@[i as int] == off,
                forall|a: int, b: int| 0 <= a <= b < offsets@.len() ==> offsets@[a] <= offsets@[b],
            decreases chars@.len() - i,
        {
            off = off.saturating_add(utf8_len(chars[i]));
            offsets.push(off);
            i = i + 1;
        }
        let m = offsets.len();
        assert(m == n + 1);
        Scanner { chars, offsets, pos: 0, tokens: Vec::new() }
    }

    fn peek(&self) -> (r: Option<char>)
        requires
            self.wf(),
        ensures
            r == if self.pos < self.chars@.len() {
                Some(self.chars@[self.pos as int])
            } else {
                None
            },
    {
        if self.pos < self.chars.len() {
            Some(self.chars[self.pos])
        } else {
            None
        }
    }

    fn peek_is(&self, k: usize, c: char) -> (r: bool)
        requires
            self.wf(),
        ensures
            r == (k < self.chars@.len() - self.pos && self.chars@[self.pos + k] == c),
    {
        k < self.chars.len() - self.pos && self.chars[self.pos + k] == c
    }

    fn at_end(&self) -> (r: bool)
        requires
            self.wf(),
        ensures
            r == (self.pos >= self.chars@.len()),
    {
        self.pos >= self.chars.len()
    }

    /// The text continues with `word` and no letter or digit follows it.
    fn starts_with_word(&self, word: &Vec<char>) -> (r: bool)
        requires
            self.wf(),
        ensures
            r ==> word@.len() <= self.chars@.len() - self.pos,
    {
        let n = word.len();
        if n > self.chars.len() - self.pos {
            return false;
        }
        let mut i: usize = 0;
        while i < n
            invariant
                i <= n,
                n == word@.len(),
                n <= self.chars@.len() - self.pos,
                self.wf(),
            decreases n - i,
        {
            if self.chars[self.pos + i] != word[i] {
                return false;
            }
            i = i + 1;
        }
        let after = self.pos + n;
        !(after < self.chars.len() && (is_ascii_alpha(self.chars[after]) || is_ascii_digit(
            self.chars[after],
        )))
    }

    fn push_token(&mut self, token: Token, start: usize, end: usize)
        requires
            old(self).wf(),
            start <= end <= old(self).chars@.len(),
        ensures
            final(self).wf(),
            final(self).same_text(old(self)),
            final(self).pos == old(self).pos,
            final(self).tokens@.len() == old(self).tokens@.len() + 1,
            final(self).tokens@.last().token == token,
            forall|k: int| 0 <= k < old(self).tokens@.len() ==> final(self).tokens@[k] == old(self).tokens@[k],
    {
        let span = std::ops::Range { start: self.offsets[start], end: self.offsets[end] };
        self.tokens.push(SpannedToken { token, span });
    }

    fn emit(&mut self, token: Token, len: usize)
        requires
            old(self).wf(),
            len <= old(self).chars@.len() - old(self).pos,
        ensures
            final(self).wf(),
            final(self).same_text(old(self)),
            final(self).pos == old(self).pos + len,
            final(self).tokens@.len() == old(self).tokens@.len() + 1,
    {
        let start = self.pos;
        self.push_token(token, start, start + len);
        self.pos = start + len;
    }

    fn skip_whitespace(&mut self)
        requires
            old(self).wf(),
        ensures
            final(self).wf(),
            final(self).same_text(old(self)),
            final(self).tokens@ == old(self).tokens@,
            final(self).pos >= old(self).pos,
    {
        while self.pos < self.chars.len() && (self.chars[self.pos] == ' ' || self.chars[self.pos]
            == '\t')
            invariant
                self.wf(),
                self.same_text(old(self)),
                self.tokens@ == old(self).tokens@,
                self.pos >= old(self).pos,
            decreases self.chars@.len() - self.pos,
        {
            self.pos = self.pos + 1;
        }
    }

    fn skip_layout_with_tokens(&mut self)
        requires
            old(self).wf(),
        ensures
            final(self).wf(),
            final(self).same_text(old(self)),
            final(self).pos == skip_layout(old(self).chars@, old(self).pos as int),
            final(self).pos >= old(self).pos,
            (forall|k: int|
                old(self).pos <= k < final(self).pos ==> is_space(#[trigger] old(self).chars@[k]))
                ==> final(self).tokens@ == old(self).tokens@,
    {
        loop
            invariant
                self.wf(),
                self.same_text(old(self)),
                self.pos >= old(self).pos,
                skip_layout(self.chars@, self.pos as int) == skip_layout(
                    old(self).chars@,
                    old(self).pos as int,
                ),
                (forall|k: int|
                    old(self).pos <= k < self.pos ==> is_space(#[trigger] old(self).chars@[k]))
                    ==> self.tokens@ == old(self).tokens@,
            ensures
                self.wf(),
                self.same_text(old(self)),
                self.pos == skip_layout(old(self).chars@, old(self).pos as int),
                self.pos >= old(self).pos,
                (forall|k: int|
                    old(self).pos <= k < self.pos ==> is_space(#[trigger] old(self).chars@[k]))
                    ==> self.tokens@ == old(self).tokens@,
            decreases self.chars@.len() - self.pos,
        {
            if self.pos < self.chars.len() && (self.chars[self.pos] == ' ' || self.chars[self.pos]
                == '\t') {
                self.pos = self.pos + 1;
            } else if self.pos < self.chars.len() && self.chars[self.pos] == '\n' {
                self.emit(Token::Newline, 1);
            } else if self.pos < self.chars.len() && self.chars[self.pos] == '\r' {
                if self.peek_is(1, '\n') {
                    self.emit(Token::Newline, 2);
                    proof {
                        assert(skip_layout(self.chars@, self.pos - 1) == skip_layout(
                            self.chars@,
                            self.pos as int,
                        ));
                    }
                } else {
                    self.emit(Token::Newline, 1);
                }
            } else {
                break;
            }
        }
    }

    /// A run of name characters starting at the current position.
    fn name_end(&self) -> (r: usize)
        requires
            self.wf(),
        ensures
            self.pos <= r <= self.chars@.len(),
    {
        let mut i = self.pos;
        while i < self.chars.len() && is_name_char(self.chars[i])
            invariant
                self.pos <= i <= self.chars@.len(),
            decreases self.chars@.len() - i,
        {
            i = i + 1;
        }
        i
    }

    /// `$name` or `:name`: the sigil, then one or more name characters.
    fn scan_sigil_name(&mut self, sigil: char, is_variable: bool) -> (r: Result<(), usize>)
        requires
            old(self).wf(),
        ensures
            final(self).wf(),
            final(self).same_text(old(self)),
            final(self).pos >= old(self).pos,
            r is Ok ==> final(self).pos > old(self).pos,
    {
        if !self.peek_is(0, sigil) {
            return Err(self.offsets[self.pos]);
        }
        let start = self.pos;
        self.pos = self.pos + 1;
        let name_start = self.pos;
        let end = self.name_end();
        if end == name_start {
            return Err(self.offsets[end]);
        }
        let name = string_of(&self.chars, name_start, end);
        let token = if is_variable {
            Token::Variable(name)
        } else {
            Token::Function(name)
        };
        self.push_token(token, start, end);
        self.pos = end;
        Ok(())
    }

    fn scan_variable_token(&mut self) -> (r: Result<(), usize>)
        requires
            old(self).wf(),
        ensures
            final(self).wf(),
            final(self).same_text(old(self)),
            final(self).pos >= old(self).pos,
            r is Ok ==> final(self).pos > old(self).pos,
    {
        self.scan_sigil_name('$', true)
    }

    fn scan_function_token(&mut self) -> (r: Result<(), usize>)
        requires
            old(self).wf(),
        ensures
            final(self).wf(),
            final(self).same_text(old(self)),
            final(self).pos >= old(self).pos,
            r is Ok ==> final(self).pos > old(self).pos,
    {
        self.scan_sigil_name(':', false)
    }

    fn scan_name(&mut self) -> (r: Result<(), usize>)
        requires
            old(self).wf(),
        ensures
            final(self).wf(),
            final(self).same_text(old(self)),
            final(self).pos >= old(self).pos,
            r is Ok ==> final(self).pos > old(self).pos,
    {
        let start = self.pos;
        let end = self.name_end();
        if end == start {
            return Err(self.offsets[start]);
        }
        let name = string_of(&self.chars, start, end);
        self.push_token(Token::Name(name), start, end);
        self.pos = end;
        Ok(())
    }

    fn digits_end(&self, from: usize) -> (r: usize)
        requires
            self.wf(),
            from <= self.chars@.len(),
        ensures
            from <= r <= self.chars@.len(),
    {
        let mut i = from;
        while i < self.chars.len() && is_ascii_digit(self.chars[i])
            invariant
                from <= i <= self.chars@.len(),
            decreases self.chars@.len() - i,
        {
            i = i + 1;
        }
        i
    }

    /// An optional `-`, digits, and an optional `.` with digits.
    fn scan_number(&mut self) -> (r: Result<(), usize>)
        requires
            old(self).wf(),
        ensures
            final(self).wf(),
            final(self).same_text(old(self)),
            final(self).pos >= old(self).pos,
            r is Ok ==> final(self).pos > old(self).pos,
    {
        let start = self.pos;
        let mut i = start;
        if self.peek_is(0, '-') {
            i = i + 1;
        }
        i = self.digits_end(i);
        if i < self.chars.len() && self.chars[i] == '.' && i + 1 < self.chars.len()
            && is_ascii_digit(self.chars[i + 1]) {
            i = self.digits_end(i + 1);
        }
        if i == start || (i == start + 1 && self.chars[start] == '-') {
            return Err(self.offsets[i]);
        }
        let num = string_of(&self.chars, start, i);
        self.push_token(Token::Number(num), start, i);
        self.pos = i;
        Ok(())
    }

    /// `|...|`.
    fn scan_quoted_literal(&mut self) -> (r: Result<(), usize>)
        requires
            old(self).wf(),
        ensures
            final(self).wf(),
            final(self).same_text(old(self)),
            final(self).pos >= old(self).pos,
            r is Ok ==> final(self).pos > old(self).pos,
    {
        if !self.peek_is(0, '|') {
            return Err(self.offsets[self.pos]);
        }
        let start = self.pos;
        let content_start = start + 1;
        let mut i = content_start;
        while i < self.chars.len() && self.chars[i] != '|'
            invariant
                content_start <= i <= self.chars@.len(),
                self.wf(),
            decreases self.chars@.len() - i,
        {
            i = i + 1;
        }
        if i >= self.chars.len() {
            return Err(self.offsets[i]);
        }
        let content = string_of(&self.chars, content_start, i);
        self.push_token(Token::QuotedLiteral(content), start, i + 1);
        self.pos = i + 1;
        Ok(())
    }

    /// `name` with an optional `= value`.
    fn scan_option(&mut self) -> (r: Result<(), usize>)
        requires
            old(self).wf(),
        ensures
            final(self).wf(),
            final(self).same_text(old(self)),
            final(self).pos >= old(self).pos,
            r is Ok ==> final(self).pos > old(self).pos,
    {
        self.scan_name()?;
        self.skip_whitespace();
        if self.peek_is(0, '=') {
            self.emit(Token::Equals, 1);
            self.skip_whitespace();
            match self.peek() {
                Some(c) => {
                    if c == '$' {
                        self.scan_variable_token()?;
                    } else if is_ascii_digit(c) || c == '-' {
                        self.scan_number()?;
                    } else if c == '|' {
                        self.scan_quoted_literal()?;
                    } else if is_ascii_alpha(c) || c == '_' {
                        self.scan_name()?;
                    } else {
                        return Err(self.offsets[self.pos]);
                    }
                },
                None => {
                    return Err(self.offsets[self.pos]);
                },
            }
        }
        Ok(())
    }

    /// `{ operand :function options }`.
    fn scan_expression(&mut self) -> (r: Result<(), usize>)
        requires
            old(self).wf(),
        ensures
            final(self).wf(),
            final(self).same_text(old(self)),
            final(self).pos >= old(self).pos,
            r is Ok ==> final(self).pos > old(self).pos,
    {
        if !self.peek_is(0, '{') {
            return Err(self.offsets[self.pos]);
        }
        self.emit(Token::OpenBrace, 1);
        self.skip_whitespace();
        match self.peek() {
            Some(c) => {
                if c == '$' {
                    self.scan_variable_token()?;
                } else if is_ascii_digit(c) || c == '-' {
                    self.scan_number()?;
                } else if c == '|' {
                    self.scan_quoted_literal()?;
                }
            },
            None => {},
        }
        self.skip_whitespace();
        if self.peek_is(0, ':') {
            self.scan_function_token()?;
            self.skip_whitespace();
            let mut done = false;
            while !done && self.pos < self.chars.len() && self.chars[self.pos] != '}'
                invariant
                    self.wf(),
                    self.same_text(old(self)),
                    self.pos > old(self).pos,
                decreases self.chars@.len() - self.pos + if done { 0int } else { 1int },
            {
                let c = self.chars[self.pos];
                if is_ascii_alpha(c) || c == '_' {
                    self.scan_option()?;
                    self.skip_whitespace();
                } else {
                    done = true;
                }
            }
        }
        self.skip_whitespace();
        if !self.peek_is(0, '}') {
            return Err(self.offsets[self.pos]);
        }
        self.emit(Token::CloseBrace, 1);
        Ok(())
    }

    /// `{{ pattern }}`.
    fn scan_quoted_pattern(&mut self) -> (r: Result<(), usize>)
        requires
            old(self).wf(),
        ensures
            final(self).wf(),
            final(self).same_text(old(self)),
            final(self).pos >= old(self).pos,
            r is Ok ==> final(self).pos > old(self).pos,
    {
        if !(self.peek_is(0, '{') && self.peek_is(1, '{')) {
            return Err(self.offsets[self.pos]);
        }
        self.emit(Token::DoubleOpenBrace, 2);
        let mut text_start = self.pos;
        while self.pos < self.chars.len()
            invariant
                self.wf(),
                self.same_text(old(self)),
                self.pos > old(self).pos,
                text_start <= self.pos,
            decreases self.chars@.len() - self.pos,
        {
            if self.peek_is(0, '}') && self.peek_is(1, '}') {
                if self.pos > text_start {
                    let text = string_of(&self.chars, text_start, self.pos);
                    let p = self.pos;
                    self.push_token(Token::Text(text), text_start, p);
                }
                self.emit(Token::DoubleCloseBrace, 2);
                return Ok(());
            } else if self.peek_is(0, '{') {
                if self.pos > text_start {
                    let text = string_of(&self.chars, text_start, self.pos);
                    let p = self.pos;
                    self.push_token(Token::Text(text), text_start, p);
                }
                self.scan_expression()?;
                text_start = self.pos;
            } else {
                self.pos = self.pos + 1;
            }
        }
        Err(self.offsets[self.pos])
    }

    /// Text and `{...}` placeholders up to the end of input.
    fn scan_simple_pattern(&mut self) -> (r: Result<(), usize>)
        requires
            old(self).wf(),
        ensures
            final(self).wf(),
            final(self).same_text(old(self)),
            (forall|k: int|
                old(self).pos <= k < old(self).chars@.len() ==> #[trigger] old(self).chars@[k]
                    != '{') ==> r is Ok && ends_with_text(
                final(self).tokens@,
                old(self).tokens@,
                old(self).chars@.subrange(old(self).pos as int, old(self).chars@.len() as int),
            ),
    {
        let ghost plain = forall|k: int|
            old(self).pos <= k < old(self).chars@.len() ==> #[trigger] old(self).chars@[k] != '{';
        let mut text_start = self.pos;
        while self.pos < self.chars.len()
            invariant
                self.wf(),
                self.same_text(old(self)),
                text_start <= self.pos,
                plain == forall|k: int|
                    old(self).pos <= k < old(self).chars@.len() ==> #[trigger] old(self).chars@[k]
                        != '{',
                plain ==> text_start == old(self).pos && self.tokens@ == old(self).tokens@,
            decreases self.chars@.len() - self.pos,
        {
            if self.peek_is(0, '{') {
                if self.pos > text_start {
                    let text = string_of(&self.chars, text_start, self.pos);
                    let p = self.pos;
                    self.push_token(Token::Text(text), text_start, p);
                }
                self.scan_expression()?;
                text_start = self.pos;
            } else {
                self.pos = self.pos + 1;
            }
        }
        if self.pos > text_start {
            let text = string_of(&self.chars, text_start, self.pos);
            let p = self.pos;
            let ghost before = self.tokens@;
            self.push_token(Token::Text(text), text_start, p);
            proof {
                assert(self.tokens@.subrange(0, before.len() as int) =~= before);
            }
        }
        Ok(())
    }

    /// Variant keys up to `{{`, then the quoted pattern.
    fn scan_variant(&mut self) -> (r: Result<(), usize>)
        requires
            old(self).wf(),
        ensures
            final(self).wf(),
            final(self).same_text(old(self)),
            final(self).pos >= old(self).pos,
            r is Ok ==> final(self).pos > old(self).pos || final(self).pos == final(self).chars@.len(),
    {
        let mut at_pattern = false;
        while !at_pattern
            invariant
                self.wf(),
                self.same_text(old(self)),
                self.pos >= old(self).pos,
                at_pattern ==> self.peek_is_spec(0, '{') && self.peek_is_spec(1, '{'),
            decreases self.chars@.len() - self.pos + if at_pattern { 0int } else { 1int },
        {
            self.skip_whitespace();
            if self.peek_is(0, '{') && self.peek_is(1, '{') {
                at_pattern = true;
            } else {
                match self.peek() {
                    None => {
                        return Ok(());
                    },
                    Some(c) => {
                        if c == '*' {
                            self.emit(Token::Star, 1);
                        } else if is_ascii_alpha(c) || c == '_' {
                            self.scan_name()?;
                        } else if is_ascii_digit(c) || c == '-' {
                            self.scan_number()?;
                        } else {
                            return Err(self.offsets[self.pos]);
                        }
                    },
                }
            }
        }
        self.scan_quoted_pattern()
    }

    spec fn peek_is_spec(&self, k: int, c: char) -> bool {
        k < self.chars@.len() - self.pos && self.chars@[self.pos + k] == c
    }

    /// `.match` selectors, then the variants.
    fn scan_matcher(&mut self) -> (r: Result<(), usize>)
        requires
            old(self).wf(),
            old(self).pos < old(self).chars@.len() - 5,
        ensures
            final(self).wf(),
            final(self).same_text(old(self)),
            final(self).pos > old(self).pos,
    {
        self.emit(Token::DotMatch, 6);
        self.skip_whitespace();
        let mut done = false;
        while !done && self.pos < self.chars.len() && self.chars[self.pos] != '\n'
            && self.chars[self.pos] != '\r'
            invariant
                self.wf(),
                self.same_text(old(self)),
                self.pos > old(self).pos,
            decreases self.chars@.len() - self.pos + if done { 0int } else { 1int },
        {
            if self.chars[self.pos] == '$' {
                self.scan_variable_token()?;
                self.skip_whitespace();
            } else {
                done = true;
            }
        }
        self.skip_layout_with_tokens();
        while self.pos < self.chars.len()
            invariant
                self.wf(),
                self.same_text(old(self)),
                self.pos > old(self).pos,
            decreases self.chars@.len() - self.pos,
        {
            self.scan_variant()?;
            self.skip_layout_with_tokens();
        }
        Ok(())
    }

    /// Declarations and the body of a message that starts with `.`.
    fn scan_complex_message(&mut self) -> (r: Result<(), usize>)
        requires
            old(self).wf(),
        ensures
            final(self).wf(),
            final(self).same_text(old(self)),
    {
        let input = vec!['.', 'i', 'n', 'p', 'u', 't'];
        let local = vec!['.', 'l', 'o', 'c', 'a', 'l'];
        let matcher = vec!['.', 'm', 'a', 't', 'c', 'h'];
        let mut done = false;
        while !done
            invariant
                self.wf(),
                self.same_text(old(self)),
                input@.len() == 6 && local@.len() == 6 && matcher@.len() == 6,
            decreases self.chars@.len() - self.pos + if done { 0int } else { 1int },
        {
            self.skip_layout_with_tokens();
            if self.at_end() {
                done = true;
            } else if self.starts_with_word(&input) {
                self.emit(Token::DotInput, 6);
                self.skip_whitespace();
                self.scan_expression()?;
            } else if self.starts_with_word(&local) {
                self.emit(Token::DotLocal, 6);
                self.skip_whitespace();
                self.scan_variable_token()?;
                self.skip_whitespace();
                if !self.peek_is(0, '=') {
                    return Err(self.offsets[self.pos]);
                }
                self.emit(Token::Equals, 1);
                self.skip_whitespace();
                self.scan_expression()?;
            } else if self.starts_with_word(&matcher) {
                self.scan_matcher()?;
            } else {
                if self.peek_is(0, '{') && self.peek_is(1, '{') {
                    self.scan_quoted_pattern()?;
                }
                done = true;
            }
        }
        Ok(())
    }
}

pub proof fn lemma_skip_layout(s: Seq<char>, i: int)
    requires
        0 <= i <= s.len(),
    ensures
        i <= skip_layout(s, i) <= s.len(),
        forall|k: int|
            i <= k < skip_layout(s, i) ==> is_space(#[trigger] s[k]) || s[k] == '\n' || s[k] == '\r',
        skip_layout(s, i) < s.len() ==> !(is_space(s[skip_layout(s, i)]) || s[skip_layout(s, i)]
            == '\n' || s[skip_layout(s, i)] == '\r'),
    decreases s.len() - i,
{
    if i < s.len() && (is_space(s[i]) || s[i] == '\n' || s[i] == '\r') {
        lemma_skip_layout(s, i + 1);
    }
}

/// A message of plain text: no placeholder, no line break, and not
/// starting with a declaration.
pub open spec fn plain_message(s: Seq<char>) -> bool {
    &&& forall|k: int| 0 <= k < s.len() ==> #[trigger] s[k] != '{' && s[k] != '\n' && s[k] != '\r'
    &&& skip_layout(s, 0) < s.len() ==> s[skip_layout(s, 0)] != '.'
}

/// Splits `source` into tokens, or gives the byte offset where it cannot
/// go on.
///
/// A plain message gives one text token holding it without leading
/// spaces and tabs, or nothing when that is empty.
pub fn tokenize(source: &str) -> (r: Result<Vec<SpannedToken>, usize>)
    ensures
        r matches Ok(tokens) ==> forall|k: int|
            0 <= k < tokens@.len() ==> (#[trigger] tokens@[k]).span.start <= tokens@[k].span.end,
        plain_message(source@) ==> (r matches Ok(tokens) && ends_with_text(
            tokens@,
            Seq::empty(),
            source@.subrange(skip_layout(source@, 0), source@.len() as int),
        )),
{
    let mut scanner = Scanner::new(source);
    proof {
        lemma_skip_layout(source@, 0);
        assert(scanner.tokens@ =~= Seq::<SpannedToken>::empty());
        if plain_message(source@) {
            assert forall|k: int| 0 <= k < skip_layout(source@, 0) implies is_space(
                #[trigger] source@[k],
            ) by {
                assert(source@[k] != '\n' && source@[k] != '\r');
            }
        }
    }
    scanner.skip_layout_with_tokens();
    if scanner.peek_is(0, '.') {
        scanner.scan_complex_message()?;
    } else {
        scanner.scan_simple_pattern()?;
    }
    Ok(scanner.tokens)
}

} // verus!
