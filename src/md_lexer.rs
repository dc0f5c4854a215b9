//! Markdown tokens: block prefixes, emphasis markers and text runs, read
//! by longest match.
use vstd::prelude::*;
use vstd::string::StringSliceAdditionalSpecFns;

use crate::scan::{count_byte, digit_run, line_end, run_len};

verus! {

/// A Markdown token.
#[derive(Debug, Clone, Copy, PartialEq, Eq, Structural)]
pub enum Token {
    /// `#` to `######` and blanks; the number of `#`.
    HeadingPrefix(usize),
    /// Three or more of one of `*`, `-`, `_`, blanks between.
    ThematicBreak,
    /// `>`.
    BlockQuotePrefix,
    /// `-`, `*` or `+` and blanks.
    UnorderedListMarker,
    /// Digits, `.` and blanks; the number when a single blank follows.
    OrderedListMarker(Option<u32>),
    /// Three backticks or tildes and the rest of the line.
    FencedCodeDelimiter,
    Asterisk,
    Underscore,
    DoubleAsterisk,
    DoubleUnderscore,
    Strikethrough,
    /// A run of bytes that open no other token.
    Text,
}

/// Space or tab.
pub open spec fn blank(b: u8) -> bool {
    b == 32 || b == 9
}

/// Length of the run of blanks from `q`.
pub open spec fn blank_run(s: Seq<u8>, q: int) -> int
    decreases s.len() - q,
{
    if 0 <= q < s.len() && blank(s[q]) {
        1 + blank_run(s, q + 1)
    } else {
        0
    }
}

/// Length of the run from `q` of bytes that are `c` or blanks.
pub open spec fn rule_run(s: Seq<u8>, q: int, c: u8) -> int
    decreases s.len() - q,
{
    if 0 <= q < s.len() && (s[q] == c || blank(s[q])) {
        1 + rule_run(s, q + 1, c)
    } else {
        0
    }
}

/// Bytes that may not appear in a text run.
pub open spec fn stops_text(b: u8) -> bool {
    b == 10 || b == 91 || b == 93 || b == 40 || b == 41 || b == 33 || b == 42 || b == 95 || b == 96
        || b == 126 || b == 92 || b == 35 || b == 62 || b == 124 || b == 45 || b == 32 || b == 9
}

/// Length of the text run from `q`.
pub open spec fn text_run(s: Seq<u8>, q: int) -> int
    decreases s.len() - q,
{
    if 0 <= q < s.len() && !stops_text(s[q]) {
        1 + text_run(s, q + 1)
    } else {
        0
    }
}

/// The value of the decimal digits `s[a..b]`.
pub open spec fn digits_value(s: Seq<u8>, a: int, b: int) -> int
    decreases b - a,
{
    if b <= a {
        0
    } else {
        digits_value(s, a, b - 1) * 10 + (s[b - 1] - 48)
    }
}

/// Length of the longest match at `p` of each pattern, 0 for none.
pub open spec fn heading_len(s: Seq<u8>, p: int) -> int {
    let n = run_len(s, p, s.len() as int, 35);
    if 1 <= n <= 6 && blank_run(s, p + n) >= 1 {
        n + blank_run(s, p + n)
    } else {
        0
    }
}

pub open spec fn thematic_len(s: Seq<u8>, p: int) -> int {
    if p < s.len() && (s[p] == 42 || s[p] == 45 || s[p] == 95) && count_byte(
        s,
        p,
        p + rule_run(s, p, s[p]),
        s[p],
    ) >= 3 {
        rule_run(s, p, s[p])
    } else {
        0
    }
}

pub open spec fn bullet_len(s: Seq<u8>, p: int) -> int {
    if p < s.len() && (s[p] == 45 || s[p] == 42 || s[p] == 43) && blank_run(s, p + 1) >= 1 {
        1 + blank_run(s, p + 1)
    } else {
        0
    }
}

pub open spec fn ordinal_len(s: Seq<u8>, p: int) -> int {
    let d = digit_run(s, p, s.len() as int);
    if d >= 1 && p + d < s.len() && s[p + d] == 46 && blank_run(s, p + d + 1) >= 1 {
        d + 1 + blank_run(s, p + d + 1)
    } else {
        0
    }
}

pub open spec fn fence_len(s: Seq<u8>, p: int) -> int {
    if p + 3 <= s.len() && ((s[p] == 96 && s[p + 1] == 96 && s[p + 2] == 96) || (s[p] == 126
        && s[p + 1] == 126 && s[p + 2] == 126)) {
        line_end(s, p) - p
    } else {
        0
    }
}

/// Length of the fixed markers `*`, `_`, `**`, `__`, `~~` at `p`.
pub open spec fn marker_len(s: Seq<u8>, p: int) -> int {
    if p + 2 <= s.len() && ((s[p] == 42 && s[p + 1] == 42) || (s[p] == 95 && s[p + 1] == 95) || (
    s[p] == 126 && s[p + 1] == 126)) {
        2
    } else if p < s.len() && (s[p] == 42 || s[p] == 95) {
        1
    } else {
        0
    }
}

/// The longest match at `p`: its length, the first pattern in the order
/// heading, rule, quote, bullet, ordinal, fence, marker, text that
/// reaches it.
pub open spec fn longest(s: Seq<u8>, p: int) -> int {
    let a = heading_len(s, p);
    let b = thematic_len(s, p);
    let c = if p < s.len() && s[p] == 62 {
        1int
    } else {
        0int
    };
    let d = bullet_len(s, p);
    let e = ordinal_len(s, p);
    let f = fence_len(s, p);
    let g = marker_len(s, p);
    let h = text_run(s, p);
    let m1 = if b > a { b } else { a };
    let m2 = if c > m1 { c } else { m1 };
    let m3 = if d > m2 { d } else { m2 };
    let m4 = if e > m3 { e } else { m3 };
    let m5 = if f > m4 { f } else { m4 };
    let m6 = if g > m5 { g } else { m5 };
    if h > m6 { h } else { m6 }
}

fn blanks_from(s: &Vec<u8>, q: usize) -> (r: usize)
    requires
        q <= s@.len(),
    ensures
        r == blank_run(s@, q as int),
        q + r <= s@.len(),
{
    let mut i = q;
    while i < s.len() && (s[i] == 32 || s[i] == 9)
        invariant
            q <= i <= s@.len(),
            blank_run(s@, i as int) + (i - q) == blank_run(s@, q as int),
        decreases s@.len() - i,
    {
        proof {
            lemma_blank_run_nonneg(s@, i + 1);
        }
        i = i + 1;
    }
    i - q
}

proof fn lemma_blank_run_nonneg(s: Seq<u8>, q: int)
    ensures
        blank_run(s, q) >= 0,
        q >= 0 ==> q + blank_run(s, q) <= if q <= s.len() { s.len() as int } else { q },
    decreases s.len() - q,
{
    if 0 <= q < s.len() && blank(s[q]) {
        lemma_blank_run_nonneg(s, q + 1);
    }
}

proof fn lemma_rule_run_bounds(s: Seq<u8>, q: int, c: u8)
    requires
        0 <= q <= s.len(),
    ensures
        0 <= rule_run(s, q, c) <= s.len() - q,
    decreases s.len() - q,
{
    if q < s.len() && (s[q] == c || blank(s[q])) {
        lemma_rule_run_bounds(s, q + 1, c);
    }
}

proof fn lemma_text_run_bounds(s: Seq<u8>, q: int)
    requires
        0 <= q <= s.len(),
    ensures
        0 <= text_run(s, q) <= s.len() - q,
    decreases s.len() - q,
{
    if q < s.len() && !stops_text(s[q]) {
        lemma_text_run_bounds(s, q + 1);
    }
}

/// Reads tokens from a text, left to right.
pub struct Lexer {
    bytes: Vec<u8>,
    pos: usize,
}

impl Token {
    /// A lexer at the start of `source`.
    pub fn lexer(source: &str) -> (r: Lexer)
        ensures
            r.text() == source.spec_bytes(),
            r.at() == 0,
    {
        let b = source.as_bytes();
        let mut bytes: Vec<u8> = Vec::new();
        let mut i: usize = 0;
        while i < b.len()
            invariant
                i <= b@.len(),
                bytes@ == b@.subrange(0, i as int),
            decreases b@.len() - i,
        {
            bytes.push(b[i]);
            i = i + 1;
            proof {
                assert(bytes@ =~= b@.subrange(0, i as int));
            }
        }
        proof {
            assert(b@.subrange(0, b@.len() as int) =~= b@);
        }
        Lexer { bytes, pos: 0 }
    }
}

impl Lexer {
    /// The text being read.
    pub closed spec fn text(&self) -> Seq<u8> {
        self.bytes@
    }

    /// How far the lexer has read.
    pub closed spec fn at(&self) -> int {
        self.pos as int
    }

    fn count(&self, q: usize, c: u8, n: usize) -> (r: usize)
        requires
            q + n <= self.bytes@.len(),
        ensures
            r == count_byte(self.bytes@, q as int, (q + n) as int, c),
            r <= n,
    {
        let len = self.bytes.len();
        let mut k: usize = 0;
        let mut r: usize = 0;
        while k < n
            invariant
                k <= n,
                len == self.bytes@.len(),
                q + n <= self.bytes@.len(),
                r == count_byte(self.bytes@, q as int, (q + k) as int, c),
                r <= k,
            decreases n - k,
        {
            if self.bytes[q + k] == c {
                r = r + 1;
            }
            k = k + 1;
        }
        r
    }

    /// The next token, an error for a byte that starts none, or nothing at
    /// the end of the text. The longest match wins.
    pub fn next(&mut self) -> (r: Option<Result<Token, ()>>)
        requires
            old(self).at() <= old(self).text().len(),
        ensures
            final(self).text() == old(self).text(),
            final(self).at() <= final(self).text().len(),
            old(self).at() == old(self).text().len() ==> r is None,
            old(self).at() < old(self).text().len() ==> r is Some,
            old(self).at() < old(self).text().len() && longest(old(self).text(), old(self).at())
                > 0 ==> (r matches Some(Ok(_)) && final(self).at() == old(self).at() + longest(
                old(self).text(),
                old(self).at(),
            )),
            old(self).at() < old(self).text().len() && longest(old(self).text(), old(self).at())
                == 0 ==> (r matches Some(Err(_)) && final(self).at() == old(self).at() + 1),
    {
        let s = &self.bytes;
        let p = self.pos;
        let n = s.len();
        if p >= n {
            return None;
        }
        proof {
            lemma_blank_run_nonneg(s@, p as int + 1);
            lemma_rule_run_bounds(s@, p as int, s@[p as int]);
            lemma_text_run_bounds(s@, p as int);
            crate::scan::lemma_run_len_bounds(s@, p as int, n as int, 35);
            crate::scan::lemma_digit_run_bounds(s@, p as int, n as int);
            crate::scan::lemma_line_end_bounds(s@, p as int);
        }
        // heading
        let hashes = crate::scan::count_run(s.as_slice(), p, n, 35);
        let mut heading: usize = 0;
        if hashes >= 1 && hashes <= 6 {
            let bl = blanks_from(s, p + hashes);
            if bl >= 1 {
                heading = hashes + bl;
            }
        }
        // thematic break
        let c0 = s[p];
        let mut rule: usize = 0;
        if c0 == 42 || c0 == 45 || c0 == 95 {
            let mut q = p;
            while q < n && (s[q] == c0 || s[q] == 32 || s[q] == 9)
                invariant
                    p <= q <= n,
                    n == s@.len(),
                    rule_run(s@, q as int, c0) + (q - p) == rule_run(s@, p as int, c0),
                decreases n - q,
            {
                proof {
                    lemma_rule_run_bounds(s@, q + 1, c0);
                }
                q = q + 1;
            }
            let m = q - p;
            if self.count(p, c0, m) >= 3 {
                rule = m;
            }
        }
        let quote: usize = if c0 == 62 {
            1
        } else {
            0
        };
        let mut bullet: usize = 0;
        if c0 == 45 || c0 == 42 || c0 == 43 {
            let bl = blanks_from(s, p + 1);
            if bl >= 1 {
                bullet = 1 + bl;
            }
        }
        let digits = crate::scan::count_digits(s.as_slice(), p, n);
        let mut ordinal: usize = 0;
        let mut ordinal_blanks: usize = 0;
        if digits >= 1 && p + digits < n && s[p + digits] == 46 {
            let bl = blanks_from(s, p + digits + 1);
            if bl >= 1 {
                ordinal = digits + 1 + bl;
                ordinal_blanks = bl;
            }
        }
        let mut fence: usize = 0;
        if n - p >= 3 && ((c0 == 96 && s[p + 1] == 96 && s[p + 2] == 96) || (c0 == 126 && s[p + 1]
            == 126 && s[p + 2] == 126)) {
            fence = crate::scan::find_line_end(s.as_slice(), p) - p;
        }
        let marker: usize = if n - p >= 2 && ((c0 == 42 && s[p + 1] == 42) || (c0 == 95 && s[p + 1]
            == 95) || (c0 == 126 && s[p + 1] == 126)) {
            2
        } else if c0 == 42 || c0 == 95 {
            1
        } else {
            0
        };
        let mut t = p;
        while t < n && !(s[t] == 10 || s[t] == 91 || s[t] == 93 || s[t] == 40 || s[t] == 41 || s[t]
            == 33 || s[t] == 42 || s[t] == 95 || s[t] == 96 || s[t] == 126 || s[t] == 92 || s[t]
            == 35 || s[t] == 62 || s[t] == 124 || s[t] == 45 || s[t] == 32 || s[t] == 9)
            invariant
                p <= t <= n,
                n == s@.len(),
                text_run(s@, t as int) + (t - p) == text_run(s@, p as int),
            decreases n - t,
        {
            proof {
                lemma_text_run_bounds(s@, t + 1);
            }
            t = t + 1;
        }
        let text = t - p;
        let mut best: usize = heading;
        let mut token = Token::HeadingPrefix(hashes);
        if rule > best {
            best = rule;
            token = Token::ThematicBreak;
        }
        if quote > best {
            best = quote;
            token = Token::BlockQuotePrefix;
        }
        if bullet > best {
            best = bullet;
            token = Token::UnorderedListMarker;
        }
        if ordinal > best {
            best = ordinal;
            let value = if ordinal_blanks == 1 {
                ordinal_value(s, p, p + digits)
            } else {
                None
            };
            token = Token::OrderedListMarker(value);
        }
        if fence > best {
            best = fence;
            token = Token::FencedCodeDelimiter;
        }
        if marker > best {
            best = marker;
            token = if marker == 2 {
                if c0 == 42 {
                    Token::DoubleAsterisk
                } else if c0 == 95 {
                    Token::DoubleUnderscore
                } else {
                    Token::Strikethrough
                }
            } else if c0 == 42 {
                Token::Asterisk
            } else {
                Token::Underscore
            };
        }
        if text > best {
            best = text;
            token = Token::Text;
        }
        if best == 0 {
            self.pos = p + 1;
            return Some(Err(()));
        }
        self.pos = p + best;
        Some(Ok(token))
    }
}

/// The value of the digits `s[a..b]`, when it fits in a `u32`.
fn ordinal_value(s: &Vec<u8>, a: usize, b: usize) -> (r: Option<u32>)
    requires
        a <= b <= s@.len(),
        forall|k: int| a <= k < b ==> 48 <= #[trigger] s@[k] <= 57,
    ensures
        r matches Some(v) ==> v == digits_value(s@, a as int, b as int),
        r is None ==> digits_value(s@, a as int, b as int) > u32::MAX,
{
    let mut v: u64 = 0;
    let mut i = a;
    while i < b
        invariant
            a <= i <= b,
            b <= s@.len(),
            forall|k: int| a <= k < b ==> 48 <= #[trigger] s@[k] <= 57,
            v == digits_value(s@, a as int, i as int),
            v <= u32::MAX,
        decreases b - i,
    {
        let next = v * 10 + (s[i] - 48) as u64;
        if next > u32::MAX as u64 {
            proof {
                lemma_digits_value_grows(s@, a as int, i + 1, b as int);
            }
            return None;
        }
        v = next;
        i = i + 1;
    }
    Some(v as u32)
}

proof fn lemma_digits_value_grows(s: Seq<u8>, a: int, i: int, b: int)
    requires
        a <= i <= b,
        forall|k: int| a <= k < b ==> 48 <= #[trigger] s[k] <= 57,
    ensures
        digits_value(s, a, b) >= digits_value(s, a, i),
    decreases b - i,
{
    if i < b {
        lemma_digits_value_grows(s, a, i, b - 1);
        lemma_digits_value_nonneg(s, a, b - 1);
    }
}

proof fn lemma_digits_value_nonneg(s: Seq<u8>, a: int, b: int)
    requires
        forall|k: int| a <= k < b ==> 48 <= #[trigger] s[k] <= 57,
    ensures
        digits_value(s, a, b) >= 0,
    decreases b - a,
{
    if a < b {
        lemma_digits_value_nonneg(s, a, b - 1);
    }
}

} // verus!
