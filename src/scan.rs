//! Byte-level scanning of Markdown source: what a line is, where it ends,
//! what it trims to, and which block it opens.
use vstd::prelude::*;

verus! {

/// Space or tab.
pub open spec fn is_blank(b: u8) -> bool {
    b == 32 || b == 9
}

/// ASCII whitespace, as trimmed from lines and cells.
pub open spec fn is_ws(b: u8) -> bool {
    b == 32 || b == 9 || b == 10 || b == 11 || b == 12 || b == 13
}

/// Index of the first newline at or after `p`, or the length of `s`.
pub open spec fn line_end(s: Seq<u8>, p: int) -> int
    decreases s.len() - p,
{
    if p >= s.len() {
        s.len() as int
    } else if s[p] == 10 {
        p
    } else {
        line_end(s, p + 1)
    }
}

/// Index of the first byte at or after `p` that is neither space nor tab.
pub open spec fn skip_blank(s: Seq<u8>, p: int) -> int
    decreases s.len() - p,
{
    if p >= s.len() {
        s.len() as int
    } else if is_blank(s[p]) {
        skip_blank(s, p + 1)
    } else {
        p
    }
}

/// Start of `s[a..b]` once leading whitespace is removed.
pub open spec fn trim_start(s: Seq<u8>, a: int, b: int) -> int
    decreases b - a,
{
    if a >= b {
        b
    } else if is_ws(s[a]) {
        trim_start(s, a + 1, b)
    } else {
        a
    }
}

/// End of `s[a..b]` once trailing whitespace is removed.
pub open spec fn trim_end(s: Seq<u8>, a: int, b: int) -> int
    decreases b - a,
{
    if b <= a {
        a
    } else if is_ws(s[b - 1]) {
        trim_end(s, a, b - 1)
    } else {
        b
    }
}

/// Length of the Unicode `White_Space` character encoded at `a` in UTF-8:
/// 1 for ASCII whitespace, 2 or 3 for the others, 0 when there is none.
pub open spec fn ws_len(s: Seq<u8>, a: int) -> int {
    if a < 0 || a >= s.len() {
        0
    } else if is_ws(s[a]) {
        1
    } else if a + 2 <= s.len() && s[a] == 0xC2 && (s[a + 1] == 0x85 || s[a + 1] == 0xA0) {
        2
    } else if a + 3 <= s.len() && ((s[a] == 0xE1 && s[a + 1] == 0x9A && s[a + 2] == 0x80) || (s[a]
        == 0xE2 && s[a + 1] == 0x80 && ((0x80 <= s[a + 2] <= 0x8A) || s[a + 2] == 0xA8 || s[a + 2]
        == 0xA9 || s[a + 2] == 0xAF)) || (s[a] == 0xE2 && s[a + 1] == 0x81 && s[a + 2] == 0x9F) || (
    s[a] == 0xE3 && s[a + 1] == 0x80 && s[a + 2] == 0x80)) {
        3
    } else {
        0
    }
}

/// Length of the Unicode `White_Space` character that ends just before `b`,
/// 0 when there is none.
pub open spec fn ws_len_before(s: Seq<u8>, b: int) -> int {
    if b < 1 || b > s.len() {
        0
    } else if is_ws(s[b - 1]) {
        1
    } else if b >= 2 && ws_len(s, b - 2) == 2 {
        2
    } else if b >= 3 && ws_len(s, b - 3) == 3 {
        3
    } else {
        0
    }
}

/// Start of `s[a..b]` once leading Unicode whitespace is removed.
pub open spec fn utrim_start(s: Seq<u8>, a: int, b: int) -> int
    decreases b - a,
{
    if a >= b {
        b
    } else if ws_len(s, a) > 0 && a + ws_len(s, a) <= b {
        utrim_start(s, a + ws_len(s, a), b)
    } else {
        a
    }
}

/// End of `s[a..b]` once trailing Unicode whitespace is removed.
pub open spec fn utrim_end(s: Seq<u8>, a: int, b: int) -> int
    decreases b - a,
{
    if b <= a {
        a
    } else if ws_len_before(s, b) > 0 && b - ws_len_before(s, b) >= a {
        utrim_end(s, a, b - ws_len_before(s, b))
    } else {
        b
    }
}

pub proof fn lemma_utrim_bounds(s: Seq<u8>, a: int, b: int)
    requires
        a <= b,
    ensures
        a <= utrim_start(s, a, b) <= b,
        a <= utrim_end(s, a, b) <= b,
    decreases b - a,
{
    if a < b {
        if ws_len(s, a) > 0 && a + ws_len(s, a) <= b {
            lemma_utrim_bounds(s, a + ws_len(s, a), b);
        }
        if ws_len_before(s, b) > 0 && b - ws_len_before(s, b) >= a {
            lemma_utrim_bounds(s, a, b - ws_len_before(s, b));
        }
    }
}

/// On ASCII bytes, Unicode trimming is ASCII trimming.
pub proof fn lemma_utrim_ascii(s: Seq<u8>, a: int, b: int)
    requires
        0 <= a <= b <= s.len(),
        forall|k: int| a <= k < b ==> #[trigger] s[k] < 0x80,
    ensures
        utrim_start(s, a, b) == trim_start(s, a, b),
        utrim_end(s, a, b) == trim_end(s, a, b),
    decreases b - a,
{
    if a < b {
        lemma_utrim_ascii(s, a + 1, b);
        lemma_utrim_ascii(s, a, b - 1);
    }
}

/// Where Unicode trimming stops before a byte that does not start a fitting
/// whitespace character, trailing trimming keeps that byte.
pub proof fn lemma_utrim_end_keeps(s: Seq<u8>, a: int, b: int)
    requires
        0 <= a < b <= s.len(),
        !(ws_len(s, a) > 0 && a + ws_len(s, a) <= b),
    ensures
        utrim_end(s, a, b) > a,
    decreases b - a,
{
    let w = ws_len_before(s, b);
    if w > 0 && b - w >= a {
        assert(ws_len(s, b - w) == w);
        if b - w > a {
            lemma_utrim_end_keeps(s, a, b - w);
        }
    }
}

/// Unicode trimming from `a` stops at the same byte in a longer range that
/// reaches past the next newline.
pub proof fn lemma_utrim_start_longer(s: Seq<u8>, a: int, e: int, b: int)
    requires
        0 <= a <= e <= b <= s.len(),
        utrim_start(s, a, e) < e,
        e < s.len() ==> s[e] == 10,
    ensures
        utrim_start(s, a, b) == utrim_start(s, a, e),
        !(ws_len(s, utrim_start(s, a, e)) > 0 && utrim_start(s, a, e) + ws_len(
            s,
            utrim_start(s, a, e),
        ) <= b),
    decreases e - a,
{
    if ws_len(s, a) > 0 && a + ws_len(s, a) <= e {
        lemma_utrim_start_longer(s, a + ws_len(s, a), e, b);
    } else {
        if ws_len(s, a) > 0 && a + ws_len(s, a) <= b {
            assert(a + ws_len(s, a) > e);
            assert(s[e] != 10);
        }
    }
}

/// When ASCII trimming removes everything, so does Unicode trimming.
pub proof fn lemma_utrim_all_ws(s: Seq<u8>, a: int, b: int)
    requires
        0 <= a <= b <= s.len(),
        trim_start(s, a, b) == b,
    ensures
        utrim_start(s, a, b) == b,
    decreases b - a,
{
    if a < b {
        lemma_utrim_all_ws(s, a + 1, b);
    }
}

/// Length of the run of byte `c` that starts at `p` and stops before `hi`.
pub open spec fn run_len(s: Seq<u8>, p: int, hi: int, c: u8) -> int
    decreases hi - p,
{
    if p < hi && s[p] == c {
        1 + run_len(s, p + 1, hi, c)
    } else {
        0
    }
}

/// Length of the run of ASCII digits that starts at `p` and stops before `hi`.
pub open spec fn digit_run(s: Seq<u8>, p: int, hi: int) -> int
    decreases hi - p,
{
    if p < hi && 48 <= s[p] <= 57 {
        1 + digit_run(s, p + 1, hi)
    } else {
        0
    }
}

/// Number of bytes equal to `c` in `s[a..b]`.
pub open spec fn count_byte(s: Seq<u8>, a: int, b: int, c: u8) -> int
    decreases b - a,
{
    if b <= a {
        0
    } else {
        count_byte(s, a, b - 1, c) + if s[b - 1] == c {
            1int
        } else {
            0int
        }
    }
}

/// Some byte of `s[a..b]` equals `c`.
pub open spec fn contains_byte(s: Seq<u8>, a: int, b: int, c: u8) -> bool {
    exists|k: int| a <= k < b && s[k] == c
}

/// An ATX heading opens at `p`: one to six `#` followed by space, tab,
/// newline or the end of input.
pub open spec fn heading_start(s: Seq<u8>, p: int) -> bool {
    let n = run_len(s, p, s.len() as int, 35);
    1 <= n <= 6 && (p + n >= s.len() || s[p + n] == 32 || s[p + n] == 9 || s[p + n] == 10)
}

/// The line at `p`, trimmed, is at least three bytes of one of `-`, `*`, `_`,
/// with only spaces and tabs between them, and at least three of them.
pub open spec fn thematic_break_line(s: Seq<u8>, p: int) -> bool {
    let le = line_end(s, p);
    let ts = utrim_start(s, p, le);
    let te = utrim_end(s, ts, le);
    &&& te - ts >= 3
    &&& (s[ts] == 45 || s[ts] == 42 || s[ts] == 95)
    &&& forall|k: int| ts <= k < te ==> (s[k] == s[ts] || is_blank(#[trigger] s[k]))
    &&& count_byte(s, ts, te, s[ts]) >= 3
}

/// A fenced code block opens at `p` with three backticks or three tildes.
pub open spec fn fence_start(s: Seq<u8>, p: int) -> bool {
    &&& p + 3 <= s.len()
    &&& ((s[p] == 96 && s[p + 1] == 96 && s[p + 2] == 96) || (s[p] == 126 && s[p + 1] == 126
        && s[p + 2] == 126))
}

/// The trimmed line at `p` begins with `-`, `*` or `+` and a space.
pub open spec fn bullet_marker(s: Seq<u8>, p: int) -> bool {
    let le = line_end(s, p);
    let ts = utrim_start(s, p, le);
    ts + 1 < le && (s[ts] == 45 || s[ts] == 42 || s[ts] == 43) && s[ts + 1] == 32
}

/// The trimmed line at `p` begins with digits, `.` or `)`, and a space.
pub open spec fn ordinal_marker(s: Seq<u8>, p: int) -> bool {
    let le = line_end(s, p);
    let ts = utrim_start(s, p, le);
    let d = digit_run(s, ts, le);
    d > 0 && ts + d + 1 < le && (s[ts + d] == 46 || s[ts + d] == 41) && s[ts + d + 1] == 32
}

/// A list item marker opens the line at `p`.
pub open spec fn list_start(s: Seq<u8>, p: int) -> bool {
    bullet_marker(s, p) || ordinal_marker(s, p)
}

/// After trimming Unicode whitespace, `s[a..b]` holds only `-` and `:`.
pub open spec fn delimiter_cell(s: Seq<u8>, a: int, b: int) -> bool {
    let ta = utrim_start(s, a, b);
    let tb = utrim_end(s, ta, b);
    forall|k: int| ta <= k < tb ==> (#[trigger] s[k] == 45 || s[k] == 58)
}

/// Every `|`-separated cell of `s[piece..hi]`, the first one starting at
/// `piece` and read up to `i` so far, is a delimiter cell.
pub open spec fn delimiter_cells(s: Seq<u8>, piece: int, i: int, hi: int) -> bool
    decreases hi - i,
{
    if i >= hi {
        delimiter_cell(s, piece, hi)
    } else if s[i] == 124 {
        delimiter_cell(s, piece, i) && delimiter_cells(s, i + 1, i + 1, hi)
    } else {
        delimiter_cells(s, piece, i + 1, hi)
    }
}

/// A table opens at `p`: a first line with a `|`, and a second line with `|`
/// and `-` whose cells are all delimiter cells.
pub open spec fn table_start(s: Seq<u8>, p: int) -> bool {
    let le1 = line_end(s, p);
    let l2 = le1 + 1;
    let le2 = line_end(s, l2);
    &&& l2 < s.len()
    &&& contains_byte(s, p, le1, 124)
    &&& contains_byte(s, l2, le2, 124)
    &&& contains_byte(s, l2, le2, 45)
    &&& delimiter_cells(s, l2, l2, le2)
}

/// Alignment of a delimiter cell `s[a..b]`, read from its leading and
/// trailing colons.
pub open spec fn alignment_of(s: Seq<u8>, a: int, b: int) -> crate::ast::AlignKind {
    let starts = a < b && s[a] == 58;
    let ends = a < b && s[b - 1] == 58;
    if starts && ends {
        crate::ast::AlignKind::Center
    } else if starts {
        crate::ast::AlignKind::Left
    } else if ends {
        crate::ast::AlignKind::Right
    } else {
        crate::ast::AlignKind::Unaligned
    }
}

pub proof fn lemma_line_end_bounds(s: Seq<u8>, p: int)
    requires
        0 <= p <= s.len(),
    ensures
        p <= line_end(s, p) <= s.len(),
        line_end(s, p) < s.len() ==> s[line_end(s, p)] == 10,
        forall|k: int| p <= k < line_end(s, p) ==> s[k] != 10,
    decreases s.len() - p,
{
    if p < s.len() && s[p] != 10 {
        lemma_line_end_bounds(s, p + 1);
    }
}

pub proof fn lemma_trim_bounds(s: Seq<u8>, a: int, b: int)
    requires
        a <= b,
    ensures
        a <= trim_start(s, a, b) <= b,
        a <= trim_end(s, a, b) <= b,
        trim_start(s, a, b) < b ==> !is_ws(s[trim_start(s, a, b)]),
        trim_end(s, a, b) > a ==> !is_ws(s[trim_end(s, a, b) - 1]),
        forall|k: int| a <= k < trim_start(s, a, b) ==> is_ws(#[trigger] s[k]),
        forall|k: int| trim_end(s, a, b) <= k < b ==> is_ws(#[trigger] s[k]),
    decreases b - a,
{
    if a < b {
        if is_ws(s[a]) {
            lemma_trim_bounds(s, a + 1, b);
        }
        if is_ws(s[b - 1]) {
            lemma_trim_bounds(s, a, b - 1);
        }
    }
}

pub proof fn lemma_run_len_bounds(s: Seq<u8>, p: int, hi: int, c: u8)
    requires
        p <= hi,
    ensures
        0 <= run_len(s, p, hi, c) <= hi - p,
        forall|k: int| p <= k < p + run_len(s, p, hi, c) ==> s[k] == c,
        p + run_len(s, p, hi, c) < hi ==> s[p + run_len(s, p, hi, c)] != c,
    decreases hi - p,
{
    if p < hi && s[p] == c {
        lemma_run_len_bounds(s, p + 1, hi, c);
    }
}

pub proof fn lemma_digit_run_bounds(s: Seq<u8>, p: int, hi: int)
    requires
        p <= hi,
    ensures
        0 <= digit_run(s, p, hi) <= hi - p,
        forall|k: int| p <= k < p + digit_run(s, p, hi) ==> 48 <= #[trigger] s[k] <= 57,
        p + digit_run(s, p, hi) < hi ==> !(48 <= s[p + digit_run(s, p, hi)] <= 57),
    decreases hi - p,
{
    if p < hi && 48 <= s[p] <= 57 {
        lemma_digit_run_bounds(s, p + 1, hi);
    }
}

/// Index of the first newline at or after `p`, or the length of `s`.
pub fn find_line_end(s: &[u8], p: usize) -> (r: usize)
    requires
        p <= s@.len(),
    ensures
        r == line_end(s@, p as int),
        p <= r <= s@.len(),
{
    proof {
        lemma_line_end_bounds(s@, p as int);
    }
    let mut i = p;
    while i < s.len() && s[i] != 10
        invariant
            p <= i <= s@.len(),
            line_end(s@, i as int) == line_end(s@, p as int),
        decreases s@.len() - i,
    {
        i = i + 1;
    }
    i
}

/// Index of the first byte at or after `p` that is neither space nor tab.
pub fn skip_blanks(s: &[u8], p: usize) -> (r: usize)
    requires
        p <= s@.len(),
    ensures
        r == skip_blank(s@, p as int),
        p <= r <= s@.len(),
        r < s@.len() ==> !is_blank(s@[r as int]),
        forall|k: int| p <= k < r ==> is_blank(#[trigger] s@[k]),
{
    let mut i = p;
    while i < s.len() && (s[i] == 32 || s[i] == 9)
        invariant
            p <= i <= s@.len(),
            skip_blank(s@, i as int) == skip_blank(s@, p as int),
            forall|k: int| p <= k < i ==> is_blank(#[trigger] s@[k]),
        decreases s@.len() - i,
    {
        i = i + 1;
    }
    i
}

fn is_ws_byte(b: u8) -> (r: bool)
    ensures
        r == is_ws(b),
{
    b == 32 || b == 9 || b == 10 || b == 11 || b == 12 || b == 13
}

/// Start of `s[a..b]` without its leading whitespace.
pub fn find_trim_start(s: &[u8], a: usize, b: usize) -> (r: usize)
    requires
        a <= b <= s@.len(),
    ensures
        r == trim_start(s@, a as int, b as int),
        a <= r <= b,
{
    proof {
        lemma_trim_bounds(s@, a as int, b as int);
    }
    let mut i = a;
    while i < b && is_ws_byte(s[i])
        invariant
            a <= i <= b,
            b <= s@.len(),
            trim_start(s@, i as int, b as int) == trim_start(s@, a as int, b as int),
        decreases b - i,
    {
        i = i + 1;
    }
    i
}

/// End of `s[a..b]` without its trailing whitespace.
pub fn find_trim_end(s: &[u8], a: usize, b: usize) -> (r: usize)
    requires
        a <= b <= s@.len(),
    ensures
        r == trim_end(s@, a as int, b as int),
        a <= r <= b,
{
    proof {
        lemma_trim_bounds(s@, a as int, b as int);
    }
    let mut j = b;
    while j > a && is_ws_byte(s[j - 1])
        invariant
            a <= j <= b,
            b <= s@.len(),
            trim_end(s@, a as int, j as int) == trim_end(s@, a as int, b as int),
        decreases j - a,
    {
        j = j - 1;
    }
    j
}

fn ws_len_at(s: &[u8], a: usize) -> (r: usize)
    requires
        a <= s@.len(),
    ensures
        r == ws_len(s@, a as int),
{
    let n = s.len();
    if a >= n {
        return 0;
    }
    let b = s[a];
    if b == 32 || b == 9 || b == 10 || b == 11 || b == 12 || b == 13 {
        return 1;
    }
    if n - a >= 2 && b == 0xC2 && (s[a + 1] == 0x85 || s[a + 1] == 0xA0) {
        return 2;
    }
    if n - a >= 3 {
        let c = s[a + 1];
        let d = s[a + 2];
        if (b == 0xE1 && c == 0x9A && d == 0x80) || (b == 0xE2 && c == 0x80 && ((0x80 <= d && d
            <= 0x8A) || d == 0xA8 || d == 0xA9 || d == 0xAF)) || (b == 0xE2 && c == 0x81 && d == 0x9F)
            || (b == 0xE3 && c == 0x80 && d == 0x80) {
            return 3;
        }
    }
    0
}

fn ws_len_before_at(s: &[u8], b: usize) -> (r: usize)
    requires
        b <= s@.len(),
    ensures
        r == ws_len_before(s@, b as int),
{
    if b < 1 {
        return 0;
    }
    let x = s[b - 1];
    if x == 32 || x == 9 || x == 10 || x == 11 || x == 12 || x == 13 {
        return 1;
    }
    if b >= 2 && ws_len_at(s, b - 2) == 2 {
        return 2;
    }
    if b >= 3 && ws_len_at(s, b - 3) == 3 {
        return 3;
    }
    0
}

/// Start of `s[a..b]` without its leading Unicode whitespace.
pub fn find_utrim_start(s: &[u8], a: usize, b: usize) -> (r: usize)
    requires
        a <= b <= s@.len(),
    ensures
        r == utrim_start(s@, a as int, b as int),
        a <= r <= b,
{
    proof {
        lemma_utrim_bounds(s@, a as int, b as int);
    }
    let mut i = a;
    let mut done = false;
    while !done && i < b
        invariant
            a <= i <= b,
            b <= s@.len(),
            utrim_start(s@, i as int, b as int) == utrim_start(s@, a as int, b as int),
            done ==> utrim_start(s@, i as int, b as int) == i,
        decreases b - i + if done { 0int } else { 1int },
    {
        let w = ws_len_at(s, i);
        if w > 0 && w <= b - i {
            i = i + w;
        } else {
            done = true;
        }
    }
    i
}

/// End of `s[a..b]` without its trailing Unicode whitespace.
pub fn find_utrim_end(s: &[u8], a: usize, b: usize) -> (r: usize)
    requires
        a <= b <= s@.len(),
    ensures
        r == utrim_end(s@, a as int, b as int),
        a <= r <= b,
{
    proof {
        lemma_utrim_bounds(s@, a as int, b as int);
    }
    let mut j = b;
    let mut done = false;
    while !done && j > a
        invariant
            a <= j <= b,
            b <= s@.len(),
            utrim_end(s@, a as int, j as int) == utrim_end(s@, a as int, b as int),
            done ==> utrim_end(s@, a as int, j as int) == j,
        decreases j - a + if done { 0int } else { 1int },
    {
        let w = ws_len_before_at(s, j);
        if w > 0 && j - a >= w {
            j = j - w;
        } else {
            done = true;
        }
    }
    j
}

/// Length of the run of byte `c` from `p`, stopping before `hi`.
pub fn count_run(s: &[u8], p: usize, hi: usize, c: u8) -> (r: usize)
    requires
        p <= hi <= s@.len(),
    ensures
        r == run_len(s@, p as int, hi as int, c),
        p + r <= hi,
{
    proof {
        lemma_run_len_bounds(s@, p as int, hi as int, c);
    }
    let mut i = p;
    while i < hi && s[i] == c
        invariant
            p <= i <= hi,
            hi <= s@.len(),
            run_len(s@, i as int, hi as int, c) + (i - p) == run_len(s@, p as int, hi as int, c),
        decreases hi - i,
    {
        i = i + 1;
    }
    i - p
}

/// Length of the run of ASCII digits from `p`, stopping before `hi`.
pub fn count_digits(s: &[u8], p: usize, hi: usize) -> (r: usize)
    requires
        p <= hi <= s@.len(),
    ensures
        r == digit_run(s@, p as int, hi as int),
        p + r <= hi,
{
    proof {
        lemma_digit_run_bounds(s@, p as int, hi as int);
    }
    let mut i = p;
    while i < hi && 48 <= s[i] && s[i] <= 57
        invariant
            p <= i <= hi,
            hi <= s@.len(),
            digit_run(s@, i as int, hi as int) + (i - p) == digit_run(s@, p as int, hi as int),
        decreases hi - i,
    {
        i = i + 1;
    }
    i - p
}

/// True when some byte of `s[a..b]` equals `c`.
pub fn has_byte(s: &[u8], a: usize, b: usize, c: u8) -> (r: bool)
    requires
        a <= b <= s@.len(),
    ensures
        r == contains_byte(s@, a as int, b as int, c),
{
    let mut i = a;
    while i < b
        invariant
            a <= i <= b,
            b <= s@.len(),
            forall|k: int| a <= k < i ==> s@[k] != c,
        decreases b - i,
    {
        if s[i] == c {
            return true;
        }
        i = i + 1;
    }
    false
}

/// Whether an ATX heading opens at `p`.
pub fn is_heading_start(s: &[u8], p: usize) -> (r: bool)
    requires
        p <= s@.len(),
    ensures
        r == heading_start(s@, p as int),
{
    let n = count_run(s, p, s.len(), 35);
    if n < 1 || n > 6 {
        return false;
    }
    let q = p + n;
    q >= s.len() || s[q] == 32 || s[q] == 9 || s[q] == 10
}

/// Whether the line at `p` is a thematic break.
pub fn is_thematic_break(s: &[u8], p: usize) -> (r: bool)
    requires
        p <= s@.len(),
    ensures
        r == thematic_break_line(s@, p as int),
{
    let le = find_line_end(s, p);
    let ts = find_utrim_start(s, p, le);
    let te = find_utrim_end(s, ts, le);
    if te - ts < 3 {
        return false;
    }
    let first = s[ts];
    if !(first == 45 || first == 42 || first == 95) {
        return false;
    }
    let mut k = ts;
    let mut n: usize = 0;
    while k < te
        invariant
            ts <= k <= te,
            te <= s@.len(),
            le == line_end(s@, p as int),
            ts == utrim_start(s@, p as int, le as int),
            te == utrim_end(s@, ts as int, le as int),
            first == s@[ts as int],
            n == count_byte(s@, ts as int, k as int, first),
            n <= k - ts,
            forall|j: int| ts <= j < k ==> (s@[j] == first || is_blank(#[trigger] s@[j])),
        decreases te - k,
    {
        let b = s[k];
        if b == first {
            n = n + 1;
        } else if b != 32 && b != 9 {
            assert(!(s@[k as int] == s@[ts as int] || is_blank(s@[k as int])));
            return false;
        }
        k = k + 1;
    }
    n >= 3
}

/// Whether a fenced code block opens at `p`.
pub fn is_fence_start(s: &[u8], p: usize) -> (r: bool)
    requires
        p <= s@.len(),
    ensures
        r == fence_start(s@, p as int),
{
    if s.len() - p < 3 {
        return false;
    }
    (s[p] == 96 && s[p + 1] == 96 && s[p + 2] == 96) || (s[p] == 126 && s[p + 1] == 126 && s[p
        + 2] == 126)
}

/// Whether a list item marker opens the line at `p`.
pub fn is_list_start(s: &[u8], p: usize) -> (r: bool)
    requires
        p <= s@.len(),
    ensures
        r == list_start(s@, p as int),
        r == (bullet_marker(s@, p as int) || ordinal_marker(s@, p as int)),
{
    let le = find_line_end(s, p);
    let ts = find_utrim_start(s, p, le);
    if le - ts > 1 && (s[ts] == 45 || s[ts] == 42 || s[ts] == 43) && s[ts + 1] == 32 {
        return true;
    }
    let d = count_digits(s, ts, le);
    d > 0 && le - ts - d > 1 && (s[ts + d] == 46 || s[ts + d] == 41) && s[ts + d + 1] == 32
}

/// Whether `s[a..b]`, trimmed, holds only `-` and `:`.
pub fn is_delimiter_cell(s: &[u8], a: usize, b: usize) -> (r: bool)
    requires
        a <= b <= s@.len(),
    ensures
        r == delimiter_cell(s@, a as int, b as int),
{
    let ta = find_utrim_start(s, a, b);
    let tb = find_utrim_end(s, ta, b);
    let mut k = ta;
    while k < tb
        invariant
            ta <= k <= tb,
            tb <= s@.len(),
            ta == utrim_start(s@, a as int, b as int),
            tb == utrim_end(s@, ta as int, b as int),
            forall|j: int| ta <= j < k ==> (#[trigger] s@[j] == 45 || s@[j] == 58),
        decreases tb - k,
    {
        if s[k] != 45 && s[k] != 58 {
            return false;
        }
        k = k + 1;
    }
    true
}

/// Whether every `|`-separated cell of `s[a..b]` is a delimiter cell.
pub fn is_delimiter_row(s: &[u8], a: usize, b: usize) -> (r: bool)
    requires
        a <= b <= s@.len(),
    ensures
        r == delimiter_cells(s@, a as int, a as int, b as int),
{
    let mut piece = a;
    let mut i = a;
    while i < b
        invariant
            a <= piece <= i <= b,
            b <= s@.len(),
            delimiter_cells(s@, a as int, a as int, b as int) == delimiter_cells(
                s@,
                piece as int,
                i as int,
                b as int,
            ),
        decreases b - i,
    {
        if s[i] == 124 {
            if !is_delimiter_cell(s, piece, i) {
                return false;
            }
            piece = i + 1;
        }
        i = i + 1;
    }
    is_delimiter_cell(s, piece, b)
}

/// Whether a table opens at `p`.
pub fn is_table_start(s: &[u8], p: usize) -> (r: bool)
    requires
        p <= s@.len(),
    ensures
        r == table_start(s@, p as int),
{
    let le1 = find_line_end(s, p);
    if le1 >= s.len() || le1 + 1 >= s.len() {
        return false;
    }
    let l2 = le1 + 1;
    let le2 = find_line_end(s, l2);
    has_byte(s, p, le1, 124) && has_byte(s, l2, le2, 124) && has_byte(s, l2, le2, 45)
        && is_delimiter_row(s, l2, le2)
}

/// Alignment of the delimiter cell `s[a..b]`, read from its leading and
/// trailing colons.
pub fn cell_alignment(s: &[u8], a: usize, b: usize) -> (r: crate::ast::AlignKind)
    requires
        a <= b <= s@.len(),
    ensures
        r == alignment_of(s@, a as int, b as int),
{
    let starts = a < b && s[a] == 58;
    let ends = a < b && s[b - 1] == 58;
    if starts && ends {
        crate::ast::AlignKind::Center
    } else if starts {
        crate::ast::AlignKind::Left
    } else if ends {
        crate::ast::AlignKind::Right
    } else {
        crate::ast::AlignKind::Unaligned
    }
}

} // verus!
