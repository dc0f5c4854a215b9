//! Character-level helpers over strings.
use vstd::prelude::*;
use vstd::string::StrSliceExecFns;
use vstd::utf8::{decode_utf8, valid_utf8};

verus! {

/// Relies on String::push: appends one character.
#[verifier::external_body]
pub(crate) fn push_char(s: &mut String, c: char)
    ensures
        final(s)@ == old(s)@.push(c),
{
    s.push(c)
}

/// The characters of `s`.
pub fn chars_of(s: &str) -> (r: Vec<char>)
    ensures
        r@ == s@,
{
    let n = s.unicode_len();
    let mut r: Vec<char> = Vec::new();
    let mut i: usize = 0;
    while i < n
        invariant
            i <= n,
            n == s@.len(),
            r@ == s@.subrange(0, i as int),
        decreases n - i,
    {
        r.push(s.get_char(i));
        i = i + 1;
        proof {
            assert(r@ =~= s@.subrange(0, i as int));
        }
    }
    proof {
        assert(r@ =~= s@);
    }
    r
}

/// A string holding `v[a..b]`.
pub fn string_of(v: &Vec<char>, a: usize, b: usize) -> (r: String)
    requires
        a <= b <= v@.len(),
    ensures
        r@ == v@.subrange(a as int, b as int),
{
    let mut r = String::new();
    let mut i = a;
    while i < b
        invariant
            a <= i <= b,
            b <= v@.len(),
            r@ == v@.subrange(a as int, i as int),
        decreases b - i,
    {
        push_char(&mut r, v[i]);
        i = i + 1;
        proof {
            assert(r@ =~= v@.subrange(a as int, i as int));
        }
    }
    r
}

/// A string holding `s`.
pub fn owned(s: &str) -> (r: String)
    ensures
        r@ == s@,
{
    s.to_owned()
}

/// Whether two strings hold the same characters.
pub fn str_eq(a: &str, b: &str) -> (r: bool)
    ensures
        r == (a@ == b@),
{
    let x = a.to_owned();
    let y = b.to_owned();
    x == y
}

/// Number of `c` in `s`.
pub open spec fn count_char(s: Seq<char>, c: char) -> nat
    decreases s.len(),
{
    if s.len() == 0 {
        0
    } else {
        count_char(s.drop_last(), c) + if s.last() == c {
            1nat
        } else {
            0nat
        }
    }
}

/// The parts joined with `c` between each two.
pub open spec fn join(parts: Seq<Seq<char>>, c: char) -> Seq<char>
    decreases parts.len(),
{
    if parts.len() == 0 {
        Seq::empty()
    } else if parts.len() == 1 {
        parts[0]
    } else {
        join(parts.drop_last(), c) + seq![c] + parts.last()
    }
}

/// The character views of some strings.
pub open spec fn views(v: Seq<String>) -> Seq<Seq<char>> {
    v.map_values(|x: String| x@)
}

/// `parts` is the result of splitting `s` at every `c`: joined with `c`
/// they give `s` back, and none of them holds `c`.
pub open spec fn is_split(parts: Seq<Seq<char>>, s: Seq<char>, c: char) -> bool {
    &&& parts.len() >= 1
    &&& join(parts, c) == s
    &&& forall|i: int| 0 <= i < parts.len() ==> !(#[trigger] parts[i]).contains(c)
}

proof fn lemma_join_push_char(parts: Seq<Seq<char>>, cur: Seq<char>, c: char, x: char)
    ensures
        join(parts.push(cur.push(x)), c) == join(parts.push(cur), c).push(x),
{
    let p1 = parts.push(cur.push(x));
    let p0 = parts.push(cur);
    assert(p1.drop_last() =~= parts);
    assert(p0.drop_last() =~= parts);
    if parts.len() == 0 {
    } else {
        assert(join(p1, c) =~= join(p0, c).push(x));
    }
}

proof fn lemma_join_push_sep(parts: Seq<Seq<char>>, cur: Seq<char>, c: char)
    ensures
        join(parts.push(cur).push(Seq::empty()), c) == join(parts.push(cur), c).push(c),
{
    let p = parts.push(cur);
    let q = p.push(Seq::empty());
    assert(q.drop_last() =~= p);
    assert(join(q, c) =~= join(p, c) + seq![c] + Seq::<char>::empty());
    assert(join(q, c) =~= join(p, c).push(c));
}

/// The pieces of `s` between the occurrences of `c`.
pub fn split_char(s: &str, c: char) -> (r: Vec<String>)
    ensures
        is_split(views(r@), s@, c),
{
    let chars = chars_of(s);
    let mut parts: Vec<String> = Vec::new();
    let mut cur = String::new();
    let mut i: usize = 0;
    proof {
        assert(views(parts@).push(cur@) =~= seq![Seq::<char>::empty()]);
        assert(chars@.subrange(0, 0) =~= Seq::<char>::empty());
    }
    while i < chars.len()
        invariant
            i <= chars@.len(),
            chars@ == s@,
            join(views(parts@).push(cur@), c) == chars@.subrange(0, i as int),
            forall|k: int| 0 <= k < parts@.len() ==> !(#[trigger] parts@[k])@.contains(c),
            !cur@.contains(c),
        decreases chars@.len() - i,
    {
        let ch = chars[i];
        if ch == c {
            let ghost old_views = views(parts@);
            let ghost old_cur = cur@;
            proof {
                lemma_join_push_sep(old_views, old_cur, c);
            }
            let done = cur;
            parts.push(done);
            cur = String::new();
            proof {
                assert(views(parts@) =~= old_views.push(old_cur));
                assert(!cur@.contains(c));
            }
        } else {
            proof {
                lemma_join_push_char(views(parts@), cur@, c, ch);
            }
            push_char(&mut cur, ch);
            proof {
                assert(!cur@.contains(c)) by {
                    assert forall|k: int| 0 <= k < cur@.len() implies cur@[k] != c by {
                        if k < cur@.len() - 1 {
                            assert(cur@[k] == cur@.drop_last()[k]);
                        }
                    }
                }
            }
        }
        i = i + 1;
        proof {
            assert(chars@.subrange(0, i as int) =~= chars@.subrange(0, i - 1).push(ch));
        }
    }
    let ghost old_views = views(parts@);
    let ghost last = cur@;
    parts.push(cur);
    proof {
        assert(chars@.subrange(0, chars@.len() as int) =~= chars@);
        assert(views(parts@) =~= old_views.push(last));
    }
    parts
}

/// `r` is the part of `s` before its first `c`: all of `s` when it holds none.
pub open spec fn is_prefix_before(r: Seq<char>, s: Seq<char>, c: char) -> bool {
    &&& r.len() <= s.len()
    &&& r == s.subrange(0, r.len() as int)
    &&& !r.contains(c)
    &&& r.len() < s.len() ==> s[r.len() as int] == c
}

/// `r` is the part of `s` after its last `c`: all of `s` when it holds none.
pub open spec fn is_suffix_after(r: Seq<char>, s: Seq<char>, c: char) -> bool {
    &&& r.len() <= s.len()
    &&& r == s.subrange(s.len() - r.len(), s.len() as int)
    &&& !r.contains(c)
    &&& r.len() < s.len() ==> s[s.len() - r.len() - 1] == c
}

/// The part of `s` before its first `c`.
pub fn prefix_before(s: &str, c: char) -> (r: &str)
    ensures
        is_prefix_before(r@, s@, c),
{
    let n = s.unicode_len();
    let mut i: usize = 0;
    while i < n && s.get_char(i) != c
        invariant
            i <= n,
            n == s@.len(),
            forall|k: int| 0 <= k < i ==> s@[k] != c,
        decreases n - i,
    {
        i = i + 1;
    }
    let r = s.substring_char(0, i);
    proof {
        assert(!r@.contains(c)) by {
            assert forall|k: int| 0 <= k < r@.len() implies r@[k] != c by {
                assert(r@[k] == s@[k]);
            }
        }
    }
    r
}

/// The part of `s` after its last `c`.
pub fn suffix_after(s: &str, c: char) -> (r: &str)
    ensures
        is_suffix_after(r@, s@, c),
{
    let n = s.unicode_len();
    let mut j: usize = n;
    while j > 0 && s.get_char(j - 1) != c
        invariant
            j <= n,
            n == s@.len(),
            forall|k: int| j <= k < n ==> s@[k] != c,
        decreases j,
    {
        j = j - 1;
    }
    let r = s.substring_char(j, n);
    proof {
        assert(!r@.contains(c)) by {
            assert forall|k: int| 0 <= k < r@.len() implies r@[k] != c by {
                assert(r@[k] == s@[j + k]);
            }
        }
    }
    r
}

/// Unicode `White_Space`.
pub open spec fn is_white(c: char) -> bool {
    ('\u{9}' <= c <= '\u{d}') || c == ' ' || c == '\u{85}' || c == '\u{a0}' || c == '\u{1680}' || (
    '\u{2000}' <= c <= '\u{200a}') || c == '\u{2028}' || c == '\u{2029}' || c == '\u{202f}' || c
        == '\u{205f}' || c == '\u{3000}'
}

/// Whether `c` is Unicode whitespace.
pub fn is_white_char(c: char) -> (r: bool)
    ensures
        r == is_white(c),
{
    ('\u{9}' <= c && c <= '\u{d}') || c == ' ' || c == '\u{85}' || c == '\u{a0}' || c == '\u{1680}'
        || ('\u{2000}' <= c && c <= '\u{200a}') || c == '\u{2028}' || c == '\u{2029}' || c
        == '\u{202f}' || c == '\u{205f}' || c == '\u{3000}'
}

/// ASCII letter or digit.
pub open spec fn is_ascii_alnum(c: char) -> bool {
    ('a' <= c <= 'z') || ('A' <= c <= 'Z') || ('0' <= c <= '9')
}

/// Whether `c` is an ASCII letter or digit.
pub fn is_ascii_alnum_char(c: char) -> (r: bool)
    ensures
        r == is_ascii_alnum(c),
{
    ('a' <= c && c <= 'z') || ('A' <= c && c <= 'Z') || ('0' <= c && c <= '9')
}

/// `s` with leading and trailing whitespace removed: `s[a..b]`, where every
/// character outside that range is whitespace and the range, when not
/// empty, starts and ends with a character that is not; an all-whitespace
/// `s` trims to the empty range at its end.
pub open spec fn is_trim_of(a: int, b: int, s: Seq<char>) -> bool {
    &&& 0 <= a <= b <= s.len()
    &&& forall|k: int| 0 <= k < a ==> is_white(#[trigger] s[k])
    &&& forall|k: int| b <= k < s.len() ==> is_white(#[trigger] s[k])
    &&& a < b ==> !is_white(s[a]) && !is_white(s[b - 1])
    &&& a == b ==> a == s.len()
}

/// Bounds of `v` without its leading and trailing whitespace.
pub fn trim_bounds(v: &Vec<char>) -> (r: (usize, usize))
    ensures
        is_trim_of(r.0 as int, r.1 as int, v@),
{
    let mut a: usize = 0;
    while a < v.len() && is_white_char(v[a])
        invariant
            a <= v@.len(),
            forall|k: int| 0 <= k < a ==> is_white(#[trigger] v@[k]),
        decreases v@.len() - a,
    {
        a = a + 1;
    }
    let mut b: usize = v.len();
    while b > a && is_white_char(v[b - 1])
        invariant
            a <= b <= v@.len(),
            forall|k: int| b <= k < v@.len() ==> is_white(#[trigger] v@[k]),
        decreases b - a,
    {
        b = b - 1;
    }
    (a, b)
}

pub proof fn lemma_trim_unique(a: int, b: int, a2: int, b2: int, s: Seq<char>)
    requires
        is_trim_of(a, b, s),
        is_trim_of(a2, b2, s),
    ensures
        a == a2 && b == b2,
{
    if a2 == b2 {
        if a < b {
            assert(is_white(s[a]));
        }
    } else if a == b {
        assert(is_white(s[a2]));
    } else {
        if a2 < a {
            assert(is_white(s[a2]));
        }
        if a < a2 {
            assert(is_white(s[a]));
        }
        if b2 < b {
            assert(is_white(s[b - 1]));
        }
        if b < b2 {
            assert(is_white(s[b2 - 1]));
        }
    }
}

/// `s` without leading and trailing Unicode whitespace.
pub open spec fn trimmed(s: Seq<char>) -> Seq<char> {
    let (a, b) = choose|a: int, b: int| is_trim_of(a, b, s);
    s.subrange(a, b)
}

/// A copy of `v[a..b]`.
pub fn sub_vec(v: &Vec<char>, a: usize, b: usize) -> (r: Vec<char>)
    requires
        a <= b <= v@.len(),
    ensures
        r@ == v@.subrange(a as int, b as int),
{
    let mut r: Vec<char> = Vec::new();
    let mut i = a;
    while i < b
        invariant
            a <= i <= b,
            b <= v@.len(),
            r@ == v@.subrange(a as int, i as int),
        decreases b - i,
    {
        r.push(v[i]);
        i = i + 1;
        proof {
            assert(r@ =~= v@.subrange(a as int, i as int));
        }
    }
    r
}

/// `v` without leading and trailing Unicode whitespace.
pub fn trim_vec(v: &Vec<char>) -> (r: Vec<char>)
    ensures
        r@ == trimmed(v@),
{
    let (a, b) = trim_bounds(v);
    proof {
        let (a2, b2) = choose|a2: int, b2: int| is_trim_of(a2, b2, v@);
        lemma_trim_unique(a as int, b as int, a2, b2, v@);
    }
    sub_vec(v, a, b)
}

/// Relies on String::from_utf8_lossy: valid UTF-8 is decoded as it is.
#[verifier::external_body]
pub(crate) fn utf8_lossy(bytes: &Vec<u8>) -> (r: String)
    ensures
        valid_utf8(bytes@) ==> r@ == decode_utf8(bytes@),
{
    String::from_utf8_lossy(bytes).into_owned()
}

} // verus!
