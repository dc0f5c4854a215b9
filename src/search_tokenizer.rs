//! Splitting text into search terms.
use vstd::prelude::*;
use vstd::utf8::encode_utf8;

use crate::text::{chars_of, push_char, str_eq, views};

verus! {

/// What `str::to_lowercase` makes of a text.
pub uninterp spec fn lower_of(s: Seq<char>) -> Seq<char>;

/// Whether `char::is_alphanumeric` holds of a character.
pub uninterp spec fn alphanumeric(c: char) -> bool;

/// Relies on str::to_lowercase: the lowercase mapping of each character,
/// a function of the text alone.
#[verifier::external_body]
pub(crate) fn to_lowercase(s: &str) -> (r: String)
    ensures
        r@ == lower_of(s@),
{
    s.to_lowercase()
}

/// Relies on char::is_alphanumeric: Unicode `Alphabetic` or `Numeric`.
#[verifier::external_body]
pub(crate) fn is_alphanumeric(c: char) -> (r: bool)
    ensures
        r == alphanumeric(c),
        ('a' <= c <= 'z') || ('A' <= c <= 'Z') || ('0' <= c <= '9') ==> r,
{
    c.is_alphanumeric()
}

/// CJK ideographs, extension A, hiragana, katakana and hangul syllables.
pub open spec fn is_cjk(c: char) -> bool {
    ('\u{4E00}' <= c <= '\u{9FFF}') || ('\u{3400}' <= c <= '\u{4DBF}') || ('\u{3040}' <= c
        <= '\u{309F}') || ('\u{30A0}' <= c <= '\u{30FF}') || ('\u{AC00}' <= c <= '\u{D7AF}')
}

fn is_cjk_char(c: char) -> (r: bool)
    ensures
        r == is_cjk(c),
{
    ('\u{4E00}' <= c && c <= '\u{9FFF}') || ('\u{3400}' <= c && c <= '\u{4DBF}') || ('\u{3040}' <= c
        && c <= '\u{309F}') || ('\u{30A0}' <= c && c <= '\u{30FF}') || ('\u{AC00}' <= c && c
        <= '\u{D7AF}')
}

/// Common English words that are not indexed.
pub open spec fn stopwords() -> Seq<Seq<char>> {
    seq![
        "a"@, "an"@, "and"@, "are"@, "as"@, "at"@, "be"@, "by"@, "for"@, "from"@, "has"@, "he"@,
        "in"@, "is"@, "it"@, "its"@, "of"@, "on"@, "or"@, "that"@, "the"@, "to"@, "was"@, "were"@,
        "will"@, "with"@, "this"@, "but"@, "they"@, "have"@, "had"@, "what"@, "when"@, "where"@,
        "who"@, "which"@, "why"@, "how"@, "all"@, "each"@, "every"@, "both"@, "few"@, "more"@,
        "most"@, "other"@, "some"@, "such"@, "no"@, "not"@, "only"@, "own"@, "same"@, "so"@,
        "than"@, "too"@, "very"@, "can"@, "just"@, "should"@, "now"@, "if"@, "you"@, "your"@
    ]
}

/// Whether `word` is a stopword.
pub fn is_stopword(word: &str) -> (r: bool)
    ensures
        r == stopwords().contains(word@),
{
    let list = vec![
        "a", "an", "and", "are", "as", "at", "be", "by", "for", "from", "has", "he", "in", "is",
        "it", "its", "of", "on", "or", "that", "the", "to", "was", "were", "will", "with", "this",
        "but", "they", "have", "had", "what", "when", "where", "who", "which", "why", "how", "all",
        "each", "every", "both", "few", "more", "most", "other", "some", "such", "no", "not", "only",
        "own", "same", "so", "than", "too", "very", "can", "just", "should", "now", "if", "you",
        "your",
    ];
    assert(list@.len() == stopwords().len());
    assert(forall|k: int| 0 <= k < list@.len() ==> (#[trigger] list@[k])@ == stopwords()[k]);
    let mut i: usize = 0;
    while i < list.len()
        invariant
            i <= list@.len(),
            list@.len() == stopwords().len(),
            forall|k: int| 0 <= k < list@.len() ==> (#[trigger] list@[k])@ == stopwords()[k],
            forall|k: int| 0 <= k < i ==> stopwords()[k] != word@,
        decreases list@.len() - i,
    {
        if str_eq(list[i], word) {
            return true;
        }
        i = i + 1;
    }
    false
}

/// The token list after a pending term `cur` is closed: lowercased, and
/// for indexing kept only when it is no stopword and has two or more bytes.
pub open spec fn flush(acc: Seq<Seq<char>>, cur: Seq<char>, strict: bool) -> Seq<Seq<char>> {
    if cur.len() == 0 {
        acc
    } else {
        let t = lower_of(cur);
        if !strict || (!stopwords().contains(t) && encode_utf8(t).len() as usize >= 2) {
            acc.push(t)
        } else {
            acc
        }
    }
}

/// Tokens of `s` from index `i`, with the term `cur` pending and `acc`
/// emitted so far. Letters, digits and `_` build a term; a CJK character
/// is a token of its own; anything else closes the term.
pub open spec fn tokens_from(s: Seq<char>, i: int, cur: Seq<char>, acc: Seq<Seq<char>>, strict: bool) -> Seq<Seq<char>>
    decreases s.len() - i,
{
    if i >= s.len() {
        flush(acc, cur, strict)
    } else {
        let c = s[i];
        if is_cjk(c) {
            tokens_from(s, i + 1, Seq::empty(), flush(acc, cur, strict).push(seq![c]), strict)
        } else if alphanumeric(c) || c == '_' {
            tokens_from(s, i + 1, cur.push(c), acc, strict)
        } else {
            tokens_from(s, i + 1, Seq::empty(), flush(acc, cur, strict), strict)
        }
    }
}

/// The search terms of `s`.
pub open spec fn tokens_of(s: Seq<char>, strict: bool) -> Seq<Seq<char>> {
    tokens_from(s, 0, Seq::empty(), Seq::empty(), strict)
}

fn close_term(tokens: &mut Vec<String>, cur: &String, strict: bool)
    ensures
        views(final(tokens)@) == flush(views(old(tokens)@), cur@, strict),
{
    if cur.as_str().is_empty() {
        return;
    }
    let t = to_lowercase(cur.as_str());
    if !strict || (!is_stopword(t.as_str()) && t.as_str().len() >= 2) {
        let ghost before = tokens@;
        tokens.push(t);
        proof {
            assert(views(tokens@) =~= views(before).push(t@));
        }
    }
}

fn tokenize_with(text: &str, strict: bool) -> (r: Vec<String>)
    ensures
        views(r@) == tokens_of(text@, strict),
{
    let chars = chars_of(text);
    let mut tokens: Vec<String> = Vec::new();
    let mut cur = String::new();
    let mut i: usize = 0;
    proof {
        assert(views(tokens@) =~= Seq::<Seq<char>>::empty());
    }
    while i < chars.len()
        invariant
            i <= chars@.len(),
            chars@ == text@,
            tokens_from(chars@, i as int, cur@, views(tokens@), strict) == tokens_of(text@, strict),
        decreases chars@.len() - i,
    {
        let c = chars[i];
        if is_cjk_char(c) {
            close_term(&mut tokens, &cur, strict);
            cur = String::new();
            let mut single = String::new();
            push_char(&mut single, c);
            let ghost before = tokens@;
            tokens.push(single);
            proof {
                assert(views(tokens@) =~= views(before).push(seq![c]));
                assert(single@ =~= seq![c]);
            }
        } else if is_alphanumeric(c) || c == '_' {
            push_char(&mut cur, c);
        } else {
            close_term(&mut tokens, &cur, strict);
            cur = String::new();
        }
        i = i + 1;
    }
    close_term(&mut tokens, &cur, strict);
    tokens
}

/// Terms for indexing: lowercased runs of letters, digits and `_` that
/// are no stopword and have two or more bytes, and each CJK character.
pub fn tokenize(text: &str) -> (r: Vec<String>)
    ensures
        views(r@) == tokens_of(text@, true),
{
    tokenize_with(text, true)
}

/// Terms of a query: as for indexing, but no term is dropped.
pub fn tokenize_query(text: &str) -> (r: Vec<String>)
    ensures
        views(r@) == tokens_of(text@, false),
{
    tokenize_with(text, false)
}

} // verus!
