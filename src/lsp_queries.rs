//! What an editor asks of the dictionaries: translations of a key, and
//! where a key is written in a dictionary file.
use vstd::prelude::*;

use crate::dictionary::{lookup, Dictionary, DictionarySet};
use crate::text::{chars_of, owned, str_eq, suffix_after};

verus! {

/// The (locale, message) pairs of `key`, over the first `i` locales.
pub open spec fn translations_upto(dicts: Seq<(Seq<char>, Dictionary)>, key: Seq<char>, i: int) -> Seq<
    (Seq<char>, Seq<char>),
>
    decreases i,
{
    if i <= 0 {
        Seq::empty()
    } else {
        translations_upto(dicts, key, i - 1) + match lookup(dicts[i - 1].1.pairs(), key) {
            Some(v) => seq![(dicts[i - 1].0, v)],
            None => Seq::empty(),
        }
    }
}

/// The message of `key` in every locale that has one, in locale order.
pub fn translations_for_key(set: &DictionarySet, key: &str) -> (r: Vec<(String, String)>)
    requires
        set.wf(),
    ensures
        r@.len() == translations_upto(set.dicts(), key@, set.dicts().len() as int).len(),
        forall|k: int|
            0 <= k < r@.len() ==> (#[trigger] r@[k]).0@ == translations_upto(
                set.dicts(),
                key@,
                set.dicts().len() as int,
            )[k].0 && r@[k].1@ == translations_upto(set.dicts(), key@, set.dicts().len() as int)[k].1,
{
    let locales = set.locales();
    let ghost dicts = set.dicts();
    let mut out: Vec<(String, String)> = Vec::new();
    let mut i: usize = 0;
    while i < locales.len()
        invariant
            i <= locales@.len(),
            set.wf(),
            dicts == set.dicts(),
            locales@.len() == dicts.len(),
            forall|k: int| 0 <= k < locales@.len() ==> (#[trigger] locales@[k])@ == dicts[k].0,
            out@.len() == translations_upto(dicts, key@, i as int).len(),
            forall|k: int|
                0 <= k < out@.len() ==> (#[trigger] out@[k]).0@ == translations_upto(
                    dicts,
                    key@,
                    i as int,
                )[k].0 && out@[k].1@ == translations_upto(dicts, key@, i as int)[k].1,
        decreases locales@.len() - i,
    {
        proof {
            crate::dictionary::lemma_lookup_at(dicts, i as int);
        }
        match set.get(locales[i]) {
            Some(dict) => match dict.get(key) {
                Some(v) => {
                    out.push((owned(locales[i]), owned(v)));
                },
                None => {},
            },
            None => {},
        }
        i = i + 1;
    }
    out
}

/// The message of `key` in the default locale when it is set and has a
/// dictionary; otherwise in the first locale that has one.
pub fn default_translation(set: &DictionarySet, key: &str) -> (r: Option<String>)
    requires
        set.wf(),
    ensures
        r matches Some(v) ==> exists|i: int|
            0 <= i < set.dicts().len() && lookup((#[trigger] set.dicts()[i]).1.pairs(), key@)
                == Some(v@),
{
    match set.default_locale() {
        Some(locale) => match set.get(locale.as_str()) {
            Some(dict) => {
                let r = match dict.get(key) {
                    Some(v) => Some(owned(v)),
                    None => None,
                };
                proof {
                    if r is Some {
                        let i = choose|i: int|
                            0 <= i < set.dicts().len() && (#[trigger] set.dicts()[i]).0
                                == locale@;
                        crate::dictionary::lemma_lookup_at(set.dicts(), i);
                    }
                }
                return r;
            },
            None => {},
        },
        None => {},
    }
    let locales = set.locales();
    let mut i: usize = 0;
    while i < locales.len()
        invariant
            i <= locales@.len(),
            set.wf(),
            locales@.len() == set.dicts().len(),
            forall|k: int| 0 <= k < locales@.len() ==> (#[trigger] locales@[k])@ == set.dicts()[k].0,
        decreases locales@.len() - i,
    {
        proof {
            crate::dictionary::lemma_lookup_at(set.dicts(), i as int);
        }
        match set.get(locales[i]) {
            Some(dict) => match dict.get(key) {
                Some(v) => {
                    return Some(owned(v));
                },
                None => {},
            },
            None => {},
        }
        i = i + 1;
    }
    None
}

/// Whether `line` from `from` starts with `word`.
fn starts_with_at(line: &Vec<char>, from: usize, word: &Vec<char>) -> (r: bool)
    requires
        from <= line@.len(),
    ensures
        r == (word@.len() <= line@.len() - from && line@.subrange(
            from as int,
            from + word@.len(),
        ) == word@),
{
    let n = line.len();
    if word.len() > n - from {
        return false;
    }
    let mut k: usize = 0;
    while k < word.len()
        invariant
            k <= word@.len(),
            n == line@.len(),
            from <= n,
            word@.len() <= line@.len() - from,
            forall|j: int| 0 <= j < k ==> line@[from + j] == word@[j],
        decreases word@.len() - k,
    {
        if line[from + k] != word[k] {
            proof {
                assert(line@.subrange(from as int, from + word@.len())[k as int] != word@[k as int]);
            }
            return false;
        }
        k = k + 1;
    }
    proof {
        assert(line@.subrange(from as int, from + word@.len()) =~= word@);
    }
    true
}

/// The 0-based number of the first line of `content` that, trimmed,
/// starts with `"leaf"` or `leaf:`, where `leaf` is the last segment of
/// `key`.
pub fn find_key_line(content: &str, key: &str) -> (r: Option<u32>) {
    let leaf = chars_of(suffix_after(key, '.'));
    let mut quoted: Vec<char> = Vec::new();
    quoted.push('"');
    let mut j: usize = 0;
    while j < leaf.len()
        invariant
            j <= leaf@.len(),
        decreases leaf@.len() - j,
    {
        quoted.push(leaf[j]);
        j = j + 1;
    }
    quoted.push('"');
    let mut colon: Vec<char> = Vec::new();
    let mut j: usize = 0;
    while j < leaf.len()
        invariant
            j <= leaf@.len(),
        decreases leaf@.len() - j,
    {
        colon.push(leaf[j]);
        j = j + 1;
    }
    colon.push(':');
    let cs = chars_of(content);
    let mut line_no: u32 = 0;
    let mut start: usize = 0;
    while start < cs.len()
        invariant
            start <= cs@.len(),
        decreases cs@.len() - start,
    {
        let mut end = start;
        while end < cs.len() && cs[end] != '\n'
            invariant
                start <= end <= cs@.len(),
            decreases cs@.len() - end,
        {
            end = end + 1;
        }
        let line = crate::text::sub_vec(&cs, start, end);
        let (a, _) = crate::text::trim_bounds(&line);
        if starts_with_at(&line, a, &quoted) || starts_with_at(&line, a, &colon) {
            return Some(line_no);
        }
        if line_no == u32::MAX {
            return None;
        }
        line_no = line_no + 1;
        if end >= cs.len() {
            start = cs.len();
        } else {
            start = end + 1;
        }
    }
    None
}

} // verus!
