//! Translation dictionaries: one per locale, each a map from key to message.
use vstd::prelude::*;

use crate::key::KeyPath;
use crate::locale::Locale;
use crate::text::{owned, str_eq};

verus! {

/// No key occurs twice.
pub open spec fn unique_keys<V>(pairs: Seq<(Seq<char>, V)>) -> bool {
    forall|i: int, j: int|
        0 <= i < pairs.len() && 0 <= j < pairs.len() && i != j ==> (#[trigger] pairs[i]).0
            != (#[trigger] pairs[j]).0
}

/// What `k` maps to among `pairs`, if anything.
pub open spec fn lookup<V>(pairs: Seq<(Seq<char>, V)>, k: Seq<char>) -> Option<V> {
    if exists|i: int| 0 <= i < pairs.len() && (#[trigger] pairs[i]).0 == k {
        let i = choose|i: int| 0 <= i < pairs.len() && (#[trigger] pairs[i]).0 == k;
        Some(pairs[i].1)
    } else {
        None
    }
}

/// `pairs` after setting `k` to `v`: in place when `k` is there, else at the end.
pub open spec fn insert_pair<V>(pairs: Seq<(Seq<char>, V)>, k: Seq<char>, v: V) -> Seq<(Seq<char>, V)> {
    if exists|i: int| 0 <= i < pairs.len() && (#[trigger] pairs[i]).0 == k {
        let i = choose|i: int| 0 <= i < pairs.len() && (#[trigger] pairs[i]).0 == k;
        pairs.update(i, (k, v))
    } else {
        pairs.push((k, v))
    }
}

pub proof fn lemma_lookup_at<V>(pairs: Seq<(Seq<char>, V)>, i: int)
    requires
        unique_keys(pairs),
        0 <= i < pairs.len(),
    ensures
        lookup(pairs, pairs[i].0) == Some(pairs[i].1),
{
    let k = pairs[i].0;
    assert(0 <= i < pairs.len() && pairs[i].0 == k);
    let j = choose|j: int| 0 <= j < pairs.len() && (#[trigger] pairs[j]).0 == k;
    if j != i {
        assert(pairs[j].0 != pairs[i].0);
    }
}

proof fn lemma_insert_pair<V>(pairs: Seq<(Seq<char>, V)>, k: Seq<char>, v: V)
    requires
        unique_keys(pairs),
    ensures
        unique_keys(insert_pair(pairs, k, v)),
        forall|q: Seq<char>|
            #[trigger] lookup(insert_pair(pairs, k, v), q) == if q == k {
                Some(v)
            } else {
                lookup(pairs, q)
            },
{
    let np = insert_pair(pairs, k, v);
    assert forall|a: int, b: int|
        0 <= a < np.len() && 0 <= b < np.len() && a != b implies (#[trigger] np[a]).0
        != (#[trigger] np[b]).0 by {
        if exists|i: int| 0 <= i < pairs.len() && (#[trigger] pairs[i]).0 == k {
            let i = choose|i: int| 0 <= i < pairs.len() && (#[trigger] pairs[i]).0 == k;
            if a != i && b != i {
                assert(np[a] == pairs[a] && np[b] == pairs[b]);
            } else if a == i {
                assert(np[b] == pairs[b]);
                assert(pairs[b].0 != pairs[i].0);
            } else {
                assert(np[a] == pairs[a]);
                assert(pairs[a].0 != pairs[i].0);
            }
        } else {
            if a < pairs.len() && b < pairs.len() {
                assert(np[a] == pairs[a] && np[b] == pairs[b]);
            } else if a < pairs.len() {
                assert(np[a] == pairs[a]);
            } else {
                assert(np[b] == pairs[b]);
            }
        }
    }
    assert forall|q: Seq<char>| #[trigger] lookup(np, q) == if q == k {
        Some(v)
    } else {
        lookup(pairs, q)
    } by {
        if exists|i: int| 0 <= i < pairs.len() && (#[trigger] pairs[i]).0 == k {
            let i = choose|i: int| 0 <= i < pairs.len() && (#[trigger] pairs[i]).0 == k;
            if q == k {
                lemma_lookup_at(np, i);
            } else {
                if exists|j: int| 0 <= j < pairs.len() && (#[trigger] pairs[j]).0 == q {
                    let j = choose|j: int| 0 <= j < pairs.len() && (#[trigger] pairs[j]).0 == q;
                    lemma_lookup_at(pairs, j);
                    assert(np[j] == pairs[j]);
                    lemma_lookup_at(np, j);
                } else {
                    assert forall|j: int| 0 <= j < np.len() implies (#[trigger] np[j]).0 != q by {
                        if j != i {
                            assert(np[j] == pairs[j]);
                        }
                    }
                }
            }
        } else {
            let n = pairs.len() as int;
            if q == k {
                lemma_lookup_at(np, n);
            } else {
                if exists|j: int| 0 <= j < pairs.len() && (#[trigger] pairs[j]).0 == q {
                    let j = choose|j: int| 0 <= j < pairs.len() && (#[trigger] pairs[j]).0 == q;
                    lemma_lookup_at(pairs, j);
                    assert(np[j] == pairs[j]);
                    lemma_lookup_at(np, j);
                } else {
                    assert forall|j: int| 0 <= j < np.len() implies (#[trigger] np[j]).0 != q by {
                        if j < n {
                            assert(np[j] == pairs[j]);
                        }
                    }
                }
            }
        }
    }
}

/// Index of the pair whose key is `key`, if any.
fn find_key<V>(pairs: &Vec<(String, V)>, key: &str) -> (r: Option<usize>)
    ensures
        r matches Some(i) ==> i < pairs@.len() && pairs@[i as int].0@ == key@,
        r is None ==> forall|i: int| 0 <= i < pairs@.len() ==> (#[trigger] pairs@[i]).0@ != key@,
{
    let mut i: usize = 0;
    while i < pairs.len()
        invariant
            i <= pairs@.len(),
            forall|j: int| 0 <= j < i ==> (#[trigger] pairs@[j]).0@ != key@,
        decreases pairs@.len() - i,
    {
        if str_eq(pairs[i].0.as_str(), key) {
            return Some(i);
        }
        i = i + 1;
    }
    None
}

/// The translations of one locale: message per key.
#[derive(Debug, Clone, Default)]
pub struct Dictionary {
    entries: Vec<(String, String)>,
}

impl Dictionary {
    /// Keys and messages, in the order keys were first inserted.
    pub closed spec fn pairs(&self) -> Seq<(Seq<char>, Seq<char>)> {
        self.entries@.map_values(|p: (String, String)| (p.0@, p.1@))
    }

    /// Keys are unique.
    pub open spec fn wf(&self) -> bool {
        unique_keys(self.pairs())
    }

    /// An empty dictionary.
    pub fn new() -> (r: Dictionary)
        ensures
            r.wf(),
            r.pairs().len() == 0,
    {
        let r = Dictionary { entries: Vec::new() };
        assert(r.pairs() =~= Seq::empty());
        r
    }

    /// Sets the message of `key`, replacing an earlier one.
    pub fn insert(&mut self, key: KeyPath, value: String)
        requires
            old(self).wf(),
        ensures
            final(self).wf(),
            final(self).pairs() == insert_pair(old(self).pairs(), key@, value@),
            forall|q: Seq<char>|
                #[trigger] lookup(final(self).pairs(), q) == if q == key@ {
                    Some(value@)
                } else {
                    lookup(old(self).pairs(), q)
                },
    {
        proof {
            lemma_insert_pair(self.pairs(), key@, value@);
        }
        let ghost before = self.pairs();
        let k = owned(key.as_str());
        let found = find_key(&self.entries, k.as_str());
        let ghost kv = key@;
        match found {
            Some(i) => {
                proof {
                    assert(before[i as int].0 == kv);
                    let j = choose|j: int| 0 <= j < before.len() && (#[trigger] before[j]).0 == kv;
                    if j != i {
                        assert(before[j].0 != before[i as int].0);
                    }
                }
                self.entries.set(i, (k, value));
                proof {
                    assert(self.pairs() =~= insert_pair(before, kv, value@));
                }
            },
            None => {
                proof {
                    assert(!exists|j: int| 0 <= j < before.len() && (#[trigger] before[j]).0 == kv);
                }
                self.entries.push((k, value));
                proof {
                    assert(self.pairs() =~= insert_pair(before, kv, value@));
                }
            },
        }
    }

    /// The message of `key`.
    pub fn get(&self, key: &str) -> (r: Option<&str>)
        requires
            self.wf(),
        ensures
            r is Some <==> lookup(self.pairs(), key@) is Some,
            r matches Some(v) ==> lookup(self.pairs(), key@) == Some(v@),
    {
        match find_key(&self.entries, key) {
            Some(i) => {
                proof {
                    lemma_lookup_at(self.pairs(), i as int);
                }
                Some(self.entries[i].1.as_str())
            },
            None => {
                proof {
                    assert(!exists|j: int|
                        0 <= j < self.pairs().len() && (#[trigger] self.pairs()[j]).0 == key@) by {
                        assert forall|j: int| 0 <= j < self.pairs().len() implies (
                        #[trigger] self.pairs()[j]).0 != key@ by {
                            assert(self.pairs()[j].0 == self.entries@[j].0@);
                        }
                    }
                }
                None
            },
        }
    }

    /// Number of entries.
    pub fn len(&self) -> (r: usize)
        ensures
            r == self.pairs().len(),
    {
        self.entries.len()
    }

    /// Whether there is no entry.
    pub fn is_empty(&self) -> (r: bool)
        ensures
            r == (self.pairs().len() == 0),
    {
        self.entries.len() == 0
    }

    /// All keys, in insertion order.
    pub fn keys(&self) -> (r: Vec<&str>)
        ensures
            r@.len() == self.pairs().len(),
            forall|i: int| 0 <= i < r@.len() ==> (#[trigger] r@[i])@ == self.pairs()[i].0,
    {
        let mut r: Vec<&str> = Vec::new();
        let mut i: usize = 0;
        while i < self.entries.len()
            invariant
                i <= self.entries@.len(),
                r@.len() == i,
                forall|j: int| 0 <= j < i ==> (#[trigger] r@[j])@ == self.pairs()[j].0,
            decreases self.entries@.len() - i,
        {
            r.push(self.entries[i].0.as_str());
            i = i + 1;
        }
        r
    }

    /// All entries, in insertion order.
    pub fn iter(&self) -> (r: Vec<(&str, &str)>)
        ensures
            r@.len() == self.pairs().len(),
            forall|i: int|
                0 <= i < r@.len() ==> (#[trigger] r@[i]).0@ == self.pairs()[i].0 && r@[i].1@
                    == self.pairs()[i].1,
    {
        let mut r: Vec<(&str, &str)> = Vec::new();
        let mut i: usize = 0;
        while i < self.entries.len()
            invariant
                i <= self.entries@.len(),
                r@.len() == i,
                forall|j: int|
                    0 <= j < i ==> (#[trigger] r@[j]).0@ == self.pairs()[j].0 && r@[j].1@
                        == self.pairs()[j].1,
            decreases self.entries@.len() - i,
        {
            r.push((self.entries[i].0.as_str(), self.entries[i].1.as_str()));
            i = i + 1;
        }
        r
    }
}

/// What a dictionary gives for `key`, when there is a dictionary.
pub open spec fn lookup_in(d: Option<Dictionary>, key: Seq<char>) -> Option<Seq<char>> {
    match d {
        Some(d) => lookup(d.pairs(), key),
        None => None,
    }
}

/// The translation of `key` for `locale`: its own dictionary first, then
/// the default locale's when that is another locale.
pub open spec fn translation(
    dicts: Seq<(Seq<char>, Dictionary)>,
    default: Option<Seq<char>>,
    locale: Seq<char>,
    key: Seq<char>,
) -> Option<Seq<char>> {
    let direct = lookup_in(lookup(dicts, locale), key);
    if direct is Some {
        direct
    } else {
        match default {
            Some(dl) => if dl != locale {
                lookup_in(lookup(dicts, dl), key)
            } else {
                None
            },
            None => None,
        }
    }
}

/// Dictionaries of several locales, and an optional default locale.
#[derive(Debug, Clone, Default)]
pub struct DictionarySet {
    dictionaries: Vec<(String, Dictionary)>,
    default_locale: Option<Locale>,
}

impl DictionarySet {
    /// Locale tags and their dictionaries, in the order tags were first inserted.
    pub closed spec fn dicts(&self) -> Seq<(Seq<char>, Dictionary)> {
        self.dictionaries@.map_values(|p: (String, Dictionary)| (p.0@, p.1))
    }

    /// The default locale's tag.
    pub closed spec fn default_tag(&self) -> Option<Seq<char>> {
        match self.default_locale {
            Some(l) => Some(l@),
            None => None,
        }
    }

    /// Tags are unique and every dictionary is well formed.
    pub open spec fn wf(&self) -> bool {
        &&& unique_keys(self.dicts())
        &&& forall|i: int| 0 <= i < self.dicts().len() ==> (#[trigger] self.dicts()[i]).1.wf()
    }

    /// No dictionary and no default locale.
    pub fn new() -> (r: DictionarySet)
        ensures
            r.wf(),
            r.dicts().len() == 0,
            r.default_tag() is None,
    {
        let r = DictionarySet { dictionaries: Vec::new(), default_locale: None };
        assert(r.dicts() =~= Seq::empty());
        r
    }

    /// Makes `locale` the default.
    pub fn set_default_locale(&mut self, locale: Locale)
        ensures
            final(self).dicts() == old(self).dicts(),
            final(self).default_tag() == Some(locale@),
    {
        self.default_locale = Some(locale);
    }

    /// The default locale, if set.
    pub fn default_locale(&self) -> (r: Option<&Locale>)
        ensures
            r is Some <==> self.default_tag() is Some,
            r matches Some(l) ==> self.default_tag() == Some(l@),
    {
        match &self.default_locale {
            Some(l) => Some(l),
            None => None,
        }
    }

    /// Sets the dictionary of `locale`, replacing an earlier one.
    pub fn insert(&mut self, locale: Locale, dict: Dictionary)
        requires
            old(self).wf(),
            dict.wf(),
        ensures
            final(self).wf(),
            final(self).dicts() == insert_pair(old(self).dicts(), locale@, dict),
            final(self).default_tag() == old(self).default_tag(),
    {
        proof {
            lemma_insert_pair(self.dicts(), locale@, dict);
        }
        let ghost before = self.dicts();
        let ghost lv = locale@;
        let ghost dv = dict;
        let k = owned(locale.as_str());
        match find_key(&self.dictionaries, k.as_str()) {
            Some(i) => {
                proof {
                    assert(before[i as int].0 == lv);
                    let j = choose|j: int| 0 <= j < before.len() && (#[trigger] before[j]).0 == lv;
                    if j != i {
                        assert(before[j].0 != before[i as int].0);
                    }
                }
                self.dictionaries.set(i, (k, dict));
                proof {
                    assert(self.dicts() =~= insert_pair(before, lv, dv));
                }
            },
            None => {
                proof {
                    assert(!exists|j: int| 0 <= j < before.len() && (#[trigger] before[j]).0 == lv);
                }
                self.dictionaries.push((k, dict));
                proof {
                    assert(self.dicts() =~= insert_pair(before, lv, dv));
                }
            },
        }
        proof {
            let np = self.dicts();
            assert forall|i: int| 0 <= i < np.len() implies (#[trigger] np[i]).1.wf() by {
                if i < before.len() && np[i] != (lv, dv) {
                    assert(np[i] == before[i]);
                }
            }
        }
    }

    /// The dictionary of `locale`.
    pub fn get(&self, locale: &str) -> (r: Option<&Dictionary>)
        requires
            self.wf(),
        ensures
            r is Some <==> lookup(self.dicts(), locale@) is Some,
            r matches Some(d) ==> lookup(self.dicts(), locale@) == Some(*d) && d.wf(),
    {
        match find_key(&self.dictionaries, locale) {
            Some(i) => {
                proof {
                    lemma_lookup_at(self.dicts(), i as int);
                    assert(self.dicts()[i as int].1.wf());
                }
                Some(&self.dictionaries[i].1)
            },
            None => {
                proof {
                    assert(!exists|j: int|
                        0 <= j < self.dicts().len() && (#[trigger] self.dicts()[j]).0 == locale@) by {
                        assert forall|j: int| 0 <= j < self.dicts().len() implies (
                        #[trigger] self.dicts()[j]).0 != locale@ by {
                            assert(self.dicts()[j].0 == self.dictionaries@[j].0@);
                        }
                    }
                }
                None
            },
        }
    }

    /// The locale tags that have a dictionary, in insertion order.
    pub fn locales(&self) -> (r: Vec<&str>)
        ensures
            r@.len() == self.dicts().len(),
            forall|i: int| 0 <= i < r@.len() ==> (#[trigger] r@[i])@ == self.dicts()[i].0,
    {
        let mut r: Vec<&str> = Vec::new();
        let mut i: usize = 0;
        while i < self.dictionaries.len()
            invariant
                i <= self.dictionaries@.len(),
                r@.len() == i,
                forall|j: int| 0 <= j < i ==> (#[trigger] r@[j])@ == self.dicts()[j].0,
            decreases self.dictionaries@.len() - i,
        {
            r.push(self.dictionaries[i].0.as_str());
            i = i + 1;
        }
        r
    }

    /// Number of locales.
    pub fn locale_count(&self) -> (r: usize)
        ensures
            r == self.dicts().len(),
    {
        self.dictionaries.len()
    }

    /// The message of `key` for `locale`, falling back to the default locale.
    pub fn translate(&self, locale: &str, key: &str) -> (r: Option<&str>)
        requires
            self.wf(),
        ensures
            r is Some <==> translation(self.dicts(), self.default_tag(), locale@, key@) is Some,
            r matches Some(v) ==> translation(self.dicts(), self.default_tag(), locale@, key@)
                == Some(v@),
    {
        match self.get(locale) {
            Some(dict) => match dict.get(key) {
                Some(v) => {
                    return Some(v);
                },
                None => {},
            },
            None => {},
        }
        match &self.default_locale {
            Some(default) => {
                if !str_eq(default.as_str(), locale) {
                    match self.get(default.as_str()) {
                        Some(dict) => {
                            return dict.get(key);
                        },
                        None => {},
                    }
                }
            },
            None => {},
        }
        None
    }
}

} // verus!
