//! Static checks of translation keys against a set of dictionaries.
use vstd::prelude::*;
use vstd::string::StringExecFns;

use crate::dictionary::{lookup, Dictionary, DictionarySet};
use crate::i18n_error::I18nError;
use crate::text::{owned, push_char, str_eq, views};

verus! {

/// How serious a finding is.
#[derive(Debug, Clone, Copy, PartialEq, Eq, Structural)]
pub enum Severity {
    Error,
    Warning,
    Info,
}

/// One finding of a check.
#[derive(Debug, Clone)]
pub struct Diagnostic {
    pub severity: Severity,
    pub message: String,
    pub key: Option<String>,
    pub locale: Option<String>,
}

/// `d` reports `key` for `locale` with severity `sev`.
pub open spec fn reports(d: Diagnostic, sev: Severity, key: Seq<char>, locale: Seq<char>) -> bool {
    &&& d.severity == sev
    &&& d.key is Some
    &&& d.key->Some_0@ == key
    &&& d.locale is Some
    &&& d.locale->Some_0@ == locale
}

/// `"<before>" + key + "'"`.
fn quoted_message(before: &str, key: &str) -> (r: String)
    ensures
        r@ == before@ + key@ + seq!['\''],
{
    let mut m = owned(before);
    m.append(key);
    m.append("'");
    proof {
        reveal_strlit("'");
    }
    m
}

/// Whether the key at `j` already occurs earlier in `keys`.
fn seen_before(keys: &Vec<String>, j: usize) -> (r: bool)
    requires
        j < keys@.len(),
    ensures
        r == views(keys@).subrange(0, j as int).contains(views(keys@)[j as int]),
{
    let mut i: usize = 0;
    while i < j
        invariant
            i <= j < keys@.len(),
            forall|k: int| 0 <= k < i ==> (#[trigger] keys@[k])@ != keys@[j as int]@,
        decreases j - i,
    {
        if str_eq(keys[i].as_str(), keys[j].as_str()) {
            proof {
                assert(views(keys@).subrange(0, j as int)[i as int] == views(keys@)[j as int]);
            }
            return true;
        }
        i = i + 1;
    }
    proof {
        if views(keys@).subrange(0, j as int).contains(views(keys@)[j as int]) {
            let k = choose|k: int| 0 <= k < j && views(keys@).subrange(0, j as int)[k] == views(keys@)[j as int];
            assert(keys@[k]@ == keys@[j as int]@);
        }
    }
    false
}

/// Whether `key` is among `keys`.
fn contains_key(keys: &Vec<String>, key: &str) -> (r: bool)
    ensures
        r == exists|j: int| 0 <= j < keys@.len() && (#[trigger] keys@[j])@ == key@,
{
    let mut j: usize = 0;
    while j < keys.len()
        invariant
            j <= keys@.len(),
            forall|k: int| 0 <= k < j ==> (#[trigger] keys@[k])@ != key@,
        decreases keys@.len() - j,
    {
        if str_eq(keys[j].as_str(), key) {
            return true;
        }
        j = j + 1;
    }
    false
}

/// The (key, locale) pairs that a dictionary entry `e` lacks among the
/// first `j` used keys, in order.
pub open spec fn missing_in(e: (Seq<char>, Dictionary), used: Seq<Seq<char>>, j: int) -> Seq<
    (Seq<char>, Seq<char>),
>
    decreases j,
{
    if j <= 0 {
        Seq::empty()
    } else {
        missing_in(e, used, j - 1) + if lookup(e.1.pairs(), used[j - 1]) is None
            && !used.subrange(0, j - 1).contains(used[j - 1]) {
            seq![(used[j - 1], e.0)]
        } else {
            Seq::empty()
        }
    }
}

/// The (key, locale) pairs of missing translations over the first `i`
/// locales, locale by locale.
pub open spec fn missing_upto(dicts: Seq<(Seq<char>, Dictionary)>, used: Seq<Seq<char>>, i: int) -> Seq<
    (Seq<char>, Seq<char>),
>
    decreases i,
{
    if i <= 0 {
        Seq::empty()
    } else {
        missing_upto(dicts, used, i - 1) + missing_in(dicts[i - 1], used, used.len() as int)
    }
}

/// The (key, locale) pairs of dictionary keys of entry `e` among its first
/// `k` keys that are not used, in order.
pub open spec fn unused_in(e: (Seq<char>, Dictionary), used: Seq<Seq<char>>, k: int) -> Seq<
    (Seq<char>, Seq<char>),
>
    decreases k,
{
    if k <= 0 {
        Seq::empty()
    } else {
        unused_in(e, used, k - 1) + if !used.contains(e.1.pairs()[k - 1].0) {
            seq![(e.1.pairs()[k - 1].0, e.0)]
        } else {
            Seq::empty()
        }
    }
}

/// The (key, locale) pairs of unused keys over the first `i` locales.
pub open spec fn unused_upto(dicts: Seq<(Seq<char>, Dictionary)>, used: Seq<Seq<char>>, i: int) -> Seq<
    (Seq<char>, Seq<char>),
>
    decreases i,
{
    if i <= 0 {
        Seq::empty()
    } else {
        unused_upto(dicts, used, i - 1) + unused_in(dicts[i - 1], used, dicts[i - 1].1.pairs().len() as int)
    }
}

/// `r` reports exactly `expected`, in order, with severity `sev`.
pub open spec fn reports_all(
    r: Seq<Diagnostic>,
    sev: Severity,
    expected: Seq<(Seq<char>, Seq<char>)>,
    text: Seq<char>,
) -> bool {
    &&& r.len() == expected.len()
    &&& forall|d: int|
        0 <= d < r.len() ==> reports(#[trigger] r[d], sev, expected[d].0, expected[d].1)
            && r[d].message@ == text + expected[d].0 + seq!['\'']
}

/// One error for each locale, and each used key its dictionary lacks (a key
/// listed twice is reported once), naming the key in its message.
pub fn check_missing_keys(used_keys: &Vec<String>, dict_set: &DictionarySet) -> (r: Vec<Diagnostic>)
    requires
        dict_set.wf(),
    ensures
        reports_all(r@, Severity::Error, missing_upto(dict_set.dicts(), views(used_keys@), dict_set.dicts().len() as int), "missing translation for key '"@),
{
    let ghost used = views(used_keys@);
    let ghost dicts = dict_set.dicts();
    let locales = dict_set.locales();
    let mut out: Vec<Diagnostic> = Vec::new();
    let mut i: usize = 0;
    while i < locales.len()
        invariant
            i <= locales@.len(),
            dict_set.wf(),
            dicts == dict_set.dicts(),
            used == views(used_keys@),
            locales@.len() == dicts.len(),
            forall|k: int| 0 <= k < locales@.len() ==> (#[trigger] locales@[k])@ == dicts[k].0,
            reports_all(out@, Severity::Error, missing_upto(dicts, used, i as int), "missing translation for key '"@),
        decreases locales@.len() - i,
    {
        let locale = locales[i];
        proof {
            crate::dictionary::lemma_lookup_at(dicts, i as int);
        }
        match dict_set.get(locale) {
            Some(dict) => {
                let mut j: usize = 0;
                while j < used_keys.len()
                    invariant
                        j <= used_keys@.len(),
                        i < locales@.len(),
                        dict.wf(),
                        used == views(used_keys@),
                        *dict == dicts[i as int].1,
                        locale@ == dicts[i as int].0,
                        reports_all(out@, Severity::Error, missing_upto(dicts, used, i as int) + missing_in(dicts[i as int], used, j as int), "missing translation for key '"@),
                    decreases used_keys@.len() - j,
                {
                    let key = used_keys[j].as_str();
                    let ghost before = missing_upto(dicts, used, i as int) + missing_in(dicts[i as int], used, j as int);
                    proof {
                        assert(missing_in(dicts[i as int], used, j + 1) == missing_in(dicts[i as int], used, j as int) + if lookup(dicts[i as int].1.pairs(), used[j as int]) is None && !used.subrange(0, j as int).contains(used[j as int]) {
                            seq![(used[j as int], dicts[i as int].0)]
                        } else {
                            Seq::empty()
                        });
                    }
                    if !seen_before(used_keys, j) && dict.get(key).is_none() {
                        out.push(
                            Diagnostic {
                                severity: Severity::Error,
                                message: quoted_message("missing translation for key '", key),
                                key: Some(owned(key)),
                                locale: Some(owned(locale)),
                            },
                        );
                        proof {
                            let after = missing_upto(dicts, used, i as int) + missing_in(dicts[i as int], used, j + 1);
                            assert(after =~= before.push((used[j as int], dicts[i as int].0)));
                        }
                    } else {
                        proof {
                            let after = missing_upto(dicts, used, i as int) + missing_in(dicts[i as int], used, j + 1);
                            assert(after =~= before);
                        }
                    }
                    j = j + 1;
                }
            },
            None => {
                assert(false);
            },
        }
        proof {
            assert(missing_upto(dicts, used, i + 1) == missing_upto(dicts, used, i as int) + missing_in(dicts[i as int], used, used.len() as int));
        }
        i = i + 1;
    }
    out
}

/// One warning for each locale, and each key of its dictionary that is not used.
pub fn check_unused_keys(used_keys: &Vec<String>, dict_set: &DictionarySet) -> (r: Vec<Diagnostic>)
    requires
        dict_set.wf(),
    ensures
        reports_all(r@, Severity::Warning, unused_upto(dict_set.dicts(), views(used_keys@), dict_set.dicts().len() as int), "unused translation key '"@),
{
    let ghost used = views(used_keys@);
    let ghost dicts = dict_set.dicts();
    let locales = dict_set.locales();
    let mut out: Vec<Diagnostic> = Vec::new();
    let mut i: usize = 0;
    while i < locales.len()
        invariant
            i <= locales@.len(),
            dict_set.wf(),
            dicts == dict_set.dicts(),
            used == views(used_keys@),
            locales@.len() == dicts.len(),
            forall|k: int| 0 <= k < locales@.len() ==> (#[trigger] locales@[k])@ == dicts[k].0,
            reports_all(out@, Severity::Warning, unused_upto(dicts, used, i as int), "unused translation key '"@),
        decreases locales@.len() - i,
    {
        let locale = locales[i];
        proof {
            crate::dictionary::lemma_lookup_at(dicts, i as int);
        }
        match dict_set.get(locale) {
            Some(dict) => {
                let keys = dict.keys();
                let mut k: usize = 0;
                while k < keys.len()
                    invariant
                        k <= keys@.len(),
                        i < locales@.len(),
                        used == views(used_keys@),
                        *dict == dicts[i as int].1,
                        locale@ == dicts[i as int].0,
                        keys@.len() == dict.pairs().len(),
                        forall|m: int| 0 <= m < keys@.len() ==> (#[trigger] keys@[m])@ == dict.pairs()[m].0,
                        reports_all(out@, Severity::Warning, unused_upto(dicts, used, i as int) + unused_in(dicts[i as int], used, k as int), "unused translation key '"@),
                    decreases keys@.len() - k,
                {
                    let key = keys[k];
                    let ghost before = unused_upto(dicts, used, i as int) + unused_in(dicts[i as int], used, k as int);
                    let found = contains_key(used_keys, key);
                    proof {
                        assert(found == used.contains(dicts[i as int].1.pairs()[k as int].0)) by {
                            if found {
                                let j = choose|j: int| 0 <= j < used_keys@.len() && (#[trigger] used_keys@[j])@ == key@;
                                assert(used[j] == key@);
                            }
                            if used.contains(key@) {
                                let j = choose|j: int| 0 <= j < used.len() && used[j] == key@;
                                assert(used_keys@[j]@ == key@);
                            }
                        }
                    }
                    if !found {
                        out.push(
                            Diagnostic {
                                severity: Severity::Warning,
                                message: quoted_message("unused translation key '", key),
                                key: Some(owned(key)),
                                locale: Some(owned(locale)),
                            },
                        );
                        proof {
                            let after = unused_upto(dicts, used, i as int) + unused_in(dicts[i as int], used, k + 1);
                            assert(after =~= before.push((key@, dicts[i as int].0)));
                        }
                    } else {
                        proof {
                            let after = unused_upto(dicts, used, i as int) + unused_in(dicts[i as int], used, k + 1);
                            assert(after =~= before);
                        }
                    }
                    k = k + 1;
                }
            },
            None => {
                assert(false);
            },
        }
        i = i + 1;
    }
    out
}

/// Decimal digits of `n`.
pub open spec fn decimal(n: nat) -> Seq<char>
    decreases n,
{
    if n < 10 {
        seq![((n + 48) as u8) as char]
    } else {
        decimal(n / 10).push((((n % 10) + 48) as u8) as char)
    }
}

/// `n` written in decimal.
pub fn decimal_string(n: usize) -> (r: String)
    ensures
        r@ == decimal(n as nat),
    decreases n,
{
    if n < 10 {
        let mut s = String::new();
        push_char(&mut s, ((n as u8) + 48) as char);
        proof {
            assert(s@ =~= decimal(n as nat));
        }
        s
    } else {
        let mut s = decimal_string(n / 10);
        push_char(&mut s, (((n % 10) as u8) + 48) as char);
        s
    }
}

/// The text of an error, as shown to a user.
pub fn error_text(e: &I18nError) -> (r: String) {
    match e {
        I18nError::Mf2Parse { offset, message } => {
            let mut t = owned("MF2 parse error at offset ");
            t.append(decimal_string(*offset).as_str());
            t.append(": ");
            t.append(message.as_str());
            t
        },
        I18nError::Mf2Validation { message } => {
            let mut t = owned("MF2 validation error: ");
            t.append(message.as_str());
            t
        },
        I18nError::DictionaryLoad { locale, message } => {
            let mut t = owned("dictionary load error for locale '");
            t.append(locale.as_str());
            t.append("': ");
            t.append(message.as_str());
            t
        },
        I18nError::MissingKey { key, locale } => {
            let mut t = owned("missing translation key '");
            t.append(key.as_str());
            t.append("' in locale '");
            t.append(locale.as_str());
            t.append("'");
            t
        },
        I18nError::InvalidLocale { locale, message } => {
            let mut t = owned("invalid locale '");
            t.append(locale.as_str());
            t.append("': ");
            t.append(message.as_str());
            t
        },
        I18nError::Json(e) => {
            let mut t = owned("JSON parse error: ");
            t.append(crate::i18n_error::json_error_text(e).as_str());
            t
        },
        I18nError::Yaml(e) => {
            let mut t = owned("YAML parse error: ");
            t.append(crate::i18n_error::yaml_error_text(e).as_str());
            t
        },
    }
}

/// Every diagnostic names a key and a locale, with severity error or warning.
pub open spec fn keyed(r: Seq<Diagnostic>) -> bool {
    forall|d: int|
        0 <= d < r.len() ==> (#[trigger] r[d]).key is Some && r[d].locale is Some && (r[d].severity
            == Severity::Error || r[d].severity == Severity::Warning)
}

fn keyed_diagnostic(out: &mut Vec<Diagnostic>, severity: Severity, message: String, key: &str, locale: &str)
    requires
        keyed(old(out)@),
        severity == Severity::Error || severity == Severity::Warning,
    ensures
        keyed(final(out)@),
        final(out)@.len() == old(out)@.len() + 1,
{
    out.push(Diagnostic { severity, message, key: Some(owned(key)), locale: Some(owned(locale)) });
}

/// `["a", "b"]`: the names of `a` missing from `b`, in debug notation.
fn difference_text(a: &Vec<String>, b: &Vec<String>) -> (r: (String, usize)) {
    let mut t = owned("[");
    let mut n: usize = 0;
    let mut i: usize = 0;
    while i < a.len()
        invariant
            i <= a@.len(),
            n <= i,
        decreases a@.len() - i,
    {
        let mut found = false;
        let mut j: usize = 0;
        while j < b.len()
            invariant
                j <= b@.len(),
                i < a@.len(),
            decreases b@.len() - j,
        {
            if str_eq(a[i].as_str(), b[j].as_str()) {
                found = true;
            }
            j = j + 1;
        }
        if !found {
            if n > 0 {
                t.append(", ");
            }
            t.append("\"");
            t.append(a[i].as_str());
            t.append("\"");
            n = n + 1;
        }
        i = i + 1;
    }
    t.append("]");
    (t, n)
}

/// For each key, the variables of its message in each locale, compared with
/// those of the first locale that has it: an error names the missing ones,
/// a warning the extra ones.
pub fn check_type_mismatch(dict_set: &DictionarySet) -> (r: Vec<Diagnostic>)
    requires
        dict_set.wf(),
    ensures
        keyed(r@),
{
    let locales = dict_set.locales();
    let mut all_keys: Vec<String> = Vec::new();
    let mut i: usize = 0;
    while i < locales.len()
        invariant
            i <= locales@.len(),
            dict_set.wf(),
        decreases locales@.len() - i,
    {
        match dict_set.get(locales[i]) {
            Some(dict) => {
                let keys = dict.keys();
                let mut k: usize = 0;
                while k < keys.len()
                    invariant
                        k <= keys@.len(),
                    decreases keys@.len() - k,
                {
                    if !contains_key(&all_keys, keys[k]) {
                        all_keys.push(owned(keys[k]));
                    }
                    k = k + 1;
                }
            },
            None => {},
        }
        i = i + 1;
    }
    let mut out: Vec<Diagnostic> = Vec::new();
    let mut a: usize = 0;
    while a < all_keys.len()
        invariant
            a <= all_keys@.len(),
            dict_set.wf(),
            keyed(out@),
        decreases all_keys@.len() - a,
    {
        let key = all_keys[a].as_str();
        let mut found_locales: Vec<&str> = Vec::new();
        let mut found_vars: Vec<Vec<String>> = Vec::new();
        let mut l: usize = 0;
        while l < locales.len()
            invariant
                l <= locales@.len(),
                dict_set.wf(),
                found_locales@.len() == found_vars@.len(),
            decreases locales@.len() - l,
        {
            match dict_set.get(locales[l]) {
                Some(dict) => match dict.get(key) {
                    Some(value) => match crate::mf2_parser::parse(value) {
                        Ok(msg) => {
                            found_locales.push(locales[l]);
                            found_vars.push(crate::mf2_validator::extract_variables(&msg));
                        },
                        Err(_) => {},
                    },
                    None => {},
                },
                None => {},
            }
            l = l + 1;
        }
        if found_vars.len() > 1 {
            let mut o: usize = 1;
            while o < found_vars.len()
                invariant
                    1 <= o <= found_vars@.len(),
                    found_locales@.len() == found_vars@.len(),
                    keyed(out@),
                decreases found_vars@.len() - o,
            {
                let (missing, n_missing) = difference_text(&found_vars[0], &found_vars[o]);
                let (extra, n_extra) = difference_text(&found_vars[o], &found_vars[0]);
                if n_missing > 0 {
                    let mut m = owned("locale '");
                    m.append(found_locales[o]);
                    m.append("' is missing variables ");
                    m.append(missing.as_str());
                    m.append(" (present in '");
                    m.append(found_locales[0]);
                    m.append("')");
                    keyed_diagnostic(&mut out, Severity::Error, m, key, found_locales[o]);
                }
                if n_extra > 0 {
                    let mut m = owned("locale '");
                    m.append(found_locales[o]);
                    m.append("' has extra variables ");
                    m.append(extra.as_str());
                    m.append(" (not in '");
                    m.append(found_locales[0]);
                    m.append("')");
                    keyed_diagnostic(&mut out, Severity::Warning, m, key, found_locales[o]);
                }
                o = o + 1;
            }
        }
        a = a + 1;
    }
    out
}

/// An error for each message that does not parse, and a warning for each
/// validation error of those that do.
pub fn check_syntax_errors(dict_set: &DictionarySet) -> (r: Vec<Diagnostic>)
    requires
        dict_set.wf(),
    ensures
        keyed(r@),
{
    let locales = dict_set.locales();
    let mut out: Vec<Diagnostic> = Vec::new();
    let mut i: usize = 0;
    while i < locales.len()
        invariant
            i <= locales@.len(),
            dict_set.wf(),
            keyed(out@),
        decreases locales@.len() - i,
    {
        let locale = locales[i];
        match dict_set.get(locale) {
            Some(dict) => {
                let entries = dict.iter();
                let mut k: usize = 0;
                while k < entries.len()
                    invariant
                        k <= entries@.len(),
                        keyed(out@),
                    decreases entries@.len() - k,
                {
                    let (key, value) = entries[k];
                    match crate::mf2_parser::parse(value) {
                        Err(e) => {
                            let mut m = owned("MF2 syntax error: ");
                            m.append(error_text(&e).as_str());
                            keyed_diagnostic(&mut out, Severity::Error, m, key, locale);
                        },
                        Ok(msg) => {
                            let errors = crate::mf2_validator::validate(&msg);
                            let mut v: usize = 0;
                            while v < errors.len()
                                invariant
                                    v <= errors@.len(),
                                    keyed(out@),
                                decreases errors@.len() - v,
                            {
                                let mut m = owned("MF2 validation: ");
                                m.append(error_text(&errors[v]).as_str());
                                keyed_diagnostic(&mut out, Severity::Warning, m, key, locale);
                                v = v + 1;
                            }
                        },
                    }
                    k = k + 1;
                }
            },
            None => {},
        }
        i = i + 1;
    }
    out
}

/// All four checks, one after the other.
pub fn check_all(used_keys: &Vec<String>, dict_set: &DictionarySet) -> (r: Vec<Diagnostic>)
    requires
        dict_set.wf(),
    ensures
        ({
            let miss = missing_upto(dict_set.dicts(), views(used_keys@), dict_set.dicts().len() as int);
            let unused = unused_upto(dict_set.dicts(), views(used_keys@), dict_set.dicts().len() as int);
            &&& r@.len() >= (miss.len() + unused.len()) as int
            &&& reports_all(
                r@.subrange(0, miss.len() as int),
                Severity::Error,
                miss,
                "missing translation for key '"@,
            )
            &&& reports_all(
                r@.subrange(miss.len() as int, (miss.len() + unused.len()) as int),
                Severity::Warning,
                unused,
                "unused translation key '"@,
            )
            &&& keyed(r@.subrange((miss.len() + unused.len()) as int, r@.len() as int))
        }),
{
    let mut all = check_missing_keys(used_keys, dict_set);
    let ghost m = all@;
    let mut unused = check_unused_keys(used_keys, dict_set);
    let ghost u = unused@;
    all.append(&mut unused);
    let mut types = check_type_mismatch(dict_set);
    let ghost t = types@;
    all.append(&mut types);
    let mut syntax = check_syntax_errors(dict_set);
    let ghost s = syntax@;
    all.append(&mut syntax);
    proof {
        assert(all@ =~= m + u + t + s);
        assert(all@.subrange(0, m.len() as int) =~= m);
        assert(all@.subrange(m.len() as int, (m.len() + u.len()) as int) =~= u);
        assert(all@.subrange((m.len() + u.len()) as int, all@.len() as int) =~= t + s);
        assert(keyed(t + s)) by {
            assert forall|d: int| 0 <= d < (t + s).len() implies (#[trigger] (t + s)[d]).key is Some
                && (t + s)[d].locale is Some && ((t + s)[d].severity == Severity::Error || (t
                + s)[d].severity == Severity::Warning) by {
                if d < t.len() {
                    assert((t + s)[d] == t[d]);
                } else {
                    assert((t + s)[d] == s[d - t.len()]);
                }
            }
        }
    }
    all
}

} // verus!
