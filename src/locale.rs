use vstd::prelude::*;

use crate::i18n_error::I18nError;
use crate::text::{
    chars_of, is_ascii_alnum, is_ascii_alnum_char, is_prefix_before, is_trim_of, owned,
    prefix_before, push_char, string_of, trim_bounds,
};

verus! {

/// A well-formed tag: ASCII letters and digits in non-empty subtags joined
/// by single hyphens.
pub open spec fn valid_tag(t: Seq<char>) -> bool {
    &&& t.len() > 0
    &&& forall|i: int| 0 <= i < t.len() ==> is_ascii_alnum(#[trigger] t[i]) || t[i] == '-'
    &&& t[0] != '-'
    &&& t.last() != '-'
    &&& forall|i: int| 0 <= i < t.len() - 1 ==> !(#[trigger] t[i] == '-' && t[i + 1] == '-')
}

/// A BCP 47 locale tag such as `en-US`.
#[derive(Debug, Clone, PartialEq, Eq, Hash)]
pub struct Locale(String);

impl View for Locale {
    type V = Seq<char>;

    closed spec fn view(&self) -> Seq<char> {
        self.0@
    }
}

fn invalid(locale: &Vec<char>, a: usize, b: usize, message: String) -> (r: I18nError)
    requires
        a <= b <= locale@.len(),
    ensures
        r is InvalidLocale,
        r->InvalidLocale_locale@ == locale@.subrange(a as int, b as int),
{
    I18nError::InvalidLocale { locale: string_of(locale, a, b), message }
}

impl Locale {
    /// Validates `tag`, with surrounding whitespace removed, as a locale tag.
    pub fn new(tag: &str) -> (r: Result<Locale, I18nError>)
        ensures
            forall|a: int, b: int|
                is_trim_of(a, b, tag@) ==> (#[trigger] valid_tag(tag@.subrange(a, b)) <==> r is Ok),
            forall|a: int, b: int|
                is_trim_of(a, b, tag@) ==> (r matches Ok(l) ==> l@ == #[trigger] tag@.subrange(a, b)),
            r matches Err(e) ==> e is InvalidLocale,
    {
        let all = chars_of(tag);
        let (a, b) = trim_bounds(&all);
        proof {
            assert forall|a2: int, b2: int| is_trim_of(a2, b2, tag@) implies a2 == a && b2 == b by {
                crate::text::lemma_trim_unique(a as int, b as int, a2, b2, tag@);
            }
        }
        let t = string_of(&all, a, b);
        let tv = chars_of(t.as_str());
        if tv.len() == 0 {
            return Err(invalid(&tv, 0, 0, owned("locale tag must not be empty")));
        }
        let mut start: usize = 0;
        let mut i: usize = 0;
        while i < tv.len()
            invariant
                i <= tv@.len(),
                tv@.len() > 0,
                tv@ == tag@.subrange(a as int, b as int),
                forall|a2: int, b2: int| #[trigger] is_trim_of(a2, b2, tag@) ==> a2 == a && b2 == b,
                start <= i,
                forall|k: int| 0 <= k < i ==> is_ascii_alnum(#[trigger] tv@[k]) || tv@[k] == '-',
                forall|k: int| 0 <= k < i - 1 ==> !(#[trigger] tv@[k] == '-' && tv@[k + 1] == '-'),
                i > 0 ==> tv@[0] != '-',
                start == 0 || tv@[start - 1] == '-',
                i > 0 && tv@[i - 1] == '-' ==> start == i,
            decreases tv@.len() - i,
        {
            let c = tv[i];
            if c == '-' {
                if i == start {
                    proof {
                        if i > 0 {
                            assert(tv@[i - 1] == '-' && tv@[i as int] == '-');
                        }
                    }
                    return Err(invalid(&tv, 0, tv.len(), owned("empty subtag")));
                }
                start = i + 1;
            } else if !is_ascii_alnum_char(c) {
                assert(!(is_ascii_alnum(tv@[i as int]) || tv@[i as int] == '-'));
                let mut e = i;
                while e < tv.len() && tv[e] != '-'
                    invariant
                        i <= e <= tv@.len(),
                    decreases tv@.len() - e,
                {
                    e = e + 1;
                }
                let mut message = owned("invalid characters in subtag '");
                let mut k = start;
                while k < e
                    invariant
                        start <= k <= e <= tv@.len(),
                    decreases e - k,
                {
                    push_char(&mut message, tv[k]);
                    k = k + 1;
                }
                push_char(&mut message, '\'');
                return Err(invalid(&tv, 0, tv.len(), message));
            }
            i = i + 1;
        }
        if start == tv.len() {
            return Err(invalid(&tv, 0, tv.len(), owned("empty subtag")));
        }
        assert(valid_tag(tv@));
        Ok(Locale(t))
    }

    /// The language subtag: the part before the first hyphen.
    pub fn language(&self) -> (r: &str)
        ensures
            is_prefix_before(r@, self@, '-'),
    {
        prefix_before(self.0.as_str(), '-')
    }

    /// The whole tag.
    pub fn as_str(&self) -> (r: &str)
        ensures
            r@ == self@,
    {
        self.0.as_str()
    }
}

} // verus!
