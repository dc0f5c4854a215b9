use vstd::prelude::*;

use crate::text::{
    count_char, is_prefix_before, is_split, is_suffix_after, owned, prefix_before, split_char,
    suffix_after, views,
};

verus! {

/// A dot-separated translation key such as `common.greeting`.
#[derive(Debug, Clone, PartialEq, Eq, Hash)]
pub struct KeyPath(String);

impl View for KeyPath {
    type V = Seq<char>;

    closed spec fn view(&self) -> Seq<char> {
        self.0@
    }
}

impl KeyPath {
    /// The key path written as `path`.
    pub fn new(path: &str) -> (r: KeyPath)
        ensures
            r@ == path@,
    {
        KeyPath(owned(path))
    }

    /// The key as written.
    pub fn as_str(&self) -> (r: &str)
        ensures
            r@ == self@,
    {
        self.0.as_str()
    }

    /// The segments between the dots, in order.
    pub fn segments(&self) -> (r: Vec<String>)
        ensures
            is_split(views(r@), self@, '.'),
    {
        split_char(self.0.as_str(), '.')
    }

    /// The first segment.
    pub fn namespace(&self) -> (r: &str)
        ensures
            is_prefix_before(r@, self@, '.'),
    {
        prefix_before(self.0.as_str(), '.')
    }

    /// The last segment.
    pub fn leaf(&self) -> (r: &str)
        ensures
            is_suffix_after(r@, self@, '.'),
    {
        suffix_after(self.0.as_str(), '.')
    }

    /// The number of segments: one more than the number of dots.
    pub fn depth(&self) -> (r: usize)
        ensures
            r == count_char(self@, '.') + 1 || (r == usize::MAX && count_char(self@, '.') + 1
                > usize::MAX),
    {
        let chars = crate::text::chars_of(self.0.as_str());
        let mut n: usize = 0;
        let mut i: usize = 0;
        while i < chars.len()
            invariant
                i <= chars@.len(),
                chars@ == self@,
                n == count_char(chars@.subrange(0, i as int), '.'),
                n <= i,
            decreases chars@.len() - i,
        {
            proof {
                assert(chars@.subrange(0, i + 1).drop_last() =~= chars@.subrange(0, i as int));
            }
            if chars[i] == '.' {
                n = n + 1;
            }
            i = i + 1;
        }
        proof {
            assert(chars@.subrange(0, chars@.len() as int) =~= chars@);
        }
        if n < usize::MAX {
            n + 1
        } else {
            n
        }
    }
}

} // verus!
