//! Dictionary files as trees of keys, and their flattening into dotted keys.
use vstd::prelude::*;
use vstd::string::StringExecFns;

use crate::dictionary::Dictionary;
use crate::key::KeyPath;
use crate::text::owned;

verus! {

/// The content of a dictionary file: messages, nested groups, and the
/// other values of the format.
#[derive(Debug)]
pub enum DictValue {
    Text(String),
    Group(Vec<(DictKey, DictValue)>),
    Null,
    Bool(bool),
    /// A number as the format writes it.
    Number(String),
    /// Any other value as the format writes it.
    Written(String),
}

/// A key of a group: a string, or another value as the format writes it.
#[derive(Debug)]
pub enum DictKey {
    Text(String),
    Written(String),
}

/// The message stored for a value that is not a group: null is the empty
/// message, booleans are `true` and `false`, anything else its text.
pub open spec fn message_of(v: DictValue) -> Seq<char> {
    match v {
        DictValue::Text(s) => s@,
        DictValue::Null => Seq::empty(),
        DictValue::Bool(b) => if b {
            seq!['t', 'r', 'u', 'e']
        } else {
            seq!['f', 'a', 'l', 's', 'e']
        },
        DictValue::Number(s) => s@,
        DictValue::Written(s) => s@,
        DictValue::Group(_) => Seq::empty(),
    }
}

/// The text of a key.
pub open spec fn key_text(k: DictKey) -> Seq<char> {
    match k {
        DictKey::Text(s) => s@,
        DictKey::Written(s) => s@,
    }
}

fn message(v: &DictValue) -> (r: String)
    ensures
        r@ == message_of(*v),
{
    match v {
        DictValue::Text(s) => owned(s.as_str()),
        DictValue::Null => String::new(),
        DictValue::Bool(b) => {
            let mut t = String::new();
            if *b {
                crate::text::push_char(&mut t, 't');
                crate::text::push_char(&mut t, 'r');
                crate::text::push_char(&mut t, 'u');
                crate::text::push_char(&mut t, 'e');
            } else {
                crate::text::push_char(&mut t, 'f');
                crate::text::push_char(&mut t, 'a');
                crate::text::push_char(&mut t, 'l');
                crate::text::push_char(&mut t, 's');
                crate::text::push_char(&mut t, 'e');
            }
            proof {
                assert(t@ =~= message_of(*v));
            }
            t
        },
        DictValue::Number(s) => owned(s.as_str()),
        DictValue::Written(s) => owned(s.as_str()),
        DictValue::Group(_) => String::new(),
    }
}

fn key_string(k: &DictKey) -> (r: &str)
    ensures
        r@ == key_text(*k),
{
    match k {
        DictKey::Text(s) => s.as_str(),
        DictKey::Written(s) => s.as_str(),
    }
}

/// `prefix.key`.
fn dotted(prefix: &str, key: &str) -> (r: String)
    ensures
        r@ == prefix@ + seq!['.'] + key@,
{
    let mut s = owned(prefix);
    crate::text::push_char(&mut s, '.');
    s.append(key);
    s
}

/// The pairs `d` after each pair of `pairs` from `i` on goes in under
/// `prefix.key`: a group by its own pairs, in order, any other value as its
/// message.
pub open spec fn flat_pairs(
    pairs: Vec<(DictKey, DictValue)>,
    prefix: Seq<char>,
    i: int,
    d: Seq<(Seq<char>, Seq<char>)>,
) -> Seq<(Seq<char>, Seq<char>)>
    decreases pairs, pairs@.len() - i,
    via flat_pairs_decreases
{
    if i < 0 || i >= pairs@.len() {
        d
    } else {
        let full = prefix + seq!['.'] + key_text(pairs@[i].0);
        let d2 = match pairs@[i].1 {
            DictValue::Group(nested) => flat_pairs(nested, full, 0, d),
            v => crate::dictionary::insert_pair(d, full, message_of(v)),
        };
        flat_pairs(pairs, prefix, i + 1, d2)
    }
}

#[via_fn]
proof fn flat_pairs_decreases(
    pairs: Vec<(DictKey, DictValue)>,
    prefix: Seq<char>,
    i: int,
    d: Seq<(Seq<char>, Seq<char>)>,
) {
    if 0 <= i < pairs@.len() {
        assert(decreases_to!(pairs => pairs@[i]));
        assert(decreases_to!(pairs@[i] => pairs@[i].1));
    }
}

/// Every value of `pairs` that is not a group goes into `dict` under
/// `prefix.key` with its message (`message_of`); groups are flattened
/// recursively under their dotted key.
pub fn flatten_into(pairs: &Vec<(DictKey, DictValue)>, prefix: &str, dict: &mut Dictionary)
    requires
        old(dict).wf(),
    ensures
        final(dict).wf(),
        final(dict).pairs() == flat_pairs(*pairs, prefix@, 0, old(dict).pairs()),
        pairs@.len() > 0 && !(pairs@.last().1 is Group) ==> crate::dictionary::lookup(
            final(dict).pairs(),
            prefix@ + seq!['.'] + key_text(pairs@.last().0),
        ) == Some(message_of(pairs@.last().1)),
    decreases pairs,
{
    let mut i: usize = 0;
    while i < pairs.len()
        invariant
            i <= pairs@.len(),
            dict.wf(),
            flat_pairs(*pairs, prefix@, i as int, dict.pairs()) == flat_pairs(
                *pairs,
                prefix@,
                0,
                old(dict).pairs(),
            ),
            i > 0 && !(pairs@[i - 1].1 is Group) ==> crate::dictionary::lookup(
                dict.pairs(),
                prefix@ + seq!['.'] + key_text(pairs@[i - 1].0),
            ) == Some(message_of(pairs@[i - 1].1)),
        decreases pairs@.len() - i,
    {
        let (key, value) = &pairs[i];
        let full = dotted(prefix, key_string(key));
        proof {
            assert(decreases_to!(pairs => pairs@[i as int]));
        }
        match value {
            DictValue::Group(nested) => {
                proof {
                    assert(decreases_to!(pairs@[i as int] => pairs@[i as int].1));
                }
                flatten_into(nested, full.as_str(), dict);
            },
            _ => {
                let m = message(value);
                dict.insert(KeyPath::new(full.as_str()), m);
            },
        }
        i = i + 1;
    }
}

} // verus!
