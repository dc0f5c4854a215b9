//! Translation keys used in Markdown, written as `{{t('key')}}` or
//! `{{ $t("key") }}`.
use vstd::prelude::*;

use crate::text::{chars_of, owned, string_of, sub_vec, trim_vec, trimmed};

verus! {

/// A translation key found in a Markdown file, with the 1-based line and
/// byte column of its `{{`.
#[derive(Debug, Clone)]
pub struct MdKeyUsage {
    pub key: String,
    pub file_path: String,
    pub line: u32,
    pub column: u32,
}

/// The quoted key of `t('key')` or `$t('key')` (single or double quotes),
/// whitespace around the call and inside its parentheses ignored.
pub open spec fn key_of_expression(expr: Seq<char>) -> Option<Seq<char>> {
    let e = trimmed(expr);
    let rest = if e.len() >= 3 && e[0] == '$' && e[1] == 't' && e[2] == '(' {
        Some(e.subrange(3, e.len() as int))
    } else if e.len() >= 2 && e[0] == 't' && e[1] == '(' {
        Some(e.subrange(2, e.len() as int))
    } else {
        None
    };
    match rest {
        Some(r) => if r.len() >= 1 && r.last() == ')' {
            let inner = trimmed(r.drop_last());
            if inner.len() >= 2 && ((inner[0] == '\'' && inner.last() == '\'') || (inner[0] == '"'
                && inner.last() == '"')) {
                Some(inner.subrange(1, inner.len() - 1))
            } else {
                None
            }
        } else {
            None
        },
        None => None,
    }
}

/// The key of the expression `expr`, if it is a translation call.
pub fn extract_key_from_expression(expr: &Vec<char>) -> (r: Option<String>)
    ensures
        r is Some <==> key_of_expression(expr@) is Some,
        r matches Some(k) ==> key_of_expression(expr@) == Some(k@),
{
    let e = trim_vec(expr);
    let n = e.len();
    let start: usize = if n >= 3 && e[0] == '$' && e[1] == 't' && e[2] == '(' {
        3
    } else if n >= 2 && e[0] == 't' && e[1] == '(' {
        2
    } else {
        return None;
    };
    if n - start < 1 || e[n - 1] != ')' {
        proof {
            assert(e@.subrange(start as int, n as int).len() == n - start);
            if n - start >= 1 {
                assert(e@.subrange(start as int, n as int).last() == e@[n - 1]);
            }
        }
        return None;
    }
    let body = sub_vec(&e, start, n - 1);
    proof {
        assert(body@ =~= e@.subrange(start as int, n as int).drop_last());
    }
    let inner = trim_vec(&body);
    let m = inner.len();
    if m >= 2 && ((inner[0] == '\'' && inner[m - 1] == '\'') || (inner[0] == '"' && inner[m - 1]
        == '"')) {
        Some(string_of(&inner, 1, m - 1))
    } else {
        None
    }
}

/// Bytes that `c` takes in UTF-8.
pub open spec fn width(c: char) -> u32 {
    if (c as u32) < 0x80 {
        1
    } else if (c as u32) < 0x800 {
        2
    } else if (c as u32) < 0x10000 {
        3
    } else {
        4
    }
}

fn utf8_width(c: char) -> (r: u32)
    ensures
        r == width(c),
{
    if (c as u32) < 0x80 {
        1
    } else if (c as u32) < 0x800 {
        2
    } else if (c as u32) < 0x10000 {
        3
    } else {
        4
    }
}

/// `x + k`, stopping at the largest `u32`.
pub open spec fn sat(x: u32, k: u32) -> u32 {
    if x + k > u32::MAX {
        u32::MAX
    } else {
        (x + k) as u32
    }
}

/// Line and byte column after the character `c`.
pub open spec fn step_lc(c: char, line: u32, col: u32) -> (u32, u32) {
    if c == '\n' {
        (sat(line, 1), 1)
    } else {
        (line, sat(col, width(c)))
    }
}

/// Where the content of a `{{` that starts at `j` ends: at the next `}}`, or
/// at the last character; with line and column there.
pub open spec fn inner_scan(cs: Seq<char>, j: int, line: u32, col: u32) -> (int, u32, u32)
    decreases cs.len() - j,
{
    if j < 0 || cs.len() - j <= 1 || (cs[j] == '}' && cs[j + 1] == '}') {
        (j, line, col)
    } else {
        inner_scan(cs, j + 1, step_lc(cs[j], line, col).0, step_lc(cs[j], line, col).1)
    }
}

/// The translation calls of `cs` from `i`, with the line and column of
/// their `{{`, in order.
pub open spec fn md_scan(cs: Seq<char>, i: int, line: u32, col: u32) -> Seq<(Seq<char>, u32, u32)>
    decreases cs.len() - i,
{
    if i < 0 || i >= cs.len() {
        Seq::empty()
    } else if cs[i] == '\n' {
        md_scan(cs, i + 1, sat(line, 1), 1)
    } else if cs.len() - i > 1 && cs[i] == '{' && cs[i + 1] == '{' {
        let (e, l2, c2) = inner_scan(cs, i + 2, line, sat(col, 2));
        if cs.len() - e > 1 && i + 2 <= e {
            let rest = md_scan(cs, e + 2, l2, sat(c2, 2));
            match key_of_expression(cs.subrange(i + 2, e)) {
                Some(k) => seq![(k, line, col)] + rest,
                None => rest,
            }
        } else if i < e <= cs.len() {
            md_scan(cs, e, l2, c2)
        } else {
            Seq::empty()
        }
    } else {
        md_scan(cs, i + 1, line, sat(col, width(cs[i])))
    }
}

/// `u` records the call `t` of `file_path`.
pub open spec fn usage_fits(u: MdKeyUsage, t: (Seq<char>, u32, u32), file_path: Seq<char>) -> bool {
    u.key@ == t.0 && u.line == t.1 && u.column == t.2 && u.file_path@ == file_path
}

proof fn lemma_inner_scan_bounds(cs: Seq<char>, j: int, line: u32, col: u32)
    requires
        0 <= j <= cs.len(),
    ensures
        j <= inner_scan(cs, j, line, col).0 <= cs.len(),
    decreases cs.len() - j,
{
    if !(cs.len() - j <= 1 || (cs[j] == '}' && cs[j + 1] == '}')) {
        lemma_inner_scan_bounds(cs, j + 1, step_lc(cs[j], line, col).0, step_lc(cs[j], line, col).1);
    }
}

/// Every `{{ ... }}` of `source` whose content is a translation call, in
/// order, with the line and byte column of its `{{` (both from 1; they
/// count up to the largest `u32` and stay there). An unclosed `{{` is read
/// as text.
pub fn collect_md_keys(source: &str, file_path: &str) -> (r: Vec<MdKeyUsage>)
    ensures
        r@.len() == md_scan(source@, 0, 1, 1).len(),
        forall|k: int|
            0 <= k < r@.len() ==> usage_fits(#[trigger] r@[k], md_scan(source@, 0, 1, 1)[k], file_path@),
{
    let chars = chars_of(source);
    let n = chars.len();
    let mut usages: Vec<MdKeyUsage> = Vec::new();
    let ghost mut done: Seq<(Seq<char>, u32, u32)> = Seq::empty();
    let mut line: u32 = 1;
    let mut col: u32 = 1;
    let mut i: usize = 0;
    while i < n
        invariant
            i <= n,
            n == chars@.len(),
            chars@ == source@,
            md_scan(source@, 0, 1, 1) == done + md_scan(source@, i as int, line, col),
            usages@.len() == done.len(),
            forall|k: int| 0 <= k < usages@.len() ==> usage_fits(#[trigger] usages@[k], done[k], file_path@),
        decreases n - i,
    {
        let ghost i0 = i as int;
        let ghost line0 = line;
        let ghost col0 = col;
        if chars[i] == '\n' {
            line = line.saturating_add(1);
            col = 1;
            i = i + 1;
        } else if n - i > 1 && chars[i] == '{' && chars[i + 1] == '{' {
            let start_col = col;
            let start_line = line;
            i = i + 2;
            col = col.saturating_add(2);
            let content_start = i;
            proof {
                lemma_inner_scan_bounds(chars@, content_start as int, line, col);
            }
            let ghost target = inner_scan(chars@, content_start as int, line, col);
            while n - i > 1 && !(chars[i] == '}' && chars[i + 1] == '}')
                invariant
                    content_start <= i <= n,
                    n == chars@.len(),
                    inner_scan(chars@, i as int, line, col) == target,
                decreases n - i,
            {
                if chars[i] == '\n' {
                    line = line.saturating_add(1);
                    col = 1;
                } else {
                    col = col.saturating_add(utf8_width(chars[i]));
                }
                i = i + 1;
            }
            if n - i > 1 {
                let content = sub_vec(&chars, content_start, i);
                let ghost rest = md_scan(source@, i + 2, line, sat(col, 2));
                match extract_key_from_expression(&content) {
                    Some(key) => {
                        let ghost t = (key@, start_line, start_col);
                        usages.push(
                            MdKeyUsage {
                                key,
                                file_path: owned(file_path),
                                line: start_line,
                                column: start_col,
                            },
                        );
                        proof {
                            assert(md_scan(source@, i0, line0, col0) == seq![t] + rest);
                            assert(done.push(t) + rest =~= done + (seq![t] + rest));
                            done = done.push(t);
                        }
                    },
                    None => {
                        proof {
                            assert(md_scan(source@, i0, line0, col0) == rest);
                        }
                    },
                }
                i = i + 2;
                col = col.saturating_add(2);
            } else {
                proof {
                    assert(md_scan(source@, i0, line0, col0) == md_scan(source@, i as int, line, col));
                }
            }
        } else {
            col = col.saturating_add(utf8_width(chars[i]));
            i = i + 1;
        }
    }
    proof {
        assert(done + Seq::<(Seq<char>, u32, u32)>::empty() =~= done);
    }
    usages
}

} // verus!
