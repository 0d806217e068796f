//! File names, stems and extensions of slash-separated paths.
//!
//! A path is a sequence of components separated by `/`. Empty components and
//! components that are a single dot do not count. The file name of a path is
//! its final component, unless that is `..`.

use vstd::prelude::*;
use vstd::string::StrSliceExecFns;
use crate::text::chars_of;

verus! {

/// The position of the last `c` in `s`, or -1 where `s` holds none.
pub open spec fn last_index_of(s: Seq<char>, c: char) -> int
    decreases s.len(),
{
    if s.len() == 0 {
        -1
    } else if s.last() == c {
        s.len() - 1
    } else {
        last_index_of(s.drop_last(), c)
    }
}

/// `s` without the slashes and single-dot components at its end.
pub open spec fn trimmed(s: Seq<char>) -> Seq<char>
    decreases s.len(),
{
    if s.len() == 0 {
        s
    } else if s.last() == '/' {
        trimmed(s.drop_last())
    } else if s.last() == '.' && (s.len() == 1 || s[s.len() - 2] == '/') {
        trimmed(s.drop_last())
    } else {
        s
    }
}

/// The file name of the path `p`: its final component, if it has one and that
/// is not `..`.
pub open spec fn file_name_of(p: Seq<char>) -> Option<Seq<char>> {
    let t = trimmed(p);
    let name = t.subrange(last_index_of(t, '/') + 1, t.len() as int);
    if t.len() == 0 || name == seq!['.', '.'] {
        None
    } else {
        Some(name)
    }
}

/// The extension of a file name: what follows its last dot, unless the name
/// holds no dot or only one at its start.
pub open spec fn name_extension(name: Seq<char>) -> Option<Seq<char>> {
    let dot = last_index_of(name, '.');
    if dot <= 0 {
        None
    } else {
        Some(name.subrange(dot + 1, name.len() as int))
    }
}

/// The stem of a file name: what precedes its last dot, or the whole name
/// where it holds no dot or only one at its start.
pub open spec fn name_stem(name: Seq<char>) -> Seq<char> {
    let dot = last_index_of(name, '.');
    if dot <= 0 {
        name
    } else {
        name.subrange(0, dot)
    }
}

/// The extension of the file name of the path `p`.
pub open spec fn extension_of(p: Seq<char>) -> Option<Seq<char>> {
    match file_name_of(p) {
        Some(name) => name_extension(name),
        None => None,
    }
}

/// The stem of the file name of the path `p`.
pub open spec fn file_stem_of(p: Seq<char>) -> Option<Seq<char>> {
    match file_name_of(p) {
        Some(name) => Some(name_stem(name)),
        None => None,
    }
}

/// `last_index_of` never points outside the sequence, and where it points
/// there is a `c` with none after it.
pub proof fn lemma_last_index_of(s: Seq<char>, c: char)
    ensures
        -1 <= last_index_of(s, c) < s.len(),
        last_index_of(s, c) >= 0 ==> s[last_index_of(s, c)] == c,
        forall|k: int| last_index_of(s, c) < k < s.len() ==> s[k] != c,
    decreases s.len(),
{
    if s.len() > 0 && s.last() != c {
        lemma_last_index_of(s.drop_last(), c);
        assert forall|k: int| last_index_of(s, c) < k < s.len() implies s[k] != c by {
            if k < s.len() - 1 {
                assert(s.drop_last()[k] == s[k]);
            }
        }
    }
}

/// One more than the position of the last `c` among the first `end`
/// characters of `s`; 0 where there is none.
fn after_last(s: &Vec<char>, c: char, start: usize, end: usize) -> (out: usize)
    requires
        start <= end <= s@.len(),
    ensures
        start <= out <= end,
        out as int == {
            let found = last_index_of(s@.subrange(start as int, end as int), c);
            start + found + 1
        },
{
    let ghost whole = s@.subrange(start as int, end as int);
    let mut k: usize = end;
    assert(whole.take(whole.len() as int) =~= whole);
    while k > start
        invariant
            start <= k <= end <= s@.len(),
            whole == s@.subrange(start as int, end as int),
            last_index_of(whole, c) == last_index_of(whole.take(k - start), c),
        decreases k,
    {
        let ghost part = whole.take(k - start);
        assert(part.last() == s@[k - 1]);
        if s[k - 1] == c {
            return k;
        }
        assert(part.drop_last() =~= whole.take(k - 1 - start));
        k -= 1;
    }
    assert(whole.take(0).len() == 0);
    start
}

/// The length of `trimmed(s)`, which is a prefix of `s`.
fn trimmed_len(s: &Vec<char>) -> (out: usize)
    ensures
        out <= s@.len(),
        trimmed(s@) == s@.take(out as int),
{
    let mut k: usize = s.len();
    assert(s@.take(k as int) =~= s@);
    while k > 0
        invariant
            k <= s@.len(),
            trimmed(s@) == trimmed(s@.take(k as int)),
        decreases k,
    {
        let ghost part = s@.take(k as int);
        assert(part.last() == s@[k - 1]);
        if k >= 2 {
            assert(part[part.len() - 2] == s@[k - 2]);
        }
        let drop = s[k - 1] == '/' || (s[k - 1] == '.' && (k == 1 || s[k - 2] == '/'));
        if !drop {
            return k;
        }
        assert(part.drop_last() =~= s@.take(k - 1));
        k -= 1;
    }
    k
}

/// Where the file name of the path `s` starts and ends, if it has one.
pub fn file_name_span(s: &Vec<char>) -> (out: Option<(usize, usize)>)
    ensures
        match out {
            Some((from, to)) => from <= to <= s@.len() && file_name_of(s@) == Some(
                s@.subrange(from as int, to as int),
            ),
            None => file_name_of(s@) is None,
        },
{
    let end = trimmed_len(s);
    if end == 0 {
        return None;
    }
    let start = after_last(s, '/', 0, end);
    proof {
        let t = trimmed(s@);
        assert(s@.subrange(0, end as int) =~= t);
        assert(t.subrange(start as int, end as int) =~= s@.subrange(start as int, end as int));
    }
    if end - start == 2 && s[start] == '.' && s[start + 1] == '.' {
        assert(s@.subrange(start as int, end as int) =~= seq!['.', '.']);
        return None;
    }
    proof {
        let name = s@.subrange(start as int, end as int);
        if name == seq!['.', '.'] {
            assert(name.len() == 2);
            assert(name[0] == '.' && name[1] == '.');
        }
    }
    Some((start, end))
}

/// Where the stem of the file name of the path `s` starts and ends, and
/// where its extension does, if it has them.
pub fn stem_and_extension_spans(s: &Vec<char>) -> (out: Option<
    ((usize, usize), Option<(usize, usize)>),
>)
    ensures
        match out {
            Some(((a, b), ext)) => {
                &&& a <= b <= s@.len()
                &&& file_stem_of(s@) == Some(s@.subrange(a as int, b as int))
                &&& match ext {
                    Some((c, d)) => c <= d <= s@.len() && extension_of(s@) == Some(
                        s@.subrange(c as int, d as int),
                    ),
                    None => extension_of(s@) is None,
                }
            },
            None => file_stem_of(s@) is None && extension_of(s@) is None,
        },
{
    match file_name_span(s) {
        None => None,
        Some((from, to)) => {
            let after_dot = after_last(s, '.', from, to);
            let ghost name = s@.subrange(from as int, to as int);
            proof {
                lemma_last_index_of(name, '.');
            }
            if after_dot - from <= 1 {
                Some(((from, to), None))
            } else {
                proof {
                    let dot = last_index_of(name, '.');
                    assert(name.subrange(0, dot) =~= s@.subrange(from as int, after_dot - 1));
                    assert(name.subrange(dot + 1, name.len() as int) =~= s@.subrange(
                        after_dot as int,
                        to as int,
                    ));
                }
                Some(((from, after_dot - 1), Some((after_dot, to))))
            }
        },
    }
}

/// The file name of `path`.
pub fn file_name(path: &str) -> (out: Option<String>)
    ensures
        out.deep_view() == file_name_of(path@),
{
    let chars = chars_of(path);
    match file_name_span(&chars) {
        Some((from, to)) => Some(path.substring_char(from, to).to_string()),
        None => None,
    }
}

/// The stem of the file name of `path`.
pub fn file_stem(path: &str) -> (out: Option<String>)
    ensures
        out.deep_view() == file_stem_of(path@),
{
    let chars = chars_of(path);
    match stem_and_extension_spans(&chars) {
        Some(((a, b), _)) => Some(path.substring_char(a, b).to_string()),
        None => None,
    }
}

/// The extension of the file name of `path`.
pub fn extension(path: &str) -> (out: Option<String>)
    ensures
        out.deep_view() == extension_of(path@),
{
    let chars = chars_of(path);
    match stem_and_extension_spans(&chars) {
        Some((_, Some((c, d)))) => Some(path.substring_char(c, d).to_string()),
        _ => None,
    }
}

} // verus!
