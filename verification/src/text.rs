//! Character-level operations on strings.
//!
//! Every string is seen through its view, a `Seq<char>`. The executable
//! functions work on vectors of characters; `chars_of` makes one from a string.

use vstd::prelude::*;
use vstd::string::{StrSliceExecFns, StringExecFns};

verus! {

/// `p` occurs in `s` at position `i`.
pub open spec fn occurs_at(s: Seq<char>, p: Seq<char>, i: int) -> bool {
    0 <= i && i + p.len() <= s.len() && s.subrange(i, i + p.len()) == p
}

/// `p` occurs somewhere in `s`.
pub open spec fn has_substring(s: Seq<char>, p: Seq<char>) -> bool {
    exists|i: int| occurs_at(s, p, i)
}

/// `s` begins with `p`.
pub open spec fn has_prefix(s: Seq<char>, p: Seq<char>) -> bool {
    occurs_at(s, p, 0)
}

/// The number of characters from position `from` up to the next line feed,
/// or up to the end of `s` where there is none.
pub open spec fn line_len(s: Seq<char>, from: int) -> nat
    decreases s.len() - from,
{
    if from < 0 || from >= s.len() || s[from] == '\n' {
        0
    } else {
        1 + line_len(s, from + 1)
    }
}

/// The line that runs from `from` to `end`: without the carriage return
/// before a line feed that ends it.
pub open spec fn line_body(s: Seq<char>, from: int, end: int) -> Seq<char> {
    if end < s.len() && from < end && s[end - 1] == '\r' {
        s.subrange(from, end - 1)
    } else {
        s.subrange(from, end)
    }
}

/// The lines of `s` that start at or after position `from`.
pub open spec fn lines_from(s: Seq<char>, from: int) -> Seq<Seq<char>>
    decreases s.len() - from,
{
    if from < 0 || from >= s.len() {
        Seq::empty()
    } else {
        let end = from + line_len(s, from);
        if end >= s.len() {
            seq![line_body(s, from, end)]
        } else {
            seq![line_body(s, from, end)] + lines_from(s, end + 1)
        }
    }
}

/// The lines of `s`. A line ends at a line feed or at the end of the text; the
/// line feed is not part of the line, nor is a carriage return directly before
/// it. A line feed at the very end starts no further line.
pub open spec fn lines_of(s: Seq<char>) -> Seq<Seq<char>> {
    lines_from(s, 0)
}

/// The code of `c` with the upper-case ASCII letters folded onto the
/// lower-case ones.
pub open spec fn ascii_fold(c: char) -> u32 {
    if 'A' <= c && c <= 'Z' {
        (c as u32 + 32) as u32
    } else {
        c as u32
    }
}

/// `a` and `b` are equal up to the case of their ASCII letters.
pub open spec fn eq_ignore_ascii_case(a: Seq<char>, b: Seq<char>) -> bool {
    a.len() == b.len() && forall|i: int| 0 <= i < a.len() ==> ascii_fold(a[i]) == ascii_fold(b[i])
}

/// `a` comes strictly before `b` in the lexicographic order of the character
/// codes.
pub open spec fn lex_lt(a: Seq<char>, b: Seq<char>) -> bool
    decreases a.len(),
{
    if b.len() == 0 {
        false
    } else if a.len() == 0 {
        true
    } else if a[0] != b[0] {
        (a[0] as int) < (b[0] as int)
    } else {
        lex_lt(a.drop_first(), b.drop_first())
    }
}

/// No string comes before itself.
pub proof fn lemma_lex_irreflexive(a: Seq<char>)
    ensures
        !lex_lt(a, a),
    decreases a.len(),
{
    if a.len() > 0 {
        lemma_lex_irreflexive(a.drop_first());
    }
}

/// Of two strings at most one comes before the other.
pub proof fn lemma_lex_asymmetric(a: Seq<char>, b: Seq<char>)
    requires
        lex_lt(a, b),
    ensures
        !lex_lt(b, a),
    decreases a.len(),
{
    if a.len() > 0 && b.len() > 0 && a[0] == b[0] {
        lemma_lex_asymmetric(a.drop_first(), b.drop_first());
    }
}

/// Two strings of which neither comes before the other are equal.
pub proof fn lemma_lex_total(a: Seq<char>, b: Seq<char>)
    requires
        !lex_lt(a, b),
        !lex_lt(b, a),
    ensures
        a == b,
    decreases a.len(),
{
    if a.len() == 0 || b.len() == 0 {
        assert(a =~= b);
    } else {
        assert(a[0] == b[0]);
        lemma_lex_total(a.drop_first(), b.drop_first());
        assert(a =~= seq![a[0]] + a.drop_first());
        assert(b =~= seq![b[0]] + b.drop_first());
    }
}

/// The order is transitive.
pub proof fn lemma_lex_transitive(a: Seq<char>, b: Seq<char>, c: Seq<char>)
    requires
        lex_lt(a, b),
        lex_lt(b, c),
    ensures
        lex_lt(a, c),
    decreases a.len(),
{
    if a.len() > 0 && a[0] == b[0] && b[0] == c[0] {
        lemma_lex_transitive(a.drop_first(), b.drop_first(), c.drop_first());
    }
}

/// The characters of `s`, in order.
pub fn chars_of(s: &str) -> (out: Vec<char>)
    ensures
        out@ == s@,
{
    let mut out: Vec<char> = Vec::new();
    for c in it: s.chars()
        invariant
            out@ == s@.subrange(0, it.index()),
            it.seq() == s@,
    {
        out.push(c);
    }
    out
}

/// Whether `a` and `b` hold the same characters.
pub fn str_eq(a: &str, b: &str) -> (out: bool)
    ensures
        out == (a@ == b@),
{
    let x = a.to_owned();
    let y = b.to_owned();
    x == y
}

/// Whether `p` occurs in `s` at position `i`.
pub fn matches_at(s: &Vec<char>, p: &Vec<char>, i: usize) -> (out: bool)
    ensures
        out == occurs_at(s@, p@, i as int),
{
    if p.len() > s.len() || i > s.len() - p.len() {
        return false;
    }
    let mut j: usize = 0;
    while j < p.len()
        invariant
            j <= p@.len(),
            i + p@.len() <= s@.len() <= usize::MAX,
            forall|k: int| 0 <= k < j ==> s@[i + k] == p@[k],
        decreases p@.len() - j,
    {
        if s[i + j] != p[j] {
            proof {
                assert(s@.subrange(i as int, i + p@.len())[j as int] == s@[i + j]);
            }
            return false;
        }
        j += 1;
    }
    assert(s@.subrange(i as int, i + p@.len()) =~= p@);
    true
}

/// Whether `s` begins with `p`.
pub fn starts_with(s: &Vec<char>, p: &Vec<char>) -> (out: bool)
    ensures
        out == has_prefix(s@, p@),
{
    matches_at(s, p, 0)
}

/// Whether `p` occurs somewhere in `s`.
pub fn contains(s: &Vec<char>, p: &Vec<char>) -> (out: bool)
    ensures
        out == has_substring(s@, p@),
{
    if p.len() > s.len() {
        return false;
    }
    let last: usize = s.len() - p.len();
    let mut i: usize = 0;
    loop
        invariant
            i <= last,
            last == s@.len() - p@.len(),
            forall|k: int| 0 <= k < i ==> !occurs_at(s@, p@, k),
        decreases last - i,
    {
        if matches_at(s, p, i) {
            return true;
        }
        if i == last {
            return false;
        }
        i += 1;
    }
}

/// Whether `a` and `b` are equal up to the case of their ASCII letters.
pub fn equals_ignore_ascii_case(a: &Vec<char>, b: &Vec<char>) -> (out: bool)
    ensures
        out == eq_ignore_ascii_case(a@, b@),
{
    if a.len() != b.len() {
        return false;
    }
    let mut i: usize = 0;
    while i < a.len()
        invariant
            i <= a@.len(),
            a@.len() == b@.len(),
            forall|k: int| 0 <= k < i ==> ascii_fold(a@[k]) == ascii_fold(b@[k]),
        decreases a@.len() - i,
    {
        if fold_ascii(a[i]) != fold_ascii(b[i]) {
            return false;
        }
        i += 1;
    }
    true
}

/// The code of `c` with the upper-case ASCII letters folded onto the
/// lower-case ones.
pub fn fold_ascii(c: char) -> (out: u32)
    ensures
        out == ascii_fold(c),
{
    if 'A' <= c && c <= 'Z' {
        c as u32 + 32
    } else {
        c as u32
    }
}

/// Whether `a` comes strictly before `b` in the lexicographic order of the
/// character codes.
pub fn lex_less(a: &Vec<char>, b: &Vec<char>) -> (out: bool)
    ensures
        out == lex_lt(a@, b@),
{
    let mut i: usize = 0;
    assert(a@.skip(0) =~= a@ && b@.skip(0) =~= b@);
    while i < a.len() && i < b.len()
        invariant
            i <= a@.len(),
            i <= b@.len(),
            lex_lt(a@, b@) == lex_lt(a@.skip(i as int), b@.skip(i as int)),
        decreases a@.len() - i,
    {
        let ghost x = a@.skip(i as int);
        let ghost y = b@.skip(i as int);
        assert(x.len() > 0 && y.len() > 0);
        assert(x[0] == a@[i as int] && y[0] == b@[i as int]);
        if a[i] != b[i] {
            return a[i] < b[i];
        }
        assert(x.drop_first() =~= a@.skip(i + 1));
        assert(y.drop_first() =~= b@.skip(i + 1));
        i += 1;
    }
    i < b.len()
}

/// Without a line feed between `from` and `to`, the line that starts at `from`
/// runs on through `to`.
pub proof fn lemma_line_len_split(s: Seq<char>, from: int, to: int)
    requires
        0 <= from <= to <= s.len(),
        forall|k: int| from <= k < to ==> s[k] != '\n',
    ensures
        line_len(s, from) == (to - from) + line_len(s, to),
    decreases to - from,
{
    if from < to {
        lemma_line_len_split(s, from + 1, to);
    }
}

/// The lines of `text`.
pub fn lines(text: &str) -> (out: Vec<String>)
    ensures
        out.deep_view() == lines_of(text@),
{
    let chars = chars_of(text);
    let ghost s = text@;
    let mut out: Vec<String> = Vec::new();
    let mut start: usize = 0;
    let mut i: usize = 0;
    assert(out.deep_view() =~= Seq::<Seq<char>>::empty());
    while i < chars.len()
        invariant
            chars@ == s,
            s == text@,
            start <= i <= s.len(),
            forall|k: int| start <= k < i ==> s[k] != '\n',
            out.deep_view() + lines_from(s, start as int) == lines_of(s),
        decreases s.len() - i,
    {
        if chars[i] == '\n' {
            proof {
                lemma_line_len_split(s, start as int, i as int);
                assert(line_len(s, i as int) == 0);
            }
            let end: usize = if start < i && chars[i - 1] == '\r' {
                i - 1
            } else {
                i
            };
            let line = text.substring_char(start, end).to_string();
            assert(line@ == line_body(s, start as int, i as int));
            let ghost before = out.deep_view();
            out.push(line);
            proof {
                assert(out.deep_view() =~= before + seq![line@]);
                assert(before + (seq![line@] + lines_from(s, i + 1)) =~= (before + seq![line@])
                    + lines_from(s, i + 1));
            }
            start = i + 1;
        }
        i += 1;
    }
    if start < chars.len() {
        proof {
            lemma_line_len_split(s, start as int, s.len() as int);
            assert(line_len(s, s.len() as int) == 0);
            assert(lines_from(s, s.len() as int + 1) =~= Seq::<Seq<char>>::empty());
        }
        let line = text.substring_char(start, chars.len()).to_string();
        let ghost before = out.deep_view();
        out.push(line);
        proof {
            assert(out.deep_view() =~= before + seq![line@]);
            assert(seq![line@] + Seq::<Seq<char>>::empty() =~= seq![line@]);
        }
    } else {
        assert(lines_from(s, start as int) =~= Seq::<Seq<char>>::empty());
        assert(out.deep_view() + Seq::<Seq<char>>::empty() =~= out.deep_view());
    }
    out
}

/// What `str::to_lowercase` makes of a string with the characters `s`.
pub uninterp spec fn lowercase(s: Seq<char>) -> Seq<char>;

/// The lower-case form of `s`, by `str::to_lowercase` of the standard
/// library. The contract only names the result: the Unicode case mapping is
/// not restated here, and nothing is claimed of it but that it depends on the
/// characters of `s` alone.
#[verifier::external_body]
pub(crate) fn to_lowercase(s: &str) -> (out: String)
    ensures
        out@ == lowercase(s@),
{
    s.to_lowercase()
}


/// Whether `v` holds a string with the characters of `s`.
pub fn contains_string(v: &Vec<String>, s: &String) -> (out: bool)
    ensures
        out == v.deep_view().contains(s@),
{
    let mut i: usize = 0;
    while i < v.len()
        invariant
            i <= v@.len(),
            forall|k: int| 0 <= k < i ==> v.deep_view()[k] != s@,
        decreases v@.len() - i,
    {
        if v[i] == *s {
            assert(v.deep_view()[i as int] == s@);
            return true;
        }
        i += 1;
    }
    false
}

/// The strings of `v` other than `s`, in their order.
pub fn without_string(v: &Vec<String>, s: &String) -> (out: Vec<String>)
    ensures
        out.deep_view() == v.deep_view().filter(|c: Seq<char>| c != s@),
{
    let ghost keep = |c: Seq<char>| c != s@;
    let ghost all = v.deep_view();
    let mut out: Vec<String> = Vec::new();
    let mut i: usize = 0;
    proof {
        reveal(Seq::filter);
        assert(all.take(0).filter(keep) =~= Seq::<Seq<char>>::empty());
        assert(out.deep_view() =~= Seq::<Seq<char>>::empty());
    }
    while i < v.len()
        invariant
            i <= v@.len(),
            all == v.deep_view(),
            keep == (|c: Seq<char>| c != s@),
            out.deep_view() == all.take(i as int).filter(keep),
        decreases v@.len() - i,
    {
        let ghost before = out.deep_view();
        proof {
            reveal(Seq::filter);
            assert(all.take(i + 1).drop_last() =~= all.take(i as int));
            assert(all.take(i + 1).last() == v@[i as int]@);
        }
        if v[i] != *s {
            out.push(v[i].clone());
            assert(out.deep_view() =~= before.push(v@[i as int]@));
        }
        i += 1;
    }
    assert(all.take(v@.len() as int) =~= all);
    out
}

/// The number of characters from position `from` up to the next `sep`, or
/// up to the end of `s` where there is none.
pub open spec fn piece_len(s: Seq<char>, from: int, sep: char) -> nat
    decreases s.len() - from,
{
    if from < 0 || from >= s.len() || s[from] == sep {
        0
    } else {
        1 + piece_len(s, from + 1, sep)
    }
}

/// The pieces of `s` between separators, from position `from` on.
pub open spec fn pieces_from(s: Seq<char>, from: int, sep: char) -> Seq<Seq<char>>
    decreases s.len() - from,
{
    if from < 0 || from > s.len() {
        Seq::empty()
    } else {
        let end = from + piece_len(s, from, sep);
        if end >= s.len() {
            seq![s.subrange(from, end)]
        } else {
            seq![s.subrange(from, end)] + pieces_from(s, end + 1, sep)
        }
    }
}

/// The pieces into which the separators cut `s`: one more than there are
/// separators, empty pieces included.
pub open spec fn split_on(s: Seq<char>, sep: char) -> Seq<Seq<char>> {
    pieces_from(s, 0, sep)
}

/// Without a separator between `from` and `to`, the piece that starts at
/// `from` runs on through `to`.
pub proof fn lemma_piece_len_split(s: Seq<char>, from: int, to: int, sep: char)
    requires
        0 <= from <= to <= s.len(),
        forall|k: int| from <= k < to ==> s[k] != sep,
    ensures
        piece_len(s, from, sep) == (to - from) + piece_len(s, to, sep),
    decreases to - from,
{
    if from < to {
        lemma_piece_len_split(s, from + 1, to, sep);
    }
}

/// The pieces into which `sep` cuts `text`.
pub fn split(text: &str, sep: char) -> (out: Vec<String>)
    ensures
        out.deep_view() == split_on(text@, sep),
{
    let chars = chars_of(text);
    let ghost s = text@;
    let mut out: Vec<String> = Vec::new();
    let mut start: usize = 0;
    let mut i: usize = 0;
    assert(out.deep_view() =~= Seq::<Seq<char>>::empty());
    while i < chars.len()
        invariant
            chars@ == s,
            s == text@,
            start <= i <= s.len(),
            forall|k: int| start <= k < i ==> s[k] != sep,
            out.deep_view() + pieces_from(s, start as int, sep) == split_on(s, sep),
        decreases s.len() - i,
    {
        if chars[i] == sep {
            proof {
                lemma_piece_len_split(s, start as int, i as int, sep);
                assert(piece_len(s, i as int, sep) == 0);
            }
            let piece = text.substring_char(start, i).to_string();
            let ghost before = out.deep_view();
            out.push(piece);
            proof {
                assert(out.deep_view() =~= before + seq![piece@]);
                assert(before + (seq![piece@] + pieces_from(s, i + 1, sep)) =~= (before
                    + seq![piece@]) + pieces_from(s, i + 1, sep));
            }
            start = i + 1;
        }
        i += 1;
    }
    proof {
        lemma_piece_len_split(s, start as int, s.len() as int, sep);
        assert(piece_len(s, s.len() as int, sep) == 0);
    }
    let piece = text.substring_char(start, chars.len()).to_string();
    let ghost before = out.deep_view();
    out.push(piece);
    assert(out.deep_view() =~= before + seq![piece@]);
    out
}

/// The character of the decimal digit `d`.
pub open spec fn digit_char(d: int) -> char {
    if d == 0 {
        '0'
    } else if d == 1 {
        '1'
    } else if d == 2 {
        '2'
    } else if d == 3 {
        '3'
    } else if d == 4 {
        '4'
    } else if d == 5 {
        '5'
    } else if d == 6 {
        '6'
    } else if d == 7 {
        '7'
    } else if d == 8 {
        '8'
    } else {
        '9'
    }
}

/// The decimal numeral of `n`, without leading zeros.
pub open spec fn decimal_of(n: nat) -> Seq<char>
    decreases n,
{
    if n < 10 {
        seq![digit_char(n as int)]
    } else {
        decimal_of(n / 10).push(digit_char((n % 10) as int))
    }
}

/// The decimal numeral of the integer `n`, with a minus sign where it is
/// negative.
pub open spec fn signed_decimal_of(n: int) -> Seq<char> {
    if n < 0 {
        seq!['-'] + decimal_of((-n) as nat)
    } else {
        decimal_of(n as nat)
    }
}

/// The numeral of the decimal digit `d`.
fn digit_str(d: u128) -> (out: &'static str)
    requires
        d < 10,
    ensures
        out@ == seq![digit_char(d as int)],
{
    proof {
        reveal_strlit("0");
        reveal_strlit("1");
        reveal_strlit("2");
        reveal_strlit("3");
        reveal_strlit("4");
        reveal_strlit("5");
        reveal_strlit("6");
        reveal_strlit("7");
        reveal_strlit("8");
        reveal_strlit("9");
    }
    let out = if d == 0 {
        "0"
    } else if d == 1 {
        "1"
    } else if d == 2 {
        "2"
    } else if d == 3 {
        "3"
    } else if d == 4 {
        "4"
    } else if d == 5 {
        "5"
    } else if d == 6 {
        "6"
    } else if d == 7 {
        "7"
    } else if d == 8 {
        "8"
    } else {
        "9"
    };
    assert(out@ =~= seq![digit_char(d as int)]);
    out
}

/// The decimal numeral of `n`.
pub fn decimal(n: u128) -> (out: String)
    ensures
        out@ == decimal_of(n as nat),
{
    let mut digits: Vec<u128> = Vec::new();
    let mut m: u128 = n;
    let ghost mut tail: Seq<char> = Seq::empty();
    assert(decimal_of(m as nat) + tail =~= decimal_of(n as nat));
    while m >= 10
        invariant
            decimal_of(n as nat) == decimal_of(m as nat) + tail,
            tail.len() == digits@.len(),
            forall|k: int| 0 <= k < digits@.len() ==> digits@[k] < 10 && tail[tail.len() - 1 - k]
                == digit_char(digits@[k] as int),
        decreases m,
    {
        let d = m % 10;
        let ghost old_tail = tail;
        proof {
            tail = seq![digit_char(d as int)] + tail;
            assert(decimal_of(m as nat) == decimal_of((m / 10) as nat).push(digit_char(d as int)));
            assert(decimal_of((m / 10) as nat).push(digit_char(d as int)) + old_tail =~= decimal_of(
                (m / 10) as nat,
            ) + tail);
        }
        digits.push(d);
        proof {
            assert forall|k: int| 0 <= k < digits@.len() implies digits@[k] < 10 && tail[tail.len()
                - 1 - k] == digit_char(digits@[k] as int) by {
                if k < digits@.len() - 1 {
                    assert(tail[tail.len() - 1 - k] == old_tail[old_tail.len() - 1 - k]);
                }
            }
        }
        m = m / 10;
    }
    let mut out = digit_str(m).to_string();
    let mut k: usize = digits.len();
    assert(tail.take(0) =~= Seq::<char>::empty());
    assert(out@ =~= decimal_of(m as nat) + tail.take(0));
    while k > 0
        invariant
            k <= digits@.len(),
            tail.len() == digits@.len(),
            forall|j: int| 0 <= j < digits@.len() ==> digits@[j] < 10 && tail[tail.len() - 1 - j]
                == digit_char(digits@[j] as int),
            out@ == decimal_of(m as nat) + tail.take(digits@.len() - k),
        decreases k,
    {
        let ghost at = digits@.len() - k;
        let ghost before = out@;
        out.append(digit_str(digits[k - 1]));
        proof {
            assert(tail[at] == digit_char(digits@[k - 1] as int));
            assert(tail.take(at + 1) =~= tail.take(at).push(tail[at]));
            assert(out@ =~= decimal_of(m as nat) + tail.take(at + 1));
        }
        k -= 1;
    }
    assert(tail.take(tail.len() as int) =~= tail);
    out
}

/// The decimal numeral of the integer `n`.
pub fn signed_decimal(n: i64) -> (out: String)
    ensures
        out@ == signed_decimal_of(n as int),
{
    if n < 0 {
        let magnitude: u128 = (-(n + 1)) as u128 + 1;
        let mut out = "-".to_string();
        proof {
            reveal_strlit("-");
            assert("-"@ =~= seq!['-']);
        }
        let digits = decimal(magnitude);
        out.append(digits.as_str());
        out
    } else {
        decimal(n as u128)
    }
}

/// Whether `c` is white space: one of the characters with the Unicode
/// property White_Space.
pub open spec fn white_space(c: char) -> bool {
    ||| '\u{9}' <= c && c <= '\u{d}'
    ||| c == ' '
    ||| c == '\u{85}'
    ||| c == '\u{a0}'
    ||| c == '\u{1680}'
    ||| '\u{2000}' <= c && c <= '\u{200a}'
    ||| c == '\u{2028}'
    ||| c == '\u{2029}'
    ||| c == '\u{202f}'
    ||| c == '\u{205f}'
    ||| c == '\u{3000}'
}

/// Whether `c` is white space.
pub fn is_whitespace(c: char) -> (out: bool)
    ensures
        out == white_space(c),
{
    ('\u{9}' <= c && c <= '\u{d}') || c == ' ' || c == '\u{85}' || c == '\u{a0}' || c == '\u{1680}'
        || ('\u{2000}' <= c && c <= '\u{200a}') || c == '\u{2028}' || c == '\u{2029}' || c
        == '\u{202f}' || c == '\u{205f}' || c == '\u{3000}'
}

/// `s` holds nothing but white space.
pub open spec fn is_blank(s: Seq<char>) -> bool {
    forall|i: int| 0 <= i < s.len() ==> white_space(#[trigger] s[i])
}

/// `s` without the white space at its beginning and at its end.
pub open spec fn trimmed_text(s: Seq<char>) -> Seq<char> {
    s.subrange(leading_space(s, 0) as int, s.len() - trailing_space(s, s.len() as int))
}

/// The number of white-space characters of `s` from position `from` on, up to
/// the first character that is none.
pub open spec fn leading_space(s: Seq<char>, from: int) -> nat
    decreases s.len() - from,
{
    if from < 0 || from >= s.len() || !white_space(s[from]) {
        0
    } else {
        1 + leading_space(s, from + 1)
    }
}

/// The number of white-space characters of `s` before position `to`, back to
/// the last character that is none; no more than what `leading_space` left.
pub open spec fn trailing_space(s: Seq<char>, to: int) -> nat
    decreases to,
{
    if to <= leading_space(s, 0) || to > s.len() || !white_space(s[to - 1]) {
        0
    } else {
        1 + trailing_space(s, to - 1)
    }
}

/// Whether `s` holds nothing but white space.
pub fn blank(s: &Vec<char>) -> (out: bool)
    ensures
        out == is_blank(s@),
{
    let mut i: usize = 0;
    while i < s.len()
        invariant
            i <= s@.len(),
            forall|k: int| 0 <= k < i ==> white_space(#[trigger] s@[k]),
        decreases s@.len() - i,
    {
        if !is_whitespace(s[i]) {
            return false;
        }
        i += 1;
    }
    true
}

/// `text` without the white space at its beginning and at its end.
pub fn trim(text: &str) -> (out: String)
    ensures
        out@ == trimmed_text(text@),
{
    let chars = chars_of(text);
    let ghost s = text@;
    let mut from: usize = 0;
    while from < chars.len() && is_whitespace(chars[from])
        invariant
            from <= chars@.len(),
            chars@ == s,
            leading_space(s, 0) == from + leading_space(s, from as int),
        decreases chars@.len() - from,
    {
        from += 1;
    }
    let mut to: usize = chars.len();
    while to > from && is_whitespace(chars[to - 1])
        invariant
            from <= to <= chars@.len(),
            chars@ == s,
            from == leading_space(s, 0),
            trailing_space(s, s.len() as int) == (s.len() - to) + trailing_space(s, to as int),
        decreases to,
    {
        to -= 1;
    }
    text.substring_char(from, to).to_string()
}

/// The character `c`, in lower case where it is an upper-case ASCII letter.
pub open spec fn ascii_lower_char(c: char) -> char {
    if 'A' <= c && c <= 'Z' {
        ((c as u32 + 32) as u32) as char
    } else {
        c
    }
}

/// `s` with its upper-case ASCII letters in lower case.
pub open spec fn ascii_lowercase(s: Seq<char>) -> Seq<char> {
    Seq::new(s.len(), |i: int| ascii_lower_char(s[i]))
}

/// The lower-case letter for the upper-case ASCII letter `c`.
fn lower_letter(c: char) -> (out: &'static str)
    requires
        'A' <= c && c <= 'Z',
    ensures
        out@ == seq![ascii_lower_char(c)],
{
    let k: usize = (c as u32 - 65) as usize;
    proof {
        reveal_strlit("abcdefghijklmnopqrstuvwxyz");
    }
    let out = "abcdefghijklmnopqrstuvwxyz".substring_char(k, k + 1);
    assert(out@ =~= seq![ascii_lower_char(c)]);
    out
}

/// `s` with its upper-case ASCII letters in lower case: the letters `A` to
/// `Z` become `a` to `z`, every other character stays.
pub fn to_ascii_lowercase(s: &str) -> (out: String)
    ensures
        out@ == ascii_lowercase(s@),
{
    let chars = chars_of(s);
    let mut out = String::new();
    let mut i: usize = 0;
    assert(out@ =~= ascii_lowercase(s@.take(0)));
    while i < chars.len()
        invariant
            i <= chars@.len(),
            chars@ == s@,
            out@ == ascii_lowercase(s@.take(i as int)),
        decreases chars@.len() - i,
    {
        let c = chars[i];
        if 'A' <= c && c <= 'Z' {
            out.append(lower_letter(c));
        } else {
            out.append(s.substring_char(i, i + 1));
        }
        assert(out@ =~= ascii_lowercase(s@.take(i + 1)));
        i += 1;
    }
    assert(s@.take(chars@.len() as int) =~= s@);
    out
}

/// `s` with every `pattern` replaced by `by`, taken from the left; `pattern`
/// is not empty.
pub open spec fn replaced(s: Seq<char>, pattern: Seq<char>, by: Seq<char>, from: int) -> Seq<char>
    decreases s.len() - from,
{
    if pattern.len() == 0 || from < 0 || from >= s.len() {
        Seq::empty()
    } else if occurs_at(s, pattern, from) {
        by + replaced(s, pattern, by, from + pattern.len())
    } else {
        seq![s[from]] + replaced(s, pattern, by, from + 1)
    }
}

/// `text` with every `pattern` replaced by `by`, taken from the left.
pub fn replace(text: &str, pattern: &str, by: &str) -> (out: String)
    requires
        pattern@.len() > 0,
    ensures
        out@ == replaced(text@, pattern@, by@, 0),
{
    let chars = chars_of(text);
    let wanted = chars_of(pattern);
    let ghost s = text@;
    let ghost p = pattern@;
    let ghost b = by@;
    let mut out = String::new();
    let mut start: usize = 0;
    let mut i: usize = 0;
    assert(out@ + s.subrange(0, 0) =~= Seq::<char>::empty());
    while i < chars.len()
        invariant
            start <= i <= s.len(),
            chars@ == s,
            s == text@,
            wanted@ == p,
            p == pattern@,
            b == by@,
            p.len() > 0,
            out@ + s.subrange(start as int, i as int) + replaced(s, p, b, i as int) == replaced(
                s,
                p,
                b,
                0,
            ),
        decreases s.len() - i,
    {
        let ghost before = out@;
        let ghost pending = s.subrange(start as int, i as int);
        if matches_at(&chars, &wanted, i) {
            out.append(text.substring_char(start, i));
            out.append(by);
            proof {
                let next = i + p.len();
                assert(out@ =~= before + pending + b);
                assert(out@ + s.subrange(next, next) + replaced(s, p, b, next) =~= before + pending
                    + (b + replaced(s, p, b, next)));
            }
            i = i + wanted.len();
            start = i;
        } else {
            proof {
                assert(before + s.subrange(start as int, i + 1) + replaced(s, p, b, i + 1)
                    =~= before + pending + (seq![s[i as int]] + replaced(s, p, b, i + 1)));
            }
            i += 1;
        }
    }
    let ghost before = out@;
    out.append(text.substring_char(start, i));
    assert(out@ =~= before + s.subrange(start as int, i as int) + replaced(s, p, b, i as int));
    out
}

} // verus!
