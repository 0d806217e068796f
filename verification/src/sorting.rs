//! Stable sorting, stated over positions.
//!
//! To sort `n` items is to list the positions `0..n` in the order of a strict
//! total order `before` on positions. A stable sort by a key is the case where
//! `before(a, b)` holds when the key at `a` is smaller than the key at `b`, or
//! the keys are equal and `a < b`. For every such order there is exactly one
//! sorted list of positions.

use vstd::prelude::*;
use crate::text::{
    lemma_lex_asymmetric,
    lemma_lex_irreflexive,
    lemma_lex_total,
    lemma_lex_transitive,
    lex_less,
    lex_lt,
};

verus! {

/// `before` is a strict total order on the positions `0..n`.
pub open spec fn strict_total(before: spec_fn(int, int) -> bool, n: int) -> bool {
    &&& forall|a: int| 0 <= a < n ==> !#[trigger] before(a, a)
    &&& forall|a: int, b: int|
        0 <= a < n && 0 <= b < n && a != b ==> #[trigger] before(a, b) || #[trigger] before(b, a)
    &&& forall|a: int, b: int, c: int|
        0 <= a < n && 0 <= b < n && 0 <= c < n && #[trigger] before(a, b) && #[trigger] before(b, c)
            ==> before(a, c)
}

/// `perm` lists each of the positions `0..n` once, in the order of `before`.
pub open spec fn sorted_positions(perm: Seq<int>, before: spec_fn(int, int) -> bool, n: int) -> bool {
    &&& perm.len() == n
    &&& forall|i: int| 0 <= i < n ==> 0 <= #[trigger] perm[i] < n
    &&& forall|i: int, j: int| 0 <= i < j < n ==> before(#[trigger] perm[i], #[trigger] perm[j])
    &&& forall|k: int| 0 <= k < n ==> #[trigger] perm.contains(k)
}

/// The positions `0..n` in the order of `before`.
pub open spec fn positions_in_order(before: spec_fn(int, int) -> bool, n: int) -> Seq<int> {
    choose|perm: Seq<int>| sorted_positions(perm, before, n)
}

/// The items of `items` in the order that `perm` lists their positions in.
pub open spec fn reordered<T>(items: Seq<T>, perm: Seq<int>) -> Seq<T> {
    Seq::new(perm.len(), |i: int| items[perm[i]])
}

/// Putting the new last position `n` into a sorted list of the positions
/// `0..n`, behind everything that comes before it, gives a sorted list of the
/// positions `0..n + 1`.
pub proof fn lemma_insert_position(
    perm: Seq<int>,
    before: spec_fn(int, int) -> bool,
    n: int,
    at: int,
)
    requires
        sorted_positions(perm, before, n),
        strict_total(before, n + 1),
        0 <= at <= n,
        forall|i: int| at <= i < n ==> before(n, #[trigger] perm[i]),
        at > 0 ==> before(perm[at - 1], n),
    ensures
        sorted_positions(perm.insert(at, n), before, n + 1),
{
    let out = perm.insert(at, n);
    assert forall|i: int| 0 <= i < at implies before(#[trigger] perm[i], n) by {
        if i < at - 1 {
            assert(before(perm[i], perm[at - 1]));
            assert(before(perm[at - 1], n));
        }
    }
    assert forall|i: int, j: int| 0 <= i < j < n + 1 implies before(
        #[trigger] out[i],
        #[trigger] out[j],
    ) by {
        if j < at {
            assert(out[i] == perm[i] && out[j] == perm[j]);
        } else if j == at {
            assert(out[i] == perm[i] && out[j] == n);
        } else if i < at {
            assert(out[i] == perm[i] && out[j] == perm[j - 1]);
        } else if i == at {
            assert(out[i] == n && out[j] == perm[j - 1]);
        } else {
            assert(out[i] == perm[i - 1] && out[j] == perm[j - 1]);
        }
    }
    assert forall|k: int| 0 <= k < n + 1 implies #[trigger] out.contains(k) by {
        if k == n {
            assert(out[at] == k);
        } else {
            assert(perm.contains(k));
            let i = choose|i: int| 0 <= i < perm.len() && perm[i] == k;
            if i < at {
                assert(out[i] == k);
            } else {
                assert(out[i + 1] == k);
            }
        }
    }
    assert forall|i: int| 0 <= i < n + 1 implies 0 <= #[trigger] out[i] < n + 1 by {
        if i < at {
            assert(out[i] == perm[i]);
        } else if i > at {
            assert(out[i] == perm[i - 1]);
        }
    }
}

/// Where the new last position `n` belongs in a sorted list of the positions
/// `0..n`, found from the end of the list.
pub open spec fn place_of_last(perm: Seq<int>, before: spec_fn(int, int) -> bool, n: int) -> int
    decreases perm.len(),
{
    if perm.len() == 0 {
        0
    } else if before(n, perm.last()) {
        place_of_last(perm.drop_last(), before, n)
    } else {
        perm.len() as int
    }
}

/// `place_of_last` meets what `lemma_insert_position` asks of the place.
pub proof fn lemma_place_of_last(
    perm: Seq<int>,
    before: spec_fn(int, int) -> bool,
    n: int,
    upto: int,
)
    requires
        strict_total(before, n + 1),
        0 <= upto <= perm.len(),
        forall|i: int| 0 <= i < perm.len() ==> 0 <= #[trigger] perm[i] < n,
    ensures
        ({
            let at = place_of_last(perm.take(upto), before, n);
            &&& 0 <= at <= upto
            &&& forall|i: int| at <= i < upto ==> before(n, #[trigger] perm[i])
            &&& at > 0 ==> before(perm[at - 1], n)
        }),
    decreases upto,
{
    let part = perm.take(upto);
    if upto > 0 {
        assert(part.last() == perm[upto - 1]);
        if before(n, part.last()) {
            assert(part.drop_last() =~= perm.take(upto - 1));
            lemma_place_of_last(perm, before, n, upto - 1);
        } else {
            assert(before(perm[upto - 1], n) || before(n, perm[upto - 1]));
        }
    }
}

/// The sorted list of the positions `0..n`, built by putting each position in
/// its place in turn.
pub open spec fn built_order(before: spec_fn(int, int) -> bool, n: int) -> Seq<int>
    decreases n,
{
    if n <= 0 {
        Seq::empty()
    } else {
        let prev = built_order(before, n - 1);
        prev.insert(place_of_last(prev, before, n - 1), n - 1)
    }
}

/// A strict total order on `0..n` is one on `0..m` for `m <= n`.
pub proof fn lemma_strict_total_shrinks(before: spec_fn(int, int) -> bool, n: int, m: int)
    requires
        strict_total(before, n),
        m <= n,
    ensures
        strict_total(before, m),
{
}

/// For every strict total order there is a sorted list of the positions.
pub proof fn lemma_sorted_positions_exist(before: spec_fn(int, int) -> bool, n: int)
    requires
        0 <= n,
        strict_total(before, n),
    ensures
        sorted_positions(built_order(before, n), before, n),
        sorted_positions(positions_in_order(before, n), before, n),
    decreases n,
{
    if n > 0 {
        lemma_strict_total_shrinks(before, n, n - 1);
        lemma_sorted_positions_exist(before, n - 1);
        let prev = built_order(before, n - 1);
        assert(prev.take(n - 1) =~= prev);
        lemma_place_of_last(prev, before, n - 1, n - 1);
        lemma_insert_position(prev, before, n - 1, place_of_last(prev, before, n - 1));
    } else {
        assert(sorted_positions(Seq::<int>::empty(), before, 0));
    }
}

/// Two sorted lists of the positions agree on their first `upto` entries.
proof fn lemma_sorted_positions_agree(
    p: Seq<int>,
    q: Seq<int>,
    before: spec_fn(int, int) -> bool,
    n: int,
    upto: int,
)
    requires
        strict_total(before, n),
        sorted_positions(p, before, n),
        sorted_positions(q, before, n),
        0 <= upto <= n,
    ensures
        forall|i: int| 0 <= i < upto ==> p[i] == q[i],
    decreases upto,
{
    if upto > 0 {
        lemma_sorted_positions_agree(p, q, before, n, upto - 1);
        let i = upto - 1;
        lemma_first_difference(p, q, before, n, i);
        lemma_first_difference(q, p, before, n, i);
        if p[i] != q[i] {
            assert(before(p[i], q[i]) || before(q[i], p[i]));
        }
    }
}

/// Where two sorted lists agree before `i`, the entry of the one at `i` does
/// not come before that of the other.
proof fn lemma_first_difference(
    p: Seq<int>,
    q: Seq<int>,
    before: spec_fn(int, int) -> bool,
    n: int,
    i: int,
)
    requires
        strict_total(before, n),
        sorted_positions(p, before, n),
        sorted_positions(q, before, n),
        0 <= i < n,
        forall|k: int| 0 <= k < i ==> p[k] == q[k],
    ensures
        !before(p[i], q[i]),
{
    if before(p[i], q[i]) {
        assert(q.contains(p[i]));
        let j = choose|j: int| 0 <= j < q.len() && q[j] == p[i];
        if j < i {
            assert(p[j] == q[j]);
            assert(before(p[j], p[i]));
            assert(!before(p[i], p[i]));
        } else if j == i {
            assert(!before(p[i], p[i]));
        } else {
            assert(before(q[i], q[j]));
            assert(before(p[i], p[i]));
            assert(!before(p[i], p[i]));
        }
    }
}

/// There is only one sorted list of the positions.
pub proof fn lemma_sorted_positions_unique(
    p: Seq<int>,
    before: spec_fn(int, int) -> bool,
    n: int,
)
    requires
        strict_total(before, n),
        sorted_positions(p, before, n),
    ensures
        p == positions_in_order(before, n),
{
    let q = positions_in_order(before, n);
    assert(sorted_positions(q, before, n));
    lemma_sorted_positions_agree(p, q, before, n, n);
    assert(p =~= q);
}

/// The order of a stable sort by string keys: the smaller key first, and of
/// two equal keys the one that stood first.
pub open spec fn by_key(keys: Seq<Seq<char>>) -> spec_fn(int, int) -> bool {
    |a: int, b: int| lex_lt(keys[a], keys[b]) || (keys[a] == keys[b] && a < b)
}

/// `by_key` is a strict total order on the positions of the keys.
pub proof fn lemma_by_key_strict_total(keys: Seq<Seq<char>>, n: int)
    requires
        n <= keys.len(),
    ensures
        strict_total(by_key(keys), n),
{
    let before = by_key(keys);
    assert forall|a: int| 0 <= a < n implies !#[trigger] before(a, a) by {
        lemma_lex_irreflexive(keys[a]);
    }
    assert forall|a: int, b: int| 0 <= a < n && 0 <= b < n && a != b implies #[trigger] before(a, b)
        || #[trigger] before(b, a) by {
        if !lex_lt(keys[a], keys[b]) && !lex_lt(keys[b], keys[a]) {
            lemma_lex_total(keys[a], keys[b]);
        }
    }
    assert forall|a: int, b: int, c: int|
        0 <= a < n && 0 <= b < n && 0 <= c < n && #[trigger] before(a, b) && #[trigger] before(
            b,
            c,
        ) implies before(a, c) by {
        if lex_lt(keys[a], keys[b]) && lex_lt(keys[b], keys[c]) {
            lemma_lex_transitive(keys[a], keys[b], keys[c]);
        }
    }
}

/// The positions of `keys` in the order of a stable sort by key.
pub fn stable_order(keys: &Vec<Vec<char>>) -> (out: Vec<usize>)
    ensures
        out@.len() == keys@.len(),
        out@.map_values(|p: usize| p as int) == positions_in_order(
            by_key(keys.deep_view()),
            keys@.len() as int,
        ),
{
    let ghost all = keys.deep_view();
    let ghost before = by_key(all);
    let mut out: Vec<usize> = Vec::new();
    let ghost mut perm: Seq<int> = Seq::empty();
    let mut n: usize = 0;
    proof {
        assert(sorted_positions(perm, before, 0));
    }
    while n < keys.len()
        invariant
            n <= keys@.len(),
            all == keys.deep_view(),
            before == by_key(all),
            out@.len() == n,
            perm == out@.map_values(|p: usize| p as int),
            sorted_positions(perm, before, n as int),
        decreases keys@.len() - n,
    {
        let mut at: usize = n;
        assert forall|i: int| 0 <= i < n implies #[trigger] out@[i] < n by {
            assert(perm[i] == out@[i] as int);
        }
        while at > 0 && lex_less(&keys[n], &keys[out[at - 1]])
            invariant
                at <= n < keys@.len(),
                all == keys.deep_view(),
                before == by_key(all),
                out@.len() == n,
                perm == out@.map_values(|p: usize| p as int),
                sorted_positions(perm, before, n as int),
                forall|i: int| 0 <= i < n ==> #[trigger] out@[i] < n,
                forall|i: int| at <= i < n ==> before(n as int, #[trigger] perm[i]),
            decreases at,
        {
            proof {
                let x = perm[at - 1];
                assert(0 <= x < n);
                assert(all[x] == keys@[x]@);
                assert(all[n as int] == keys@[n as int]@);
            }
            at -= 1;
        }
        proof {
            lemma_by_key_strict_total(all, n + 1);
            if at > 0 {
                let x = perm[at - 1];
                assert(0 <= x < n);
                assert(all[x] == keys@[x]@);
                assert(all[n as int] == keys@[n as int]@);
                assert(before(x, n as int) || before(n as int, x));
                if lex_lt(all[x], all[n as int]) {
                    lemma_lex_asymmetric(all[x], all[n as int]);
                }
            }
            lemma_insert_position(perm, before, n as int, at as int);
        }
        out.insert(at, n);
        proof {
            let next = perm.insert(at as int, n as int);
            assert(out@.map_values(|p: usize| p as int) =~= next);
            perm = next;
        }
        n += 1;
    }
    proof {
        lemma_by_key_strict_total(all, n as int);
        lemma_sorted_positions_unique(perm, before, n as int);
    }
    out
}

/// The order of a stable sort by number, largest first: the larger number
/// first, and of two equal numbers the one that stood first.
pub open spec fn by_largest(keys: Seq<u128>) -> spec_fn(int, int) -> bool {
    |a: int, b: int| keys[a] > keys[b] || (keys[a] == keys[b] && a < b)
}

/// `by_largest` is a strict total order on the positions of the keys.
pub proof fn lemma_by_largest_strict_total(keys: Seq<u128>, n: int)
    requires
        n <= keys.len(),
    ensures
        strict_total(by_largest(keys), n),
{
    let before = by_largest(keys);
    assert forall|a: int| 0 <= a < n implies !#[trigger] before(a, a) by {}
    assert forall|a: int, b: int| 0 <= a < n && 0 <= b < n && a != b implies #[trigger] before(a, b)
        || #[trigger] before(b, a) by {}
    assert forall|a: int, b: int, c: int|
        0 <= a < n && 0 <= b < n && 0 <= c < n && #[trigger] before(a, b) && #[trigger] before(
            b,
            c,
        ) implies before(a, c) by {}
}

/// The positions of `keys` in the order of a stable sort, largest first.
pub fn largest_first_order(keys: &Vec<u128>) -> (out: Vec<usize>)
    ensures
        out@.len() == keys@.len(),
        out@.map_values(|p: usize| p as int) == positions_in_order(
            by_largest(keys@),
            keys@.len() as int,
        ),
{
    let ghost before = by_largest(keys@);
    let mut out: Vec<usize> = Vec::new();
    let ghost mut perm: Seq<int> = Seq::empty();
    let mut n: usize = 0;
    proof {
        assert(sorted_positions(perm, before, 0));
    }
    while n < keys.len()
        invariant
            n <= keys@.len(),
            before == by_largest(keys@),
            out@.len() == n,
            perm == out@.map_values(|p: usize| p as int),
            sorted_positions(perm, before, n as int),
        decreases keys@.len() - n,
    {
        let mut at: usize = n;
        assert forall|i: int| 0 <= i < n implies #[trigger] out@[i] < n by {
            assert(perm[i] == out@[i] as int);
        }
        while at > 0 && keys[n] > keys[out[at - 1]]
            invariant
                at <= n < keys@.len(),
                before == by_largest(keys@),
                out@.len() == n,
                perm == out@.map_values(|p: usize| p as int),
                sorted_positions(perm, before, n as int),
                forall|i: int| 0 <= i < n ==> #[trigger] out@[i] < n,
                forall|i: int| at <= i < n ==> before(n as int, #[trigger] perm[i]),
            decreases at,
        {
            proof {
                let x = perm[at - 1];
                assert(0 <= x < n);
            }
            at -= 1;
        }
        proof {
            lemma_by_largest_strict_total(keys@, n + 1);
            if at > 0 {
                let x = perm[at - 1];
                assert(0 <= x < n);
                assert(before(x, n as int) || before(n as int, x));
            }
            lemma_insert_position(perm, before, n as int, at as int);
        }
        out.insert(at, n);
        proof {
            let next = perm.insert(at as int, n as int);
            assert(out@.map_values(|p: usize| p as int) =~= next);
            perm = next;
        }
        n += 1;
    }
    proof {
        lemma_by_largest_strict_total(keys@, n as int);
        lemma_sorted_positions_unique(perm, before, n as int);
    }
    out
}

} // verus!
