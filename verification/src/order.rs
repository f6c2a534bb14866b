//! A stable ordering of positions by a key made of a number and a text.
//!
//! The listings and the host list sort stably (as `sort_by` does); each such
//! sort is an ordering of positions by such a key, ties broken by position.
use crate::text::{
    compare_chars, lemma_text_lt_asymmetric, lemma_text_lt_irreflexive, lemma_text_lt_total,
    lemma_text_lt_transitive, text_lt,
};
use vstd::prelude::*;

verus! {

/// A sort key: first by `major`, then by `minor` in code-point order.
pub struct OrderKey {
    pub major: i128,
    pub minor: Vec<char>,
}

impl View for OrderKey {
    type V = (int, Seq<char>);

    open spec fn view(&self) -> (int, Seq<char>) {
        (self.major as int, self.minor@)
    }
}

/// The views of a sequence of keys.
pub open spec fn key_views(keys: Seq<OrderKey>) -> Seq<(int, Seq<char>)> {
    keys.map_values(|k: OrderKey| k@)
}

/// Strict order on key views.
pub open spec fn key_lt(a: (int, Seq<char>), b: (int, Seq<char>)) -> bool {
    a.0 < b.0 || (a.0 == b.0 && text_lt(a.1, b.1))
}

/// Position `x` comes before position `y`: a smaller key, or an equal key and
/// an earlier position.
pub open spec fn precedes(keys: Seq<(int, Seq<char>)>, x: int, y: int) -> bool {
    key_lt(keys[x], keys[y]) || (keys[x] == keys[y] && x < y)
}

/// `p` lists positions in strictly increasing `precedes` order.
pub open spec fn sorted_by_key(keys: Seq<(int, Seq<char>)>, p: Seq<usize>) -> bool {
    forall|i: int, j: int| 0 <= i < j < p.len() ==> precedes(keys, #[trigger] p[i] as int, #[trigger] p[j] as int)
}

/// `p` holds each position below `n` exactly once.
pub open spec fn is_permutation_of_range(p: Seq<usize>, n: nat) -> bool {
    &&& p.len() == n
    &&& forall|i: int| 0 <= i < p.len() ==> #[trigger] p[i] < n
    &&& forall|x: usize| x < n ==> #[trigger] p.contains(x)
}

pub proof fn lemma_key_lt_irreflexive(a: (int, Seq<char>))
    ensures
        !key_lt(a, a),
{
    lemma_text_lt_irreflexive(a.1);
}

pub proof fn lemma_key_lt_transitive(a: (int, Seq<char>), b: (int, Seq<char>), c: (int, Seq<char>))
    requires
        key_lt(a, b),
        key_lt(b, c),
    ensures
        key_lt(a, c),
{
    if a.0 == b.0 && b.0 == c.0 {
        lemma_text_lt_transitive(a.1, b.1, c.1);
    }
}

pub proof fn lemma_key_lt_total(a: (int, Seq<char>), b: (int, Seq<char>))
    ensures
        a == b || key_lt(a, b) || key_lt(b, a),
{
    lemma_text_lt_total(a.1, b.1);
}

pub proof fn lemma_key_lt_asymmetric(a: (int, Seq<char>), b: (int, Seq<char>))
    ensures
        !(key_lt(a, b) && key_lt(b, a)),
{
    lemma_text_lt_asymmetric(a.1, b.1);
}

/// `precedes` is a strict order.
pub proof fn lemma_precedes_order(keys: Seq<(int, Seq<char>)>, x: int, y: int, z: int)
    ensures
        !precedes(keys, x, x),
        precedes(keys, x, y) && precedes(keys, y, z) ==> precedes(keys, x, z),
        precedes(keys, x, y) ==> !precedes(keys, y, x),
        x != y ==> precedes(keys, x, y) || precedes(keys, y, x),
{
    lemma_key_lt_irreflexive(keys[x]);
    lemma_key_lt_total(keys[x], keys[y]);
    lemma_key_lt_asymmetric(keys[x], keys[y]);
    if precedes(keys, x, y) && precedes(keys, y, z) {
        if key_lt(keys[x], keys[y]) && key_lt(keys[y], keys[z]) {
            lemma_key_lt_transitive(keys[x], keys[y], keys[z]);
        }
    }
}

/// Whether key `a` is strictly before key `b`.
pub fn key_less(a: &OrderKey, b: &OrderKey) -> (r: bool)
    ensures
        r == key_lt(a@, b@),
{
    if a.major < b.major {
        true
    } else if a.major == b.major {
        compare_chars(&a.minor, &b.minor) < 0
    } else {
        false
    }
}

proof fn lemma_insert_keeps_sorted(
    keys: Seq<(int, Seq<char>)>,
    p: Seq<usize>,
    pos: int,
    n: usize,
)
    requires
        0 <= pos <= p.len(),
        n < keys.len(),
        sorted_by_key(keys, p),
        forall|i: int| 0 <= i < p.len() ==> #[trigger] p[i] < n,
        forall|j: int| pos <= j < p.len() ==> key_lt(keys[n as int], keys[#[trigger] p[j] as int]),
        pos > 0 ==> !key_lt(keys[n as int], keys[p[pos - 1] as int]),
    ensures
        sorted_by_key(keys, p.insert(pos, n)),
{
    let q = p.insert(pos, n);
    assert forall|i: int, j: int| 0 <= i < j < q.len() implies precedes(
        keys,
        #[trigger] q[i] as int,
        #[trigger] q[j] as int,
    ) by {
        if j < pos {
            assert(q[i] == p[i] && q[j] == p[j]);
        } else if i > pos {
            assert(q[i] == p[i - 1] && q[j] == p[j - 1]);
        } else if i < pos && j > pos {
            assert(q[i] == p[i] && q[j] == p[j - 1]);
        } else if i == pos {
            assert(q[i] == n && q[j] == p[j - 1]);
        } else {
            // i < pos == j: an earlier element against the new one
            assert(q[i] == p[i] && q[j] == n);
            let last = p[pos - 1] as int;
            lemma_key_lt_total(keys[n as int], keys[last]);
            lemma_precedes_order(keys, p[i] as int, last, n as int);
            if i < pos - 1 {
                assert(precedes(keys, p[i] as int, last));
            }
            assert(precedes(keys, last, n as int));
        }
    }
}

/// The positions `0..keys.len()` ordered by key, equal keys in position order
/// (what a stable sort of the keyed items produces).
pub fn sort_positions(keys: &Vec<OrderKey>) -> (p: Vec<usize>)
    ensures
        is_permutation_of_range(p@, keys.len() as nat),
        sorted_by_key(key_views(keys@), p@),
{
    let ghost kv = key_views(keys@);
    let mut p: Vec<usize> = Vec::new();
    let mut n: usize = 0;
    while n < keys.len()
        invariant
            n <= keys.len(),
            kv == key_views(keys@),
            is_permutation_of_range(p@, n as nat),
            sorted_by_key(kv, p@),
        decreases keys.len() - n,
    {
        let mut pos: usize = p.len();
        while pos > 0 && key_less(&keys[n], &keys[p[pos - 1]])
            invariant
                pos <= p.len(),
                n < keys.len(),
                kv == key_views(keys@),
                is_permutation_of_range(p@, n as nat),
                forall|j: int| pos <= j < p.len() ==> key_lt(kv[n as int], kv[#[trigger] p@[j] as int]),
            decreases pos,
        {
            assert(kv[p@[pos - 1] as int] == keys@[p@[pos - 1] as int]@);
            pos -= 1;
        }
        proof {
            if pos > 0 {
                assert(kv[p@[pos - 1] as int] == keys@[p@[pos - 1] as int]@);
            }
            assert(kv[n as int] == keys@[n as int]@);
            lemma_insert_keeps_sorted(kv, p@, pos as int, n);
        }
        let ghost old_p = p@;
        p.insert(pos, n);
        proof {
            assert forall|i: int| 0 <= i < p@.len() implies #[trigger] p@[i] < n + 1 by {
                if i < pos {
                    assert(p@[i] == old_p[i]);
                } else if i > pos {
                    assert(p@[i] == old_p[i - 1]);
                }
            }
            assert forall|x: usize| x < n + 1 implies #[trigger] p@.contains(x) by {
                if x == n {
                    assert(p@[pos as int] == n);
                } else {
                    assert(old_p.contains(x));
                    let k = choose|k: int| 0 <= k < old_p.len() && old_p[k] == x;
                    if k < pos {
                        assert(p@[k] == x);
                    } else {
                        assert(p@[k + 1] == x);
                    }
                }
            }
        }
        n += 1;
    }
    p
}

} // verus!
