//! Stable ordering of items by a key made of a name, a count and a tail text.

use vstd::prelude::*;
use crate::text::{chars_eq, chars_lt, lemma_lex_irreflexive, lemma_lex_total, lemma_lex_transitive, lex_lt};

verus! {

/// A sort key: a name, then a count, then a tail text, compared in that order.
pub struct SortKey {
    pub name: Vec<char>,
    pub count: usize,
    pub tail: Vec<char>,
}

/// The mathematical value of a sort key.
pub type KeyView = (Seq<char>, int, Seq<char>);

impl View for SortKey {
    type V = KeyView;

    open spec fn view(&self) -> KeyView {
        (self.name@, self.count as int, self.tail@)
    }
}

/// The views of a sequence of keys.
pub open spec fn key_views(keys: Seq<SortKey>) -> Seq<KeyView> {
    keys.map_values(|k: SortKey| k@)
}

/// Strict order on keys: by name, then by count, then by tail.
pub open spec fn key_lt(a: KeyView, b: KeyView) -> bool {
    ||| lex_lt(a.0, b.0)
    ||| (a.0 == b.0 && a.1 < b.1)
    ||| (a.0 == b.0 && a.1 == b.1 && lex_lt(a.2, b.2))
}

/// `order` with index `i` placed after every index whose key is not above
/// the key of `i`, scanning from the end.
pub open spec fn insert_index(order: Seq<int>, i: int, keys: Seq<KeyView>) -> Seq<int>
    decreases order.len(),
{
    if order.len() == 0 {
        seq![i]
    } else if key_lt(keys[i], keys[order.last()]) {
        insert_index(order.drop_last(), i, keys).push(order.last())
    } else {
        order.push(i)
    }
}

/// The stable sorted order of the first `n` keys, as indices.
pub open spec fn sorted_prefix(keys: Seq<KeyView>, n: nat) -> Seq<int>
    decreases n,
{
    if n == 0 {
        Seq::empty()
    } else {
        insert_index(sorted_prefix(keys, (n - 1) as nat), n - 1, keys)
    }
}

/// The stable sorted order of the keys, as indices into `keys`.
pub open spec fn sorted_order(keys: Seq<KeyView>) -> Seq<int> {
    sorted_prefix(keys, keys.len())
}

/// Index `a` comes before index `b`: its key is lower, or the keys are equal
/// and `a` is the earlier index.
pub open spec fn index_before(keys: Seq<KeyView>, a: int, b: int) -> bool {
    key_lt(keys[a], keys[b]) || (keys[a] == keys[b] && a < b)
}

/// `order` lists each of `0..n` exactly once.
pub open spec fn is_permutation_of_range(order: Seq<int>, n: int) -> bool {
    &&& order.len() == n
    &&& forall|m: int| 0 <= m < order.len() ==> 0 <= #[trigger] order[m] < n
    &&& forall|p: int, q: int|
        0 <= p < order.len() && 0 <= q < order.len() && p != q ==> order[p] != order[q]
}

/// Along `order`, every index comes before each later one.
pub open spec fn is_sorted_order(order: Seq<int>, keys: Seq<KeyView>) -> bool {
    forall|p: int, q: int|
        0 <= p < q < order.len() ==> index_before(keys, #[trigger] order[p], #[trigger] order[q])
}

// ---------------------------------------------------------------------------
// Properties of the key order
// ---------------------------------------------------------------------------

/// No key is below itself.
pub proof fn lemma_key_irreflexive(a: KeyView)
    ensures
        !key_lt(a, a),
{
    lemma_lex_irreflexive(a.0);
    lemma_lex_irreflexive(a.2);
}

/// The key order is transitive.
pub proof fn lemma_key_transitive(a: KeyView, b: KeyView, c: KeyView)
    requires
        key_lt(a, b),
        key_lt(b, c),
    ensures
        key_lt(a, c),
{
    if lex_lt(a.0, b.0) && lex_lt(b.0, c.0) {
        lemma_lex_transitive(a.0, b.0, c.0);
    }
    if lex_lt(a.2, b.2) && lex_lt(b.2, c.2) {
        lemma_lex_transitive(a.2, b.2, c.2);
    }
}

/// Two keys are equal or one is below the other.
pub proof fn lemma_key_total(a: KeyView, b: KeyView)
    ensures
        a == b || key_lt(a, b) || key_lt(b, a),
{
    lemma_lex_total(a.0, b.0);
    lemma_lex_total(a.2, b.2);
}

proof fn lemma_index_before_transitive(keys: Seq<KeyView>, a: int, b: int, c: int)
    requires
        index_before(keys, a, b),
        index_before(keys, b, c),
    ensures
        index_before(keys, a, c),
{
    if key_lt(keys[a], keys[b]) && key_lt(keys[b], keys[c]) {
        lemma_key_transitive(keys[a], keys[b], keys[c]);
    }
}

// ---------------------------------------------------------------------------
// Properties of insertion
// ---------------------------------------------------------------------------

/// Insertion places `i` at the position `j` where the scan from the end stops.
pub proof fn lemma_insert_at(order: Seq<int>, i: int, keys: Seq<KeyView>, j: int)
    requires
        0 <= j <= order.len(),
        forall|m: int| j <= m < order.len() ==> key_lt(keys[i], keys[#[trigger] order[m]]),
        j > 0 ==> !key_lt(keys[i], keys[order[j - 1]]),
    ensures
        insert_index(order, i, keys) == order.take(j) + seq![i] + order.skip(j),
    decreases order.len(),
{
    if order.len() == 0 {
        assert(order.take(j) + seq![i] + order.skip(j) =~= seq![i]);
    } else if key_lt(keys[i], keys[order.last()]) {
        let rest = order.drop_last();
        assert(j < order.len());
        assert forall|m: int| j <= m < rest.len() implies key_lt(keys[i], keys[#[trigger] rest[m]]) by {
            assert(rest[m] == order[m]);
        }
        lemma_insert_at(rest, i, keys, j);
        assert(rest.take(j) + seq![i] + rest.skip(j) + seq![order.last()] =~= order.take(j) + seq![i]
            + order.skip(j));
    } else {
        assert(j == order.len());
        assert(order.take(j) + seq![i] + order.skip(j) =~= order.push(i));
    }
}

/// The scan position always exists.
proof fn lemma_insert_position_exists(order: Seq<int>, i: int, keys: Seq<KeyView>) -> (j: int)
    ensures
        0 <= j <= order.len(),
        forall|m: int| j <= m < order.len() ==> key_lt(keys[i], keys[#[trigger] order[m]]),
        j > 0 ==> !key_lt(keys[i], keys[order[j - 1]]),
    decreases order.len(),
{
    if order.len() == 0 {
        0
    } else if key_lt(keys[i], keys[order.last()]) {
        let rest = order.drop_last();
        let j = lemma_insert_position_exists(rest, i, keys);
        assert forall|m: int| j <= m < order.len() implies key_lt(keys[i], keys[#[trigger] order[m]]) by {
            if m < rest.len() {
                assert(rest[m] == order[m]);
            }
        }
        if j > 0 {
            assert(rest[j - 1] == order[j - 1]);
        }
        j
    } else {
        order.len() as int
    }
}

/// Each prefix order is a sorted permutation of its range.
pub proof fn lemma_sorted_prefix(keys: Seq<KeyView>, n: nat)
    requires
        n <= keys.len(),
    ensures
        is_permutation_of_range(sorted_prefix(keys, n), n as int),
        is_sorted_order(sorted_prefix(keys, n), keys),
    decreases n,
{
    if n > 0 {
        let i = n - 1;
        let o = sorted_prefix(keys, (n - 1) as nat);
        lemma_sorted_prefix(keys, (n - 1) as nat);
        let j = lemma_insert_position_exists(o, i, keys);
        lemma_insert_at(o, i, keys, j);
        let r = o.take(j) + seq![i] + o.skip(j);
        assert(sorted_prefix(keys, n) == r);
        assert forall|m: int| 0 <= m < r.len() implies 0 <= #[trigger] r[m] < n by {
            if m < j {
                assert(r[m] == o[m]);
            } else if m > j {
                assert(r[m] == o[m - 1]);
            }
        }
        assert forall|p: int, q: int| 0 <= p < r.len() && 0 <= q < r.len() && p != q implies r[p]
            != r[q] by {
            if p != j && q != j {
                let pp = if p < j { p } else { p - 1 };
                let qq = if q < j { q } else { q - 1 };
                assert(r[p] == o[pp]);
                assert(r[q] == o[qq]);
            } else if p == j {
                let qq = if q < j { q } else { q - 1 };
                assert(r[q] == o[qq]);
            } else {
                let pp = if p < j { p } else { p - 1 };
                assert(r[p] == o[pp]);
            }
        }
        if j > 0 {
            lemma_key_total(keys[i], keys[o[j - 1]]);
            assert(index_before(keys, o[j - 1], i));
        }
        assert forall|p: int, q: int| 0 <= p < q < r.len() implies index_before(
            keys,
            #[trigger] r[p],
            #[trigger] r[q],
        ) by {
            if q < j {
                assert(r[p] == o[p]);
                assert(r[q] == o[q]);
            } else if q == j {
                assert(r[p] == o[p]);
                if p < j - 1 {
                    assert(index_before(keys, o[p], o[j - 1]));
                    lemma_index_before_transitive(keys, o[p], o[j - 1], i);
                }
            } else if p == j {
                assert(r[q] == o[q - 1]);
            } else if p < j {
                assert(r[p] == o[p]);
                assert(r[q] == o[q - 1]);
            } else {
                assert(r[p] == o[p - 1]);
                assert(r[q] == o[q - 1]);
            }
        }
    }
}

/// Law: the sorted order lists every index exactly once, in non-decreasing
/// key order, and keeps the original order of equal keys (a stable sort).
pub proof fn law_sorted_order(keys: Seq<KeyView>)
    ensures
        is_permutation_of_range(sorted_order(keys), keys.len() as int),
        is_sorted_order(sorted_order(keys), keys),
{
    lemma_sorted_prefix(keys, keys.len());
}

// ---------------------------------------------------------------------------
// Executable sorting
// ---------------------------------------------------------------------------

/// Whether key `a` is below key `b`.
pub fn key_less(a: &SortKey, b: &SortKey) -> (r: bool)
    ensures
        r == key_lt(a@, b@),
{
    if chars_lt(&a.name, &b.name) {
        return true;
    }
    if !chars_eq(&a.name, &b.name) {
        return false;
    }
    if a.count < b.count {
        return true;
    }
    if a.count != b.count {
        return false;
    }
    chars_lt(&a.tail, &b.tail)
}

/// The indices of `keys` in stable sorted order.
pub fn sort_keys(keys: &Vec<SortKey>) -> (order: Vec<usize>)
    ensures
        order@.len() == keys@.len(),
        forall|m: int|
            0 <= m < order@.len() ==> order@[m] as int == #[trigger] sorted_order(
                key_views(keys@),
            )[m],
{
    let ghost kv = key_views(keys@);
    let mut order: Vec<usize> = Vec::new();
    let mut k: usize = 0;
    while k < keys.len()
        invariant
            k <= keys.len(),
            kv == key_views(keys@),
            order@.len() == sorted_prefix(kv, k as nat).len(),
            forall|m: int|
                0 <= m < order@.len() ==> order@[m] as int == #[trigger] sorted_prefix(
                    kv,
                    k as nat,
                )[m],
        decreases keys.len() - k,
    {
        let ghost o = sorted_prefix(kv, k as nat);
        proof {
            lemma_sorted_prefix(kv, k as nat);
            assert forall|m: int| 0 <= m < order@.len() implies order@[m] < k by {
                assert(order@[m] as int == o[m]);
            }
        }
        let mut j: usize = order.len();
        while j > 0 && key_less(&keys[k], &keys[order[j - 1]])
            invariant
                k < keys.len(),
                j <= order@.len(),
                kv == key_views(keys@),
                order@.len() == o.len(),
                is_permutation_of_range(o, k as int),
                forall|m: int| 0 <= m < order@.len() ==> order@[m] as int == #[trigger] o[m],
                forall|m: int| 0 <= m < order@.len() ==> #[trigger] order@[m] < k,
                forall|m: int| j <= m < o.len() ==> key_lt(kv[k as int], kv[#[trigger] o[m]]),
            decreases j,
        {
            assert(order@[j - 1] as int == o[j - 1]);
            j = j - 1;
        }
        proof {
            if j > 0 {
                assert(order@[j - 1] as int == o[j - 1]);
            }
            lemma_insert_at(o, k as int, kv, j as int);
        }
        let ghost old_order = order@;
        order.insert(j, k);
        proof {
            let r = o.take(j as int) + seq![k as int] + o.skip(j as int);
            assert(sorted_prefix(kv, (k + 1) as nat) == r);
            assert forall|m: int| 0 <= m < order@.len() implies order@[m] as int == #[trigger] r[m] by {
                if m < j {
                    assert(order@[m] == old_order[m]);
                } else if m > j {
                    assert(order@[m] == old_order[m - 1]);
                }
            }
        }
        k = k + 1;
    }
    proof {
        lemma_sorted_prefix(kv, keys.len() as nat);
    }
    order
}

} // verus!
