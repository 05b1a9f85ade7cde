//! Stable sorting by an integer key, stated as insertion sort.

use vstd::multiset::Multiset;
use vstd::prelude::*;

verus! {

/// `x` inserted into `sorted` before the first element with a larger key.
pub open spec fn insert_by_key<T>(sorted: Seq<T>, x: T, key: spec_fn(T) -> int) -> Seq<T>
    decreases sorted.len(),
{
    if sorted.len() == 0 {
        seq![x]
    } else if key(x) < key(sorted[0]) {
        seq![x] + sorted
    } else {
        seq![sorted[0]] + insert_by_key(sorted.drop_first(), x, key)
    }
}

/// Stable sort by ascending key: elements with equal keys keep their order.
pub open spec fn sort_by_key<T>(s: Seq<T>, key: spec_fn(T) -> int) -> Seq<T>
    decreases s.len(),
{
    if s.len() == 0 {
        Seq::empty()
    } else {
        insert_by_key(sort_by_key(s.drop_last(), key), s.last(), key)
    }
}

/// Keys never decrease along `s`.
pub open spec fn sorted_by_key<T>(s: Seq<T>, key: spec_fn(T) -> int) -> bool {
    forall|i: int, k: int| 0 <= i < k < s.len() ==> key(#[trigger] s[i]) <= key(#[trigger] s[k])
}

/// Inserting right before the first element of larger key is `insert_by_key`.
pub proof fn lemma_insert_by_key_at<T>(sorted: Seq<T>, x: T, key: spec_fn(T) -> int, pos: int)
    requires
        0 <= pos <= sorted.len(),
        forall|t: int| 0 <= t < pos ==> key(#[trigger] sorted[t]) <= key(x),
        pos < sorted.len() ==> key(x) < key(sorted[pos]),
    ensures
        insert_by_key(sorted, x, key) == sorted.insert(pos, x),
    decreases sorted.len(),
{
    if sorted.len() == 0 {
        assert(sorted.insert(pos, x) =~= seq![x]);
    } else if pos == 0 {
        assert(sorted.insert(0, x) =~= seq![x] + sorted);
    } else {
        let t = sorted.drop_first();
        assert forall|u: int| 0 <= u < pos - 1 implies key(#[trigger] t[u]) <= key(x) by {
            assert(t[u] == sorted[u + 1]);
        }
        if pos - 1 < t.len() {
            assert(t[pos - 1] == sorted[pos]);
        }
        lemma_insert_by_key_at(t, x, key, pos - 1);
        assert(sorted.insert(pos, x) =~= seq![sorted[0]] + t.insert(pos - 1, x));
    }
}

/// Inserting keeps the keys sorted and adds `x` to the elements.
proof fn lemma_insert_by_key<T>(sorted: Seq<T>, x: T, key: spec_fn(T) -> int)
    requires
        sorted_by_key(sorted, key),
    ensures
        sorted_by_key(insert_by_key(sorted, x, key), key),
        insert_by_key(sorted, x, key).to_multiset() == sorted.to_multiset().insert(x),
        forall|i: int|
            0 <= i < insert_by_key(sorted, x, key).len() ==> #[trigger] insert_by_key(sorted, x, key)[i] == x
                || sorted.contains(insert_by_key(sorted, x, key)[i]),
    decreases sorted.len(),
{
    broadcast use vstd::seq_lib::group_seq_properties;
    broadcast use vstd::multiset::group_multiset_properties;

    let r = insert_by_key(sorted, x, key);
    if sorted.len() == 0 {
        assert(r =~= seq![x]);
        assert(sorted.to_multiset() =~= Multiset::empty());
        assert(seq![x] =~= Seq::<T>::empty().push(x));
    } else if key(x) < key(sorted[0]) {
        assert(r =~= seq![x] + sorted);
        assert forall|i: int, k: int| 0 <= i < k < r.len() implies key(#[trigger] r[i]) <= key(#[trigger] r[k]) by {
            if i == 0 {
                assert(r[k] == sorted[k - 1]);
            } else {
                assert(r[i] == sorted[i - 1] && r[k] == sorted[k - 1]);
            }
        }
        vstd::seq_lib::lemma_multiset_commutative(seq![x], sorted);
        assert(seq![x] =~= Seq::<T>::empty().push(x));
        assert(Seq::<T>::empty().to_multiset() =~= Multiset::empty());
        assert forall|i: int| 0 <= i < r.len() implies #[trigger] r[i] == x || sorted.contains(r[i]) by {
            if i > 0 {
                assert(r[i] == sorted[i - 1]);
            }
        }
    } else {
        let t = sorted.drop_first();
        assert(sorted_by_key(t, key)) by {
            assert forall|i: int, k: int| 0 <= i < k < t.len() implies key(#[trigger] t[i]) <= key(#[trigger] t[k]) by {
                assert(t[i] == sorted[i + 1] && t[k] == sorted[k + 1]);
            }
        }
        lemma_insert_by_key(t, x, key);
        let ti = insert_by_key(t, x, key);
        assert(r =~= seq![sorted[0]] + ti);
        assert forall|i: int, k: int| 0 <= i < k < r.len() implies key(#[trigger] r[i]) <= key(#[trigger] r[k]) by {
            if i == 0 {
                assert(r[k] == ti[k - 1]);
                if ti[k - 1] != x {
                    assert(t.contains(ti[k - 1]));
                    let j = choose|j: int| 0 <= j < t.len() && t[j] == ti[k - 1];
                    assert(t[j] == sorted[j + 1]);
                }
            } else {
                assert(r[i] == ti[i - 1] && r[k] == ti[k - 1]);
            }
        }
        assert(sorted =~= seq![sorted[0]] + t);
        vstd::seq_lib::lemma_multiset_commutative(seq![sorted[0]], ti);
        vstd::seq_lib::lemma_multiset_commutative(seq![sorted[0]], t);
        assert(r.to_multiset() =~= sorted.to_multiset().insert(x));
        assert forall|i: int| 0 <= i < r.len() implies #[trigger] r[i] == x || sorted.contains(r[i]) by {
            if i > 0 {
                assert(r[i] == ti[i - 1]);
                if ti[i - 1] != x {
                    assert(t.contains(ti[i - 1]));
                    let j = choose|j: int| 0 <= j < t.len() && t[j] == ti[i - 1];
                    assert(sorted[j + 1] == t[j]);
                }
            } else {
                assert(r[0] == sorted[0]);
            }
        }
    }
}

/// The sort orders by key and keeps exactly the given elements.
pub proof fn lemma_sort_by_key<T>(s: Seq<T>, key: spec_fn(T) -> int)
    ensures
        sorted_by_key(sort_by_key(s, key), key),
        sort_by_key(s, key).to_multiset() == s.to_multiset(),
    decreases s.len(),
{
    broadcast use vstd::seq_lib::group_seq_properties;

    if s.len() == 0 {
        assert(s.to_multiset() =~= Multiset::empty());
        assert(sort_by_key(s, key).to_multiset() =~= Multiset::empty());
    } else {
        lemma_sort_by_key(s.drop_last(), key);
        lemma_insert_by_key(sort_by_key(s.drop_last(), key), s.last(), key);
        assert(s =~= s.drop_last().push(s.last()));
    }
}

/// Inserting by key puts the element at some position.
pub proof fn lemma_insert_by_key_is_insert<T>(sorted: Seq<T>, x: T, key: spec_fn(T) -> int) -> (pos: int)
    ensures
        0 <= pos <= sorted.len(),
        insert_by_key(sorted, x, key) == sorted.insert(pos, x),
    decreases sorted.len(),
{
    if sorted.len() == 0 {
        assert(sorted.insert(0, x) =~= seq![x]);
        0
    } else if key(x) < key(sorted[0]) {
        assert(sorted.insert(0, x) =~= seq![x] + sorted);
        0
    } else {
        let t = sorted.drop_first();
        let p = lemma_insert_by_key_is_insert(t, x, key);
        assert(sorted.insert(p + 1, x) =~= seq![sorted[0]] + t.insert(p, x));
        p + 1
    }
}

/// The sort keeps the length and takes every element from the input; when
/// `f` tells the input's elements apart, it tells the output's apart too.
pub proof fn lemma_sort_by_key_members<T, B>(s: Seq<T>, key: spec_fn(T) -> int, f: spec_fn(T) -> B)
    ensures
        sort_by_key(s, key).len() == s.len(),
        forall|i: int| 0 <= i < sort_by_key(s, key).len() ==> s.contains(#[trigger] sort_by_key(s, key)[i]),
        s.map_values(f).no_duplicates() ==> sort_by_key(s, key).map_values(f).no_duplicates(),
    decreases s.len(),
{
    if s.len() > 0 {
        let s0 = s.drop_last();
        let x = s.last();
        lemma_sort_by_key_members(s0, key, f);
        let t = sort_by_key(s0, key);
        let pos = lemma_insert_by_key_is_insert(t, x, key);
        let r = t.insert(pos, x);
        assert(sort_by_key(s, key) == r);
        assert forall|i: int| 0 <= i < r.len() implies s.contains(#[trigger] r[i]) by {
            if i < pos {
                assert(r[i] == t[i]);
                assert(s0.contains(t[i]));
                let j = choose|j: int| 0 <= j < s0.len() && s0[j] == t[i];
                assert(s[j] == s0[j]);
            } else if i == pos {
                assert(r[i] == x);
                assert(s[s.len() - 1] == x);
            } else {
                assert(r[i] == t[i - 1]);
                assert(s0.contains(t[i - 1]));
                let j = choose|j: int| 0 <= j < s0.len() && s0[j] == t[i - 1];
                assert(s[j] == s0[j]);
            }
        }
        if s.map_values(f).no_duplicates() {
            assert(s0.map_values(f).no_duplicates()) by {
                assert forall|a: int, b: int|
                    0 <= a < s0.len() && 0 <= b < s0.len() && a != b implies s0.map_values(f)[a] != s0.map_values(
                    f,
                )[b] by {
                    assert(s0.map_values(f)[a] == s.map_values(f)[a]);
                    assert(s0.map_values(f)[b] == s.map_values(f)[b]);
                }
            }
            assert forall|i: int| 0 <= i < t.len() implies f(#[trigger] t[i]) != f(x) by {
                assert(s0.contains(t[i]));
                let j = choose|j: int| 0 <= j < s0.len() && s0[j] == t[i];
                assert(s.map_values(f)[j] == f(t[i]));
                assert(s.map_values(f)[s.len() - 1] == f(x));
            }
            assert forall|a: int, b: int|
                0 <= a < r.len() && 0 <= b < r.len() && a != b implies r.map_values(f)[a] != r.map_values(f)[b] by {
                let ia = if a < pos { a } else if a == pos { -1 } else { a - 1 };
                let ib = if b < pos { b } else if b == pos { -1 } else { b - 1 };
                if ia >= 0 {
                    assert(r[a] == t[ia]);
                } else {
                    assert(r[a] == x);
                }
                if ib >= 0 {
                    assert(r[b] == t[ib]);
                } else {
                    assert(r[b] == x);
                }
                if ia >= 0 && ib >= 0 {
                    assert(t.map_values(f)[ia] == f(t[ia]));
                    assert(t.map_values(f)[ib] == f(t[ib]));
                }
            }
        }
    }
}

/// Inserting commutes with a map that carries the key.
proof fn lemma_insert_map<T, U>(sorted: Seq<T>, x: T, kt: spec_fn(T) -> int, ku: spec_fn(U) -> int, f: spec_fn(T) -> U)
    requires
        forall|y: T| #[trigger] kt(y) == ku(f(y)),
    ensures
        insert_by_key(sorted, x, kt).map_values(f) == insert_by_key(sorted.map_values(f), f(x), ku),
    decreases sorted.len(),
{
    let m = sorted.map_values(f);
    if sorted.len() == 0 {
        assert(insert_by_key(sorted, x, kt).map_values(f) =~= seq![f(x)]);
    } else {
        assert(m[0] == f(sorted[0]));
        assert(kt(x) == ku(f(x)));
        assert(kt(sorted[0]) == ku(f(sorted[0])));
        if kt(x) < kt(sorted[0]) {
            assert((seq![x] + sorted).map_values(f) =~= seq![f(x)] + m);
        } else {
            let t = sorted.drop_first();
            lemma_insert_map(t, x, kt, ku, f);
            assert(m.drop_first() =~= t.map_values(f));
            assert((seq![sorted[0]] + insert_by_key(t, x, kt)).map_values(f) =~= seq![f(sorted[0])] + insert_by_key(
                t,
                x,
                kt,
            ).map_values(f));
        }
    }
}

/// Sorting commutes with a map that carries the key.
pub proof fn lemma_sort_map<T, U>(s: Seq<T>, kt: spec_fn(T) -> int, ku: spec_fn(U) -> int, f: spec_fn(T) -> U)
    requires
        forall|y: T| #[trigger] kt(y) == ku(f(y)),
    ensures
        sort_by_key(s, kt).map_values(f) == sort_by_key(s.map_values(f), ku),
    decreases s.len(),
{
    if s.len() == 0 {
        assert(sort_by_key(s, kt).map_values(f) =~= Seq::<U>::empty());
        assert(s.map_values(f) =~= Seq::<U>::empty());
    } else {
        lemma_sort_map(s.drop_last(), kt, ku, f);
        lemma_insert_map(sort_by_key(s.drop_last(), kt), s.last(), kt, ku, f);
        assert(s.map_values(f).drop_last() =~= s.drop_last().map_values(f));
        assert(s.map_values(f).last() == f(s.last()));
    }
}

} // verus!
