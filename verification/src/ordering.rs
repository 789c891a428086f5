use vstd::prelude::*;

verus! {

/// Where an element with key `k` goes in `s`: after every element, counted
/// from the end, whose key is not above `k`.
pub open spec fn insertion_point<T>(s: Seq<T>, key: spec_fn(T) -> int, k: int) -> nat
    decreases s.len(),
{
    if s.len() == 0 {
        0
    } else if key(s.last()) <= k {
        s.len()
    } else {
        insertion_point(s.drop_last(), key, k)
    }
}

/// `s` with `x` placed after the elements whose key does not exceed its own.
pub open spec fn insert_by_key<T>(s: Seq<T>, key: spec_fn(T) -> int, x: T) -> Seq<T> {
    let p = insertion_point(s, key, key(x)) as int;
    s.take(p) + seq![x] + s.skip(p)
}

/// Stable sort by `key`, ascending: elements with equal keys keep their order
/// (insertion sort, element by element from the front).
pub open spec fn sort_by_key<T>(s: Seq<T>, key: spec_fn(T) -> int) -> Seq<T>
    decreases s.len(),
{
    if s.len() == 0 {
        s
    } else {
        insert_by_key(sort_by_key(s.drop_last(), key), key, s.last())
    }
}

pub open spec fn sorted_by_key<T>(s: Seq<T>, key: spec_fn(T) -> int) -> bool {
    forall|i: int, j: int| 0 <= i <= j < s.len() ==> key(s[i]) <= key(s[j])
}

pub proof fn lemma_insertion_point_bounds<T>(s: Seq<T>, key: spec_fn(T) -> int, k: int)
    requires
        sorted_by_key(s, key),
    ensures
        insertion_point(s, key, k) <= s.len(),
        forall|i: int| 0 <= i < insertion_point(s, key, k) ==> key(#[trigger] s[i]) <= k,
        forall|i: int| insertion_point(s, key, k) <= i < s.len() ==> key(#[trigger] s[i]) > k,
    decreases s.len(),
{
    if s.len() > 0 {
        let d = s.drop_last();
        if key(s.last()) > k {
            assert(sorted_by_key(d, key));
            lemma_insertion_point_bounds(d, key, k);
            assert forall|i: int| insertion_point(s, key, k) <= i < s.len() implies key(
                #[trigger] s[i],
            ) > k by {
                if i < d.len() {
                    assert(s[i] == d[i]);
                }
            }
            assert forall|i: int| 0 <= i < insertion_point(s, key, k) implies key(#[trigger] s[i])
                <= k by {
                assert(s[i] == d[i]);
            }
        } else {
            assert forall|i: int| 0 <= i < insertion_point(s, key, k) implies key(#[trigger] s[i])
                <= k by {
                assert(key(s[i]) <= key(s[s.len() - 1]));
            }
        }
    }
}

pub proof fn lemma_insert_sorted<T>(s: Seq<T>, key: spec_fn(T) -> int, x: T)
    requires
        sorted_by_key(s, key),
    ensures
        sorted_by_key(insert_by_key(s, key, x), key),
        insert_by_key(s, key, x).len() == s.len() + 1,
        insert_by_key(s, key, x).to_multiset() == s.to_multiset().insert(x),
{
    lemma_insertion_point_bounds(s, key, key(x));
    let p = insertion_point(s, key, key(x)) as int;
    let r = insert_by_key(s, key, x);
    assert(r.len() == s.len() + 1);
    assert forall|i: int| 0 <= i < r.len() implies #[trigger] r[i] == (if i < p {
        s[i]
    } else if i == p {
        x
    } else {
        s[i - 1]
    }) by {}
    assert(s == s.take(p) + s.skip(p));
    vstd::seq_lib::lemma_multiset_commutative(s.take(p), s.skip(p));
    vstd::seq_lib::lemma_multiset_commutative(s.take(p) + seq![x], s.skip(p));
    vstd::seq_lib::lemma_multiset_commutative(s.take(p), seq![x]);
    assert(seq![x].to_multiset() == vstd::multiset::Multiset::<T>::empty().insert(x)) by {
        broadcast use vstd::seq_lib::group_to_multiset_ensures;

        assert(seq![x] == Seq::<T>::empty().push(x));
    }
}

/// Law: the stable sort orders by key and keeps every element, as often as it occurs.
pub proof fn lemma_sort_by_key<T>(s: Seq<T>, key: spec_fn(T) -> int)
    ensures
        sorted_by_key(sort_by_key(s, key), key),
        sort_by_key(s, key).to_multiset() == s.to_multiset(),
        sort_by_key(s, key).len() == s.len(),
    decreases s.len(),
{
    if s.len() > 0 {
        lemma_sort_by_key(s.drop_last(), key);
        lemma_insert_sorted(sort_by_key(s.drop_last(), key), key, s.last());
        assert(sort_by_key(s, key).len() == s.len());
        assert(s == s.drop_last().push(s.last()));
        broadcast use vstd::seq_lib::group_to_multiset_ensures;

        assert(s.to_multiset() == s.drop_last().to_multiset().insert(s.last()));
    }
    broadcast use vstd::seq_lib::group_to_multiset_ensures;

}

/// Elements of the sorted sequence are exactly those of the input.
pub proof fn lemma_sort_contains<T>(s: Seq<T>, key: spec_fn(T) -> int, x: T)
    ensures
        sort_by_key(s, key).contains(x) <==> s.contains(x),
{
    lemma_sort_by_key(s, key);
    broadcast use vstd::seq_lib::group_to_multiset_ensures;

    assert(sort_by_key(s, key).to_multiset().count(x) == s.to_multiset().count(x));
}

/// One step of an insertion sort: `out` sorted so far, `p` the slot found by
/// scanning back from the end past the elements with a larger key.
pub proof fn lemma_scan_step<T>(out: Seq<T>, key: spec_fn(T) -> int, k: int, p: int)
    requires
        0 < p <= out.len(),
        key(out[p - 1]) > k,
        insertion_point(out, key, k) == insertion_point(out.take(p), key, k),
    ensures
        insertion_point(out, key, k) == insertion_point(out.take(p - 1), key, k),
{
    assert(out.take(p).drop_last() == out.take(p - 1));
}

/// Where the scan back stops is the insertion point.
pub proof fn lemma_scan_stop<T>(out: Seq<T>, key: spec_fn(T) -> int, k: int, p: int)
    requires
        0 <= p <= out.len(),
        p == 0 || key(out[p - 1]) <= k,
        insertion_point(out, key, k) == insertion_point(out.take(p), key, k),
    ensures
        insertion_point(out, key, k) == p,
{
    if p > 0 {
        assert(out.take(p).last() == out[p - 1]);
    }
}

/// Sorting a sequence that is already in order changes nothing.
pub proof fn lemma_sort_sorted_is_identity<T>(s: Seq<T>, key: spec_fn(T) -> int)
    requires
        sorted_by_key(s, key),
    ensures
        sort_by_key(s, key) == s,
    decreases s.len(),
{
    if s.len() > 0 {
        let d = s.drop_last();
        assert(sorted_by_key(d, key));
        lemma_sort_sorted_is_identity(d, key);
        if d.len() > 0 {
            assert(key(d.last()) <= key(s.last()));
        }
        assert(insertion_point(d, key, key(s.last())) == d.len());
        assert(d.take(d.len() as int) + seq![s.last()] + d.skip(d.len() as int) =~= s);
    }
}

} // verus!
