//! Stable sorting by an integer key, as `slice::sort_by_key` does.
use vstd::prelude::*;

verus! {

broadcast use vstd::seq_lib::group_seq_properties;

/// `s` with `x` placed right after the last element whose key is at most
/// `key(x)`.
pub open spec fn insert_by_key<T>(s: Seq<T>, x: T, key: spec_fn(T) -> int) -> Seq<T>
    decreases s.len(),
{
    if s.len() == 0 || key(s.last()) <= key(x) {
        s.push(x)
    } else {
        insert_by_key(s.drop_last(), x, key).push(s.last())
    }
}

/// `s` ordered by `key`; elements with equal keys keep their order.
pub open spec fn sort_by_key<T>(s: Seq<T>, key: spec_fn(T) -> int) -> Seq<T>
    decreases s.len(),
{
    if s.len() == 0 {
        s
    } else {
        insert_by_key(sort_by_key(s.drop_last(), key), s.last(), key)
    }
}

/// The keys of `s` never decrease.
pub open spec fn sorted_by_key<T>(s: Seq<T>, key: spec_fn(T) -> int) -> bool {
    forall|i: int, j: int| 0 <= i <= j < s.len() ==> key(s[i]) <= key(s[j])
}

/// The elements of `s` whose key is `k`, in order.
pub open spec fn with_key<T>(s: Seq<T>, key: spec_fn(T) -> int, k: int) -> Seq<T> {
    s.filter(key_is(key, k))
}

/// Holds of the elements whose key is `k`.
pub open spec fn key_is<T>(key: spec_fn(T) -> int, k: int) -> spec_fn(T) -> bool {
    |x: T| key(x) == k
}

proof fn lemma_insert_bounded<T>(s: Seq<T>, x: T, key: spec_fn(T) -> int, m: int)
    requires
        forall|i: int| 0 <= i < s.len() ==> key(#[trigger] s[i]) <= m,
        key(x) <= m,
    ensures
        forall|i: int|
            0 <= i < insert_by_key(s, x, key).len() ==> key(#[trigger] insert_by_key(s, x, key)[i])
                <= m,
        insert_by_key(s, x, key).len() == s.len() + 1,
    decreases s.len(),
{
    if s.len() == 0 || key(s.last()) <= key(x) {
    } else {
        lemma_insert_bounded(s.drop_last(), x, key, m);
    }
}

proof fn lemma_insert_sorted<T>(s: Seq<T>, x: T, key: spec_fn(T) -> int)
    requires
        sorted_by_key(s, key),
    ensures
        sorted_by_key(insert_by_key(s, x, key), key),
    decreases s.len(),
{
    if s.len() == 0 || key(s.last()) <= key(x) {
    } else {
        let t = s.drop_last();
        lemma_insert_sorted(t, x, key);
        lemma_insert_bounded(t, x, key, key(s.last()));
        let r = insert_by_key(s, x, key);
        assert forall|i: int, j: int| 0 <= i <= j < r.len() implies key(r[i]) <= key(r[j]) by {
            if j == r.len() - 1 {
                assert(r[i] == insert_by_key(t, x, key)[i] || i == j);
            }
        }
    }
}

proof fn lemma_insert_multiset<T>(s: Seq<T>, x: T, key: spec_fn(T) -> int)
    ensures
        insert_by_key(s, x, key).to_multiset() == s.to_multiset().insert(x),
    decreases s.len(),
{
    broadcast use vstd::seq_lib::to_multiset_build;
    broadcast use vstd::multiset::group_multiset_axioms;

    if s.len() == 0 || key(s.last()) <= key(x) {
    } else {
        let t = s.drop_last();
        lemma_insert_multiset(t, x, key);
        assert(s =~= t.push(s.last()));
        assert(insert_by_key(s, x, key).to_multiset() =~= s.to_multiset().insert(x));
    }
}

proof fn lemma_insert_with_key<T>(s: Seq<T>, x: T, key: spec_fn(T) -> int, k: int)
    ensures
        with_key(insert_by_key(s, x, key), key, k) == if key(x) == k {
            with_key(s, key, k).push(x)
        } else {
            with_key(s, key, k)
        },
    decreases s.len(),
{
    let p = key_is(key, k);
    if s.len() == 0 || key(s.last()) <= key(x) {
        s.lemma_filter_push(x, p);
    } else {
        let t = s.drop_last();
        lemma_insert_with_key(t, x, key, k);
        insert_by_key(t, x, key).lemma_filter_push(s.last(), p);
        assert(s =~= t.push(s.last()));
        t.lemma_filter_push(s.last(), p);
    }
}

/// The result of `sort_by_key` is in key order.
pub proof fn lemma_sort_sorted<T>(s: Seq<T>, key: spec_fn(T) -> int)
    ensures
        sorted_by_key(sort_by_key(s, key), key),
    decreases s.len(),
{
    if s.len() > 0 {
        lemma_sort_sorted(s.drop_last(), key);
        lemma_insert_sorted(sort_by_key(s.drop_last(), key), s.last(), key);
    }
}

/// `sort_by_key` neither drops nor adds elements.
pub proof fn lemma_sort_permutation<T>(s: Seq<T>, key: spec_fn(T) -> int)
    ensures
        sort_by_key(s, key).to_multiset() == s.to_multiset(),
    decreases s.len(),
{
    broadcast use vstd::seq_lib::to_multiset_build;

    if s.len() > 0 {
        lemma_sort_permutation(s.drop_last(), key);
        lemma_insert_multiset(sort_by_key(s.drop_last(), key), s.last(), key);
        assert(s =~= s.drop_last().push(s.last()));
    }
}

/// `sort_by_key` is stable: the elements that share a key come out in the
/// order they went in.
pub proof fn lemma_sort_stable<T>(s: Seq<T>, key: spec_fn(T) -> int, k: int)
    ensures
        with_key(sort_by_key(s, key), key, k) == with_key(s, key, k),
    decreases s.len(),
{
    let p = key_is(key, k);
    if s.len() == 0 {
    } else {
        lemma_sort_stable(s.drop_last(), key, k);
        lemma_insert_with_key(sort_by_key(s.drop_last(), key), s.last(), key, k);
        assert(s =~= s.drop_last().push(s.last()));
        s.drop_last().lemma_filter_push(s.last(), p);
    }
}

/// When no two elements share a key, `sort_by_key` orders them strictly by
/// key.
pub proof fn lemma_sort_distinct_keys<T>(s: Seq<T>, key: spec_fn(T) -> int)
    requires
        forall|i: int, j: int| 0 <= i < s.len() && 0 <= j < s.len() && i != j ==> key(s[i]) != key(
            s[j],
        ),
    ensures
        forall|i: int, j: int|
            0 <= i < j < sort_by_key(s, key).len() ==> key(sort_by_key(s, key)[i]) < key(
                sort_by_key(s, key)[j],
            ),
{
    broadcast use vstd::seq_lib::group_to_multiset_ensures;
    broadcast use vstd::multiset::group_multiset_axioms;

    let r = sort_by_key(s, key);
    lemma_sort_sorted(s, key);
    lemma_sort_permutation(s, key);
    assert(s.no_duplicates()) by {
        assert forall|i: int, j: int| 0 <= i < s.len() && 0 <= j < s.len() && i != j implies s[i]
            != s[j] by {
            assert(key(s[i]) != key(s[j]));
        }
    }
    s.lemma_multiset_has_no_duplicates();
    r.lemma_multiset_has_no_duplicates_conv();
    assert forall|i: int, j: int| 0 <= i < j < r.len() implies key(r[i]) < key(r[j]) by {
        if key(r[i]) == key(r[j]) {
            assert(r.to_multiset().count(r[i]) > 0);
            assert(r.to_multiset().count(r[j]) > 0);
            assert(s.contains(r[i]));
            assert(s.contains(r[j]));
            let a = choose|a: int| 0 <= a < s.len() && s[a] == r[i];
            let b = choose|b: int| 0 <= b < s.len() && s[b] == r[j];
            assert(a == b);
            assert(r[i] == r[j]);
        }
    }
}

proof fn lemma_insert_at<T>(s: Seq<T>, x: T, key: spec_fn(T) -> int, j: int)
    requires
        0 <= j <= s.len(),
        forall|m: int| j <= m < s.len() ==> key(#[trigger] s[m]) > key(x),
        j == 0 || key(s[j - 1]) <= key(x),
    ensures
        insert_by_key(s, x, key) == s.insert(j, x),
    decreases s.len() - j,
{
    if j == s.len() {
        assert(s.insert(j, x) =~= s.push(x));
    } else {
        let t = s.drop_last();
        lemma_insert_at(t, x, key, j);
        assert(s.insert(j, x) =~= t.insert(j, x).push(s.last()));
    }
}

/// Sorts `items` stably by `keys`, where `keys[i]` is the key of `items[i]`.
pub fn sort_by_keys<T>(items: Vec<T>, keys: Vec<i64>, Ghost(key): Ghost<spec_fn(T) -> int>) -> (res:
    Vec<T>)
    requires
        keys.len() == items.len(),
        forall|i: int| 0 <= i < items.len() ==> keys@[i] == key(#[trigger] items@[i]),
    ensures
        res@ == sort_by_key(items@, key),
{
    let ghost orig = items@;
    let mut items = items;
    let mut keys = keys;
    let mut res: Vec<T> = Vec::new();
    let mut res_keys: Vec<i64> = Vec::new();
    let ghost mut done: int = 0;
    while items.len() > 0
        invariant
            0 <= done <= orig.len(),
            items@ == orig.skip(done),
            keys.len() == items.len(),
            forall|i: int| 0 <= i < items.len() ==> keys@[i] == key(#[trigger] items@[i]),
            res@ == sort_by_key(orig.take(done), key),
            res_keys.len() == res.len(),
            forall|i: int| 0 <= i < res.len() ==> res_keys@[i] == key(#[trigger] res@[i]),
        decreases items.len(),
    {
        let x = items.remove(0);
        let kx = keys.remove(0);
        assert(orig.take(done + 1).drop_last() =~= orig.take(done));
        assert(orig.take(done + 1).last() == x);
        let mut j = res.len();
        while j > 0 && res_keys[j - 1] > kx
            invariant
                j <= res.len(),
                res_keys.len() == res.len(),
                forall|i: int| 0 <= i < res.len() ==> res_keys@[i] == key(#[trigger] res@[i]),
                forall|m: int| j <= m < res.len() ==> key(#[trigger] res@[m]) > kx,
            decreases j,
        {
            j = j - 1;
        }
        proof {
            lemma_insert_at(res@, x, key, j as int);
        }
        let ghost prev = res@;
        let ghost prev_keys = res_keys@;
        res.insert(j, x);
        res_keys.insert(j, kx);
        proof {
            done = done + 1;
            assert(items@ =~= orig.skip(done));
            assert forall|i: int| 0 <= i < res.len() implies res_keys@[i] == key(
                #[trigger] res@[i],
            ) by {
                if i < j {
                } else if i > j {
                    assert(res@[i] == prev[i - 1]);
                    assert(res_keys@[i] == prev_keys[i - 1]);
                }
            }
        }
    }
    assert(orig.take(done) =~= orig);
    res
}

} // verus!
