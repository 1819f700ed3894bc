//! Association lists: sequences of key/value pairs in which the first entry of a key counts.
use vstd::prelude::*;

verus! {

/// The index of the first entry of key `k`.
pub open spec fn assoc_index<K, V>(s: Seq<(K, V)>, k: K) -> Option<int>
    decreases s.len(),
{
    if s.len() == 0 {
        None
    } else if s[0].0 == k {
        Some(0)
    } else {
        match assoc_index(s.drop_first(), k) {
            Some(i) => Some(i + 1),
            None => None,
        }
    }
}

/// The value of the first entry of key `k`.
pub open spec fn assoc_get<K, V>(s: Seq<(K, V)>, k: K) -> Option<V> {
    match assoc_index(s, k) {
        Some(i) => Some(s[i].1),
        None => None,
    }
}

/// The list after setting key `k` to `v`: the first entry of `k` changes in place, or an
/// entry is added at the end.
pub open spec fn assoc_put<K, V>(s: Seq<(K, V)>, k: K, v: V) -> Seq<(K, V)> {
    match assoc_index(s, k) {
        Some(i) => s.update(i, (k, v)),
        None => s.push((k, v)),
    }
}

/// The index of the first `x` in `s`.
pub open spec fn seq_index<T>(s: Seq<T>, x: T) -> Option<int>
    decreases s.len(),
{
    if s.len() == 0 {
        None
    } else if s[0] == x {
        Some(0)
    } else {
        match seq_index(s.drop_first(), x) {
            Some(i) => Some(i + 1),
            None => None,
        }
    }
}

/// The sum of the counts of a list of counted keys.
pub open spec fn count_sum<K>(s: Seq<(K, nat)>) -> nat
    decreases s.len(),
{
    if s.len() == 0 {
        0
    } else {
        count_sum(s.drop_last()) + s.last().1
    }
}

/// The list after counting one more `k`.
pub open spec fn count_one<K>(s: Seq<(K, nat)>, k: K) -> Seq<(K, nat)> {
    match assoc_get(s, k) {
        Some(c) => assoc_put(s, k, c + 1),
        None => assoc_put(s, k, 1),
    }
}

/// `assoc_index` finds the first entry of the key.
pub proof fn lemma_assoc_index<K, V>(s: Seq<(K, V)>, k: K)
    ensures
        match assoc_index(s, k) {
            Some(i) => 0 <= i < s.len() && s[i].0 == k && forall|j: int| 0 <= j < i ==> s[j].0 != k,
            None => forall|j: int| 0 <= j < s.len() ==> s[j].0 != k,
        },
    decreases s.len(),
{
    if s.len() > 0 {
        lemma_assoc_index(s.drop_first(), k);
        assert forall|j: int| 1 <= j < s.len() implies s[j] == s.drop_first()[j - 1] by {}
    }
}

/// An index is the first of its key when no earlier entry has the key.
pub proof fn lemma_assoc_index_is<K, V>(s: Seq<(K, V)>, k: K, i: int)
    requires
        0 <= i < s.len(),
        s[i].0 == k,
        forall|j: int| 0 <= j < i ==> s[j].0 != k,
    ensures
        assoc_index(s, k) == Some(i),
{
    lemma_assoc_index(s, k);
}

/// A key that no entry has is not found.
pub proof fn lemma_assoc_index_none<K, V>(s: Seq<(K, V)>, k: K)
    requires
        forall|j: int| 0 <= j < s.len() ==> s[j].0 != k,
    ensures
        assoc_index(s, k) is None,
{
    lemma_assoc_index(s, k);
}

/// `seq_index` finds the first occurrence.
pub proof fn lemma_seq_index<T>(s: Seq<T>, x: T)
    ensures
        match seq_index(s, x) {
            Some(i) => 0 <= i < s.len() && s[i] == x && forall|j: int| 0 <= j < i ==> s[j] != x,
            None => forall|j: int| 0 <= j < s.len() ==> s[j] != x,
        },
    decreases s.len(),
{
    if s.len() > 0 {
        lemma_seq_index(s.drop_first(), x);
        assert forall|j: int| 1 <= j < s.len() implies s[j] == s.drop_first()[j - 1] by {}
    }
}

/// Adding an entry adds its count.
pub proof fn lemma_count_sum_push<K>(s: Seq<(K, nat)>, e: (K, nat))
    ensures
        count_sum(s.push(e)) == count_sum(s) + e.1,
{
    assert(s.push(e).drop_last() =~= s);
}

/// Raising one count by one raises the sum by one.
pub proof fn lemma_count_sum_update<K>(s: Seq<(K, nat)>, i: int, k: K)
    requires
        0 <= i < s.len(),
    ensures
        count_sum(s.update(i, (k, s[i].1 + 1))) == count_sum(s) + 1,
    decreases s.len(),
{
    let t = s.update(i, (k, s[i].1 + 1));
    if i == s.len() - 1 {
        assert(t.drop_last() =~= s.drop_last());
    } else {
        assert(t.drop_last() =~= s.drop_last().update(i, (k, s[i].1 + 1)));
        lemma_count_sum_update(s.drop_last(), i, k);
    }
}

/// Counting one more key raises the sum by one.
pub proof fn lemma_count_one<K>(s: Seq<(K, nat)>, k: K)
    ensures
        count_sum(count_one(s, k)) == count_sum(s) + 1,
{
    lemma_assoc_index(s, k);
    match assoc_index(s, k) {
        Some(i) => {
            lemma_count_sum_update(s, i, k);
        },
        None => {
            lemma_count_sum_push(s, (k, 1nat));
        },
    }
}

/// Each count is at most the sum.
pub proof fn lemma_count_le_sum<K>(s: Seq<(K, nat)>, i: int)
    requires
        0 <= i < s.len(),
    ensures
        s[i].1 <= count_sum(s),
    decreases s.len(),
{
    if i < s.len() - 1 {
        lemma_count_le_sum(s.drop_last(), i);
    }
}

/// After setting a key, the list gives the new value for it.
pub proof fn lemma_assoc_put_get<K, V>(s: Seq<(K, V)>, k: K, v: V)
    ensures
        assoc_get(assoc_put(s, k, v), k) == Some(v),
{
    lemma_assoc_index(s, k);
    let t = assoc_put(s, k, v);
    match assoc_index(s, k) {
        Some(i) => {
            assert forall|j: int| 0 <= j < i implies t[j].0 != k by {}
            lemma_assoc_index_is(t, k, i);
        },
        None => {
            assert forall|j: int| 0 <= j < s.len() implies t[j].0 != k by {}
            lemma_assoc_index_is(t, k, s.len() as int);
        },
    }
}

/// Every value of the list after setting a key is an old value or the new one.
pub proof fn lemma_assoc_put_values<K, V>(s: Seq<(K, V)>, k: K, v: V, j: int)
    requires
        0 <= j < assoc_put(s, k, v).len(),
    ensures
        assoc_put(s, k, v)[j].1 == v || (j < s.len() && assoc_put(s, k, v)[j].1 == s[j].1),
{
    lemma_assoc_index(s, k);
}

/// An index is that of the first occurrence when no earlier element is the same.
pub proof fn lemma_seq_index_is<T>(s: Seq<T>, x: T, i: int)
    requires
        0 <= i < s.len(),
        s[i] == x,
        forall|j: int| 0 <= j < i ==> s[j] != x,
    ensures
        seq_index(s, x) == Some(i),
{
    lemma_seq_index(s, x);
}

/// The sequence with `x` in it: unchanged when it holds `x`, with `x` added at the end
/// otherwise.
pub open spec fn with_member<T>(s: Seq<T>, x: T) -> Seq<T> {
    match seq_index(s, x) {
        Some(_) => s,
        None => s.push(x),
    }
}

/// After adding a member, it is found; adding it again changes nothing.
pub proof fn lemma_with_member<T>(s: Seq<T>, x: T)
    ensures
        seq_index(with_member(s, x), x) is Some,
        with_member(with_member(s, x), x) == with_member(s, x),
        seq_index(s, x) is None ==> seq_index(with_member(s, x), x) == Some(s.len() as int),
        seq_index(s, x) is Some ==> seq_index(with_member(s, x), x) == seq_index(s, x),
{
    lemma_seq_index(s, x);
    if seq_index(s, x) is None {
        let t = s.push(x);
        assert forall|j: int| 0 <= j < s.len() implies t[j] != x by {
            assert(t[j] == s[j]);
        }
        lemma_seq_index_is(t, x, s.len() as int);
    }
}

} // verus!
