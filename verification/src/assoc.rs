use vstd::prelude::*;

verus! {

/// Index of the first entry whose name is `key`, or -1 when there is none.
pub open spec fn key_index<V>(m: Seq<(Seq<char>, V)>, key: Seq<char>) -> int {
    if exists|i: int| 0 <= i < m.len() && m[i].0 == key && forall|k: int| 0 <= k < i ==> m[k].0 != key {
        choose|i: int| 0 <= i < m.len() && m[i].0 == key && forall|k: int| 0 <= k < i ==> m[k].0 != key
    } else {
        -1
    }
}

/// The value of the first entry named `key`.
pub open spec fn assoc_get<V>(m: Seq<(Seq<char>, V)>, key: Seq<char>) -> Option<V> {
    let i = key_index(m, key);
    if i >= 0 {
        Some(m[i].1)
    } else {
        None
    }
}

/// Sets the value of the first entry named `key`, or appends a new entry when there is none.
pub open spec fn assoc_insert<V>(m: Seq<(Seq<char>, V)>, key: Seq<char>, value: V) -> Seq<(Seq<char>, V)> {
    let i = key_index(m, key);
    if i >= 0 {
        m.update(i, (key, value))
    } else {
        m.push((key, value))
    }
}

pub proof fn lemma_key_index_is<V>(m: Seq<(Seq<char>, V)>, key: Seq<char>, i: int)
    requires
        0 <= i < m.len(),
        m[i].0 == key,
        forall|k: int| 0 <= k < i ==> m[k].0 != key,
    ensures
        key_index(m, key) == i,
{
    let j = key_index(m, key);
    assert(0 <= j < m.len() && m[j].0 == key && forall|k: int| 0 <= k < j ==> m[k].0 != key);
    if j < i {
        assert(m[j].0 != key);
    }
    if j > i {
        assert(m[i].0 != key);
    }
}

pub proof fn lemma_key_index_absent<V>(m: Seq<(Seq<char>, V)>, key: Seq<char>)
    requires
        forall|k: int| 0 <= k < m.len() ==> m[k].0 != key,
    ensures
        key_index(m, key) == -1,
{
}

pub proof fn lemma_key_index_bounds<V>(m: Seq<(Seq<char>, V)>, key: Seq<char>)
    ensures
        -1 <= key_index(m, key) < m.len(),
        key_index(m, key) >= 0 ==> m[key_index(m, key)].0 == key,
        key_index(m, key) >= 0 ==> forall|k: int| 0 <= k < key_index(m, key) ==> m[k].0 != key,
        key_index(m, key) == -1 ==> forall|k: int| 0 <= k < m.len() ==> m[k].0 != key,
{
    if key_index(m, key) == -1 {
        assert forall|k: int| 0 <= k < m.len() implies m[k].0 != key by {
            if m[k].0 == key {
                lemma_first_exists(m, key, k);
            }
        }
    }
}

proof fn lemma_first_exists<V>(m: Seq<(Seq<char>, V)>, key: Seq<char>, k: int)
    requires
        0 <= k < m.len(),
        m[k].0 == key,
    ensures
        exists|i: int| 0 <= i < m.len() && m[i].0 == key && forall|j: int| 0 <= j < i ==> m[j].0 != key,
    decreases k,
{
    if exists|j: int| 0 <= j < k && m[j].0 == key {
        let j = choose|j: int| 0 <= j < k && m[j].0 == key;
        lemma_first_exists(m, key, j);
    } else {
        assert(forall|j: int| 0 <= j < k ==> m[j].0 != key);
    }
}

/// Reading back a name just set gives the value set; other names are unaffected.
pub proof fn lemma_assoc_get_insert<V>(m: Seq<(Seq<char>, V)>, key: Seq<char>, value: V, other: Seq<char>)
    ensures
        assoc_get(assoc_insert(m, key, value), key) == Some(value),
        other != key ==> assoc_get(assoc_insert(m, key, value), other) == assoc_get(m, other),
{
    lemma_key_index_bounds(m, key);
    lemma_key_index_bounds(m, other);
    let n = assoc_insert(m, key, value);
    let i = key_index(m, key);
    if i >= 0 {
        lemma_key_index_is(n, key, i);
        assert forall|k: int| 0 <= k < n.len() implies n[k].0 == m[k].0 by {}
        let o = key_index(m, other);
        if o >= 0 {
            lemma_key_index_is(n, other, o);
        } else {
            lemma_key_index_absent(n, other);
        }
    } else {
        lemma_key_index_is(n, key, m.len() as int);
        if other != key {
            let o = key_index(m, other);
            if o >= 0 {
                lemma_key_index_is(n, other, o);
            } else {
                lemma_key_index_absent(n, other);
            }
        }
    }
}

/// The value of the entry at `i` is what `key` gives, when no earlier entry has that name.
pub proof fn lemma_assoc_get_at<V>(m: Seq<(Seq<char>, V)>, key: Seq<char>, i: int)
    requires
        0 <= i < m.len(),
        m[i].0 == key,
        forall|k: int| 0 <= k < i ==> m[k].0 != key,
    ensures
        assoc_get(m, key) == Some(m[i].1),
{
    lemma_key_index_is(m, key, i);
}

}

