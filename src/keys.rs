use vstd::prelude::*;

verus! {

/// Strict lexicographic order on character sequences, comparing code points;
/// a proper prefix comes first. This is the order of `str`/`String`.
pub open spec fn key_lt(a: Seq<char>, b: Seq<char>) -> bool
    decreases a.len(),
{
    if a.len() == 0 {
        b.len() > 0
    } else if b.len() == 0 {
        false
    } else if a[0] != b[0] {
        (a[0] as u32) < (b[0] as u32)
    } else {
        key_lt(a.drop_first(), b.drop_first())
    }
}

/// No key occurs twice among the entries.
pub open spec fn keys_unique<V>(s: Seq<(Seq<char>, V)>) -> bool {
    forall|i: int, j: int| 0 <= i < s.len() && 0 <= j < s.len() && i != j ==> s[i].0 != s[j].0
}

/// The entries stand in strictly increasing key order.
pub open spec fn keys_sorted<V>(s: Seq<(Seq<char>, V)>) -> bool {
    forall|i: int, j: int| 0 <= i < j < s.len() ==> key_lt(s[i].0, s[j].0)
}

/// Position of the last entry with key `k`, or -1 when there is none.
pub open spec fn index_of<V>(s: Seq<(Seq<char>, V)>, k: Seq<char>) -> int
    decreases s.len(),
{
    if s.len() == 0 {
        -1
    } else if s.last().0 == k {
        s.len() - 1
    } else {
        index_of(s.drop_last(), k)
    }
}

/// What the entries associate with `k`.
pub open spec fn lookup<V>(s: Seq<(Seq<char>, V)>, k: Seq<char>) -> Option<V> {
    let i = index_of(s, k);
    if i >= 0 {
        Some(s[i].1)
    } else {
        None
    }
}

/// Entries after associating `k` with `v`: an existing key keeps its place
/// and takes the new value, a new key goes last.
pub open spec fn insert_entry<V>(s: Seq<(Seq<char>, V)>, k: Seq<char>, v: V) -> Seq<(Seq<char>, V)> {
    let i = index_of(s, k);
    if i >= 0 {
        s.update(i, (k, v))
    } else {
        s.push((k, v))
    }
}

/// Entries after inserting every entry of `u`, in order.
pub open spec fn extend_entries<V>(s: Seq<(Seq<char>, V)>, u: Seq<(Seq<char>, V)>) -> Seq<(Seq<char>, V)>
    decreases u.len(),
{
    if u.len() == 0 {
        s
    } else {
        let p = extend_entries(s, u.drop_last());
        insert_entry(p, u.last().0, u.last().1)
    }
}

pub proof fn lemma_index_of<V>(s: Seq<(Seq<char>, V)>, k: Seq<char>)
    ensures
        -1 <= index_of(s, k) < s.len(),
        index_of(s, k) >= 0 ==> s[index_of(s, k)].0 == k,
        index_of(s, k) == -1 <==> (forall|i: int| 0 <= i < s.len() ==> s[i].0 != k),
    decreases s.len(),
{
    if s.len() > 0 {
        lemma_index_of(s.drop_last(), k);
        if s.last().0 != k {
            assert forall|i: int| 0 <= i < s.len() - 1 implies s[i] == s.drop_last()[i] by {}
        }
    }
}

/// With unique keys, the entry found is the one entry with that key.
pub proof fn lemma_index_of_unique<V>(s: Seq<(Seq<char>, V)>, k: Seq<char>, i: int)
    requires
        keys_unique(s),
        0 <= i < s.len(),
        s[i].0 == k,
    ensures
        index_of(s, k) == i,
{
    lemma_index_of(s, k);
}

pub proof fn lemma_insert_entry<V>(s: Seq<(Seq<char>, V)>, k: Seq<char>, v: V)
    requires
        keys_unique(s),
    ensures
        keys_unique(insert_entry(s, k, v)),
        lookup(insert_entry(s, k, v), k) == Some(v),
        forall|k2: Seq<char>| k2 != k ==> lookup(#[trigger] insert_entry(s, k, v), k2) == lookup(s, k2),
{
    lemma_index_of(s, k);
    let t = insert_entry(s, k, v);
    assert(keys_unique(t));
    lemma_index_of(t, k);
    if index_of(s, k) >= 0 {
        lemma_index_of_unique(t, k, index_of(s, k));
    } else {
        lemma_index_of_unique(t, k, s.len() as int);
    }
    assert forall|k2: Seq<char>| k2 != k implies lookup(insert_entry(s, k, v), k2) == lookup(s, k2) by {
        lemma_index_of(s, k2);
        lemma_index_of(t, k2);
        if index_of(s, k2) >= 0 {
            lemma_index_of_unique(t, k2, index_of(s, k2));
        }
    }
}

/// The entries read as a map; a repeated key counts with its last value.
pub open spec fn entries_map<V>(s: Seq<(Seq<char>, V)>) -> Map<Seq<char>, V> {
    Map::new(|k: Seq<char>| index_of(s, k) >= 0, |k: Seq<char>| s[index_of(s, k)].1)
}

pub proof fn lemma_key_lt_irreflexive(a: Seq<char>)
    ensures
        !key_lt(a, a),
    decreases a.len(),
{
    if a.len() > 0 {
        lemma_key_lt_irreflexive(a.drop_first());
    }
}

pub proof fn lemma_sorted_unique<V>(s: Seq<(Seq<char>, V)>)
    requires
        keys_sorted(s),
    ensures
        keys_unique(s),
{
    assert forall|i: int, j: int| 0 <= i < s.len() && 0 <= j < s.len() && i != j implies s[i].0
        != s[j].0 by {
        lemma_key_lt_irreflexive(s[i].0);
    }
}

/// Where two entry sequences have the same key at each place, a key is found
/// at the same place in both.
pub proof fn lemma_index_of_same_keys<V, W>(s: Seq<(Seq<char>, V)>, t: Seq<(Seq<char>, W)>, k: Seq<char>)
    requires
        s.len() == t.len(),
        forall|i: int| 0 <= i < s.len() ==> s[i].0 == t[i].0,
    ensures
        index_of(s, k) == index_of(t, k),
    decreases s.len(),
{
    if s.len() > 0 {
        lemma_index_of_same_keys(s.drop_last(), t.drop_last(), k);
    }
}

/// Two sequences of distinct keys that hold the same entries hold the same map.
pub proof fn lemma_same_entries_map<V>(s: Seq<(Seq<char>, V)>, t: Seq<(Seq<char>, V)>)
    requires
        keys_unique(s),
        keys_unique(t),
        forall|e| s.contains(e) <==> t.contains(e),
    ensures
        entries_map(s) == entries_map(t),
{
    assert forall|k: Seq<char>| #![auto]
        (index_of(s, k) >= 0 <==> index_of(t, k) >= 0) && (index_of(s, k) >= 0 ==> s[index_of(
            s,
            k,
        )].1 == t[index_of(t, k)].1) by {
        lemma_index_of(s, k);
        lemma_index_of(t, k);
        if index_of(s, k) >= 0 {
            let e = s[index_of(s, k)];
            assert(s.contains(e));
            let j = choose|j: int| 0 <= j < t.len() && t[j] == e;
            lemma_index_of_unique(t, k, j);
        }
        if index_of(t, k) >= 0 {
            let e = t[index_of(t, k)];
            assert(t.contains(e));
            let j = choose|j: int| 0 <= j < s.len() && s[j] == e;
            lemma_index_of_unique(s, k, j);
        }
    }
    assert(entries_map(s) =~= entries_map(t));
}

pub proof fn lemma_insert_entry_map<V>(s: Seq<(Seq<char>, V)>, k: Seq<char>, v: V)
    requires
        keys_unique(s),
    ensures
        entries_map(insert_entry(s, k, v)) == entries_map(s).insert(k, v),
        keys_unique(insert_entry(s, k, v)),
        insert_entry(s, k, v).len() >= s.len(),
{
    lemma_insert_entry(s, k, v);
    let t = insert_entry(s, k, v);
    let m = entries_map(s).insert(k, v);
    assert forall|k2: Seq<char>|
        #![trigger entries_map(t).contains_key(k2)]
        #![trigger m.contains_key(k2)]
        entries_map(t).contains_key(k2) == m.contains_key(k2) && (m.contains_key(k2)
            ==> entries_map(t)[k2] == m[k2]) by {
        if k2 != k {
            assert(lookup(insert_entry(s, k, v), k2) == lookup(s, k2));
        } else {
            assert(lookup(insert_entry(s, k, v), k) == Some(v));
        }
    }
    lemma_index_of(s, k);
    assert(entries_map(t) =~= m);
}

pub proof fn lemma_extend_entries<V>(s: Seq<(Seq<char>, V)>, u: Seq<(Seq<char>, V)>)
    requires
        keys_unique(s),
    ensures
        keys_unique(extend_entries(s, u)),
        entries_map(extend_entries(s, u)) == entries_map(s).union_prefer_right(entries_map(u)),
    decreases u.len(),
{
    if u.len() == 0 {
        assert(entries_map(s).union_prefer_right(entries_map(u)) =~= entries_map(s));
    } else {
        let p = extend_entries(s, u.drop_last());
        lemma_extend_entries(s, u.drop_last());
        lemma_insert_entry_map(p, u.last().0, u.last().1);
        let m = entries_map(s).union_prefer_right(entries_map(u));
        let m2 = entries_map(s).union_prefer_right(entries_map(u.drop_last())).insert(
            u.last().0,
            u.last().1,
        );
        assert forall|k: Seq<char>| #![auto] m.contains_key(k) == m2.contains_key(k) && (m.contains_key(k) ==> m[k] == m2[k]) by {
            lemma_index_of(u, k);
            lemma_index_of(u.drop_last(), k);
        }
        assert(m =~= m2);
    }
}

} // verus!
