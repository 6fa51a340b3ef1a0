//! Insertion-ordered maps with string keys, held as vectors of pairs:
//! inserting an existing key replaces its value in place, a new key goes last.
use vstd::prelude::*;

verus! {

/// The pairs with each key taken by its view.
pub open spec fn entries<V>(v: Seq<(String, V)>) -> Seq<(Seq<char>, V)> {
    v.map_values(|p: (String, V)| (p.0@, p.1))
}

/// The position of the first entry with key `k`.
pub open spec fn key_index<V>(m: Seq<(Seq<char>, V)>, k: Seq<char>) -> Option<int>
    decreases m.len(),
{
    if m.len() == 0 {
        None
    } else {
        match key_index(m.drop_last(), k) {
            Some(i) => Some(i),
            None => if m.last().0 == k { Some(m.len() - 1) } else { None },
        }
    }
}

/// The map after inserting `k` with value `v`.
pub open spec fn insert_entry<V>(m: Seq<(Seq<char>, V)>, k: Seq<char>, v: V) -> Seq<(Seq<char>, V)> {
    match key_index(m, k) {
        Some(i) => m.update(i, (k, v)),
        None => m.push((k, v)),
    }
}

/// The value stored under `k`.
pub open spec fn lookup<V>(m: Seq<(Seq<char>, V)>, k: Seq<char>) -> Option<V> {
    match key_index(m, k) {
        Some(i) => Some(m[i].1),
        None => None,
    }
}

proof fn lemma_key_index<V>(m: Seq<(Seq<char>, V)>, k: Seq<char>, i: int)
    requires
        0 <= i <= m.len(),
        forall|j: int| 0 <= j < i ==> m[j].0 != k,
        i < m.len() ==> m[i].0 == k,
    ensures
        key_index(m, k) == (if i < m.len() { Some(i) } else { None::<int> }),
    decreases m.len(),
{
    if m.len() > 0 {
        if i < m.len() - 1 {
            lemma_key_index(m.drop_last(), k, i);
        } else {
            lemma_key_index(m.drop_last(), k, m.len() - 1);
        }
    }
}

/// Finds the position of key `k`.
pub fn find_key<V>(m: &Vec<(String, V)>, k: &str) -> (r: Option<usize>)
    ensures
        match key_index(entries(m@), k@) {
            Some(i) => r is Some && r.unwrap() as int == i,
            None => r is None,
        },
        r is Some ==> r.unwrap() < m@.len(),
{
    let mut i: usize = 0;
    while i < m.len()
        invariant
            i <= m@.len(),
            forall|j: int| 0 <= j < i ==> entries(m@)[j].0 != k@,
        decreases m@.len() - i,
    {
        if crate::text::str_equal(m[i].0.as_str(), k) {
            proof {
                lemma_key_index(entries(m@), k@, i as int);
            }
            return Some(i);
        }
        i = i + 1;
    }
    proof {
        lemma_key_index(entries(m@), k@, m@.len() as int);
    }
    None
}

/// Inserts `k` with value `v`, replacing the value of an existing key in place.
pub fn insert<V>(m: &mut Vec<(String, V)>, k: String, v: V)
    ensures
        entries(final(m)@) == insert_entry(entries(old(m)@), k@, v),
{
    let ghost before = m@;
    match find_key(m, k.as_str()) {
        Some(i) => {
            m.set(i, (k, v));
            proof {
                assert(entries(m@) =~= entries(before).update(i as int, (k@, v)));
            }
        },
        None => {
            m.push((k, v));
            proof {
                assert(entries(m@) =~= entries(before).push((k@, v)));
            }
        },
    }
}

/// The value stored under `k`, if any.
pub fn get<'a, V>(m: &'a Vec<(String, V)>, k: &str) -> (r: Option<&'a V>)
    ensures
        match lookup(entries(m@), k@) {
            Some(v) => r is Some && *r.unwrap() == v,
            None => r is None,
        },
{
    match find_key(m, k) {
        Some(i) => Some(&m[i].1),
        None => None,
    }
}

/// Where `key_index` points, the key is found; where it finds nothing, the key is absent.
pub proof fn lemma_key_index_found<V>(m: Seq<(Seq<char>, V)>, k: Seq<char>)
    ensures
        match key_index(m, k) {
            Some(i) => 0 <= i < m.len() && m[i].0 == k && forall|j: int| 0 <= j < i ==> m[j].0 != k,
            None => forall|j: int| 0 <= j < m.len() ==> m[j].0 != k,
        },
    decreases m.len(),
{
    if m.len() > 0 {
        lemma_key_index_found(m.drop_last(), k);
        assert forall|j: int| 0 <= j < m.len() - 1 implies m[j] == m.drop_last()[j] by {}
    }
}

/// Applying `f` to every value keeps every key where it was.
pub proof fn lemma_key_index_map_values<V, W>(m: Seq<(Seq<char>, V)>, f: spec_fn(V) -> W, k: Seq<char>)
    ensures
        key_index(m.map_values(|p: (Seq<char>, V)| (p.0, f(p.1))), k) == key_index(m, k),
    decreases m.len(),
{
    if m.len() > 0 {
        let g = |p: (Seq<char>, V)| (p.0, f(p.1));
        assert(m.drop_last().map_values(g) =~= m.map_values(g).drop_last());
        lemma_key_index_map_values(m.drop_last(), f, k);
    }
}

/// A read after a write gives back what was written, and leaves every other
/// key as it was.
pub proof fn read_after_insert<V>(m: Seq<(Seq<char>, V)>, k: Seq<char>, v: V, other: Seq<char>)
    ensures
        lookup(insert_entry(m, k, v), k) == Some(v),
        other != k ==> lookup(insert_entry(m, k, v), other) == lookup(m, other),
{
    lemma_key_index_found(m, k);
    lemma_key_index_found(m, other);
    let n = insert_entry(m, k, v);
    lemma_key_index_found(n, k);
    lemma_key_index_found(n, other);
    match key_index(m, k) {
        Some(i) => {
            assert(n == m.update(i, (k, v)));
            assert(n[i].0 == k);
            match key_index(n, k) {
                Some(j) => {
                    if j < i {
                        assert(n[j] == m[j]);
                    }
                    if j > i {
                        assert(n[i].0 == k);
                    }
                },
                None => {
                    assert(n[i].0 == k);
                },
            }
            if other != k {
                match key_index(m, other) {
                    Some(j) => {
                        assert(n[j] == m[j]);
                        match key_index(n, other) {
                            Some(l) => {
                                if l < j {
                                    assert(n[l] == m[l] || l == i);
                                }
                                if l > j {
                                    assert(n[j].0 == other);
                                }
                            },
                            None => {
                                assert(n[j].0 == other);
                            },
                        }
                    },
                    None => {
                        match key_index(n, other) {
                            Some(l) => {
                                if l != i {
                                    assert(n[l] == m[l]);
                                }
                            },
                            None => {},
                        }
                    },
                }
            }
        },
        None => {
            assert(n == m.push((k, v)));
            match key_index(n, k) {
                Some(j) => {
                    if j < m.len() {
                        assert(n[j] == m[j]);
                    }
                },
                None => {
                    assert(n[m.len() as int].0 == k);
                },
            }
            if other != k {
                match key_index(m, other) {
                    Some(j) => {
                        assert(n[j] == m[j]);
                        match key_index(n, other) {
                            Some(l) => {
                                if l < j {
                                    assert(n[l] == m[l]);
                                }
                                if l > j {
                                    assert(n[j].0 == other);
                                }
                            },
                            None => {
                                assert(n[j].0 == other);
                            },
                        }
                    },
                    None => {
                        match key_index(n, other) {
                            Some(l) => {
                                if l < m.len() {
                                    assert(n[l] == m[l]);
                                }
                            },
                            None => {},
                        }
                    },
                }
            }
        },
    }
}

/// The map `m` after inserting every entry of `other`, in order.
pub open spec fn merged<V>(m: Seq<(Seq<char>, V)>, other: Seq<(Seq<char>, V)>) -> Seq<(Seq<char>, V)>
    decreases other.len(),
{
    if other.len() == 0 {
        m
    } else {
        insert_entry(merged(m, other.drop_last()), other.last().0, other.last().1)
    }
}

/// Inserting two runs of entries is inserting the first, then the second.
pub proof fn merged_concat<V>(m: Seq<(Seq<char>, V)>, a: Seq<(Seq<char>, V)>, b: Seq<(Seq<char>, V)>)
    ensures
        merged(m, a + b) == merged(merged(m, a), b),
    decreases b.len(),
{
    if b.len() == 0 {
        assert(a + b =~= a);
    } else {
        assert((a + b).drop_last() =~= a + b.drop_last());
        merged_concat(m, a, b.drop_last());
    }
}

/// Inserting one entry.
pub proof fn merged_one<V>(m: Seq<(Seq<char>, V)>, k: Seq<char>, v: V)
    ensures
        merged(m, seq![(k, v)]) == insert_entry(m, k, v),
{
    let one = seq![(k, v)];
    assert(one.drop_last() =~= Seq::<(Seq<char>, V)>::empty());
    assert(merged(m, one.drop_last()) == m);
    assert(one.last() == (k, v));
}

/// Inserting into a map and then mapping its values is mapping them first.
pub proof fn insert_map_values<V, W>(m: Seq<(Seq<char>, V)>, f: spec_fn(V) -> W, k: Seq<char>, v: V)
    ensures
        insert_entry(m, k, v).map_values(|p: (Seq<char>, V)| (p.0, f(p.1))) == insert_entry(
            m.map_values(|p: (Seq<char>, V)| (p.0, f(p.1))),
            k,
            f(v),
        ),
{
    let g = |p: (Seq<char>, V)| (p.0, f(p.1));
    lemma_key_index_map_values(m, f, k);
    lemma_key_index_found(m, k);
    match key_index(m, k) {
        Some(i) => {
            assert(insert_entry(m, k, v).map_values(g) =~= m.map_values(g).update(i, (k, f(v))));
        },
        None => {
            assert(insert_entry(m, k, v).map_values(g) =~= m.map_values(g).push((k, f(v))));
        },
    }
}

} // verus!
