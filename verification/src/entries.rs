use vstd::prelude::*;

verus! {

// Lists of named entries used as maps: each name occurs once, a new name is
// appended, and setting a present name replaces its value in place.

/// The index of the first occurrence of `k` in `keys`.
pub open spec fn first_index(keys: Seq<Seq<char>>, k: Seq<char>) -> Option<nat>
    decreases keys.len(),
{
    if keys.len() == 0 {
        None
    } else if keys[0] == k {
        Some(0)
    } else {
        match first_index(keys.drop_first(), k) {
            Some(i) => Some(i + 1),
            None => None,
        }
    }
}

/// The names of a list of entries.
pub open spec fn names_of<V>(s: Seq<(Seq<char>, V)>) -> Seq<Seq<char>> {
    s.map_values(|e: (Seq<char>, V)| e.0)
}

/// The names of a list of entries keyed by strings.
pub open spec fn string_names<V>(s: Seq<(String, V)>) -> Seq<Seq<char>> {
    s.map_values(|e: (String, V)| e.0@)
}

/// The value of the entry named `k`, if any.
pub open spec fn lookup<V>(s: Seq<(Seq<char>, V)>, k: Seq<char>) -> Option<V> {
    match first_index(names_of(s), k) {
        Some(i) => Some(s[i as int].1),
        None => None,
    }
}

/// `s` with the entry named `k` set to `v`.
pub open spec fn put<V>(s: Seq<(Seq<char>, V)>, k: Seq<char>, v: V) -> Seq<(Seq<char>, V)> {
    match first_index(names_of(s), k) {
        Some(i) => s.update(i as int, (k, v)),
        None => s.push((k, v)),
    }
}

/// `first_index` finds the first occurrence of `k`, and none if there is none.
pub proof fn lemma_first_index(keys: Seq<Seq<char>>, k: Seq<char>)
    ensures
        match first_index(keys, k) {
            Some(i) => i < keys.len() && keys[i as int] == k && forall|j: int| 0 <= j < i ==> keys[j] != k,
            None => forall|j: int| 0 <= j < keys.len() ==> keys[j] != k,
        },
    decreases keys.len(),
{
    if keys.len() > 0 && keys[0] != k {
        lemma_first_index(keys.drop_first(), k);
        match first_index(keys.drop_first(), k) {
            Some(i) => {
                assert forall|j: int| 0 <= j < i + 1 implies keys[j] != k by {
                    if j > 0 {
                        assert(keys[j] == keys.drop_first()[j - 1]);
                    }
                }
            },
            None => {
                assert forall|j: int| 0 <= j < keys.len() implies keys[j] != k by {
                    if j > 0 {
                        assert(keys[j] == keys.drop_first()[j - 1]);
                    }
                }
            },
        }
    }
}

/// `first_index` is determined by the properties that `lemma_first_index` states.
pub proof fn lemma_first_index_unique(keys: Seq<Seq<char>>, k: Seq<char>, i: Option<nat>)
    requires
        match i {
            Some(i) => i < keys.len() && keys[i as int] == k && forall|j: int| 0 <= j < i ==> keys[j] != k,
            None => forall|j: int| 0 <= j < keys.len() ==> keys[j] != k,
        },
    ensures
        first_index(keys, k) == i,
{
    lemma_first_index(keys, k);
    match (first_index(keys, k), i) {
        (Some(a), Some(b)) => {
            if a < b {
                assert(keys[a as int] != k);
            } else if b < a {
                assert(keys[b as int] != k);
            }
        },
        (Some(a), None) => {
            assert(keys[a as int] != k);
        },
        (None, Some(b)) => {
            assert(keys[b as int] != k);
        },
        (None, None) => {},
    }
}

/// Reading an entry back after setting it gives the value set, and setting
/// one name leaves every other name as it was.
pub proof fn lemma_put_lookup<V>(s: Seq<(Seq<char>, V)>, k: Seq<char>, v: V, other: Seq<char>)
    ensures
        lookup(put(s, k, v), k) == Some(v),
        other != k ==> lookup(put(s, k, v), other) == lookup(s, other),
{
    let t = put(s, k, v);
    lemma_first_index(names_of(s), k);
    lemma_first_index(names_of(s), other);
    match first_index(names_of(s), k) {
        Some(i) => {
            assert(names_of(t) =~= names_of(s).update(i as int, k));
        },
        None => {
            assert(names_of(t) =~= names_of(s).push(k));
        },
    }
    lemma_first_index(names_of(t), k);
    lemma_first_index(names_of(t), other);
    match first_index(names_of(t), k) {
        Some(j) => {
            match first_index(names_of(s), k) {
                Some(i) => {
                    if j < i {
                        assert(names_of(s)[j as int] == names_of(t)[j as int]);
                    } else if i < j {
                        assert(names_of(t)[i as int] == k);
                    }
                },
                None => {
                    if j < s.len() {
                        assert(names_of(s)[j as int] == names_of(t)[j as int]);
                    }
                },
            }
        },
        None => {
            match first_index(names_of(s), k) {
                Some(i) => assert(names_of(t)[i as int] == k),
                None => assert(names_of(t)[s.len() as int] == k),
            }
        },
    }
    if other != k {
        match (first_index(names_of(s), other), first_index(names_of(t), other)) {
            (Some(a), Some(b)) => {
                if a < b {
                    assert(names_of(t)[a as int] == names_of(s)[a as int]);
                } else if b < a {
                    assert(names_of(t)[b as int] == names_of(s)[b as int]);
                }
            },
            (Some(a), None) => {
                assert(names_of(t)[a as int] == names_of(s)[a as int]);
            },
            (None, Some(b)) => {
                if b < s.len() {
                    assert(names_of(t)[b as int] == names_of(s)[b as int]);
                }
            },
            (None, None) => {},
        }
    }
}

/// Finds the first entry named `key`.
pub fn find_key<V>(entries: &Vec<(String, V)>, key: &String) -> (r: Option<usize>)
    ensures
        match r {
            Some(i) => first_index(string_names(entries@), key@) == Some(i as nat),
            None => first_index(string_names(entries@), key@) is None,
        },
{
    let ghost keys = string_names(entries@);
    let mut i: usize = 0;
    while i < entries.len()
        invariant
            keys == string_names(entries@),
            keys.len() == entries.len(),
            i <= entries.len(),
            forall|j: int| 0 <= j < i ==> keys[j] != key@,
        decreases entries.len() - i,
    {
        if entries[i].0 == *key {
            proof { lemma_first_index_unique(keys, key@, Some(i as nat)); }
            return Some(i);
        }
        i += 1;
    }
    proof { lemma_first_index_unique(keys, key@, None); }
    None
}

/// Sets the entry named `key` to `value`: in place if there is one, else at the end.
pub fn put_entry<V>(entries: &mut Vec<(String, V)>, key: String, value: V)
    ensures
        final(entries)@ == match first_index(string_names(old(entries)@), key@) {
            Some(i) => old(entries)@.update(i as int, (key, value)),
            None => old(entries)@.push((key, value)),
        },
{
    match find_key(entries, &key) {
        Some(i) => {
            proof { lemma_first_index(string_names(entries@), key@); }
            entries.set(i, (key, value));
        },
        None => {
            entries.push((key, value));
        },
    }
}

} // verus!
