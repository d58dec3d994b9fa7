use vstd::prelude::*;

verus! {

/// No two entries of `s` share a key.
pub open spec fn keys_unique<T>(s: Seq<(String, T)>) -> bool {
    forall|i: int, j: int|
        0 <= i < s.len() && 0 <= j < s.len() && i != j ==> #[trigger] s[i].0@ != #[trigger] s[j].0@
}

/// `s` has an entry for `k`.
pub open spec fn has_key<T>(s: Seq<(String, T)>, k: Seq<char>) -> bool {
    exists|i: int| 0 <= i < s.len() && #[trigger] s[i].0@ == k
}

/// Entry `i` is the first entry of `s` with key `k`.
pub open spec fn is_first_key<T>(s: Seq<(String, T)>, k: Seq<char>, i: int) -> bool {
    &&& 0 <= i < s.len()
    &&& s[i].0@ == k
    &&& forall|j: int| 0 <= j < i ==> #[trigger] s[j].0@ != k
}

/// The keys that the association list `s` holds.
pub open spec fn key_set<T>(s: Seq<(String, T)>) -> Set<Seq<char>> {
    Set::new(|k: Seq<char>| has_key(s, k))
}

/// The map that the association list `s` stands for.
pub open spec fn to_map<T>(s: Seq<(String, T)>) -> Map<Seq<char>, T> {
    Map::new(
        |k: Seq<char>| has_key(s, k),
        |k: Seq<char>| s[choose|i: int| 0 <= i < s.len() && #[trigger] s[i].0@ == k].1,
    )
}

/// Reading an entry through the map.
pub proof fn lemma_to_map_index<T>(s: Seq<(String, T)>, i: int)
    requires
        keys_unique(s),
        0 <= i < s.len(),
    ensures
        to_map(s).contains_key(s[i].0@),
        to_map(s)[s[i].0@] == s[i].1,
{
    assert(has_key(s, s[i].0@));
}

/// Every entry of `s` is read back through the map.
pub proof fn lemma_to_map_all<T>(s: Seq<(String, T)>)
    requires
        keys_unique(s),
    ensures
        forall|i: int|
            0 <= i < s.len() ==> to_map(s).contains_key(#[trigger] s[i].0@) && to_map(s)[s[i].0@]
                == s[i].1,
{
    assert forall|i: int| 0 <= i < s.len() implies to_map(s).contains_key(#[trigger] s[i].0@)
        && to_map(s)[s[i].0@] == s[i].1 by {
        lemma_to_map_index(s, i);
    }
}

/// The map of a list is finite.
pub proof fn lemma_to_map_finite<T>(s: Seq<(String, T)>)
    ensures
        to_map(s).dom().finite(),
    decreases s.len(),
{
    if s.len() == 0 {
        assert(to_map(s).dom() =~= Set::empty());
    } else {
        let t = s.drop_last();
        lemma_to_map_finite(t);
        assert forall|k: Seq<char>| #[trigger] to_map(s).dom().contains(k) implies to_map(t).dom().insert(
            s.last().0@,
        ).contains(k) by {
            let i = choose|i: int| 0 <= i < s.len() && #[trigger] s[i].0@ == k;
            if i < s.len() - 1 {
                assert(t[i].0@ == k);
            }
        }
        vstd::set_lib::lemma_len_subset(to_map(s).dom(), to_map(t).dom().insert(s.last().0@));
    }
}

/// Overwriting the value of entry `i` overwrites the value of its key.
pub proof fn lemma_to_map_update<T>(s: Seq<(String, T)>, i: int, v: T)
    requires
        keys_unique(s),
        0 <= i < s.len(),
    ensures
        keys_unique(s.update(i, (s[i].0, v))),
        to_map(s.update(i, (s[i].0, v))) == to_map(s).insert(s[i].0@, v),
{
    let t = s.update(i, (s[i].0, v));
    assert forall|a: int, b: int|
        0 <= a < t.len() && 0 <= b < t.len() && a != b implies #[trigger] t[a].0@ != #[trigger] t[b].0@ by {
        assert(s[a].0@ != s[b].0@);
    }
    lemma_to_map_index(t, i);
    assert forall|k: Seq<char>| #[trigger] to_map(t).contains_key(k) <==> to_map(s).insert(
        s[i].0@,
        v,
    ).contains_key(k) by {
        if has_key(s, k) {
            let j = choose|j: int| 0 <= j < s.len() && #[trigger] s[j].0@ == k;
            assert(t[j].0@ == k);
        }
        if has_key(t, k) {
            let j = choose|j: int| 0 <= j < t.len() && #[trigger] t[j].0@ == k;
            assert(s[j].0@ == k);
        }
    }
    assert forall|k: Seq<char>| #[trigger] to_map(t).contains_key(k) && k != s[i].0@ implies to_map(
        t,
    )[k] == to_map(s)[k] by {
        let j = choose|j: int| 0 <= j < t.len() && #[trigger] t[j].0@ == k;
        lemma_to_map_index(t, j);
        lemma_to_map_index(s, j);
    }
    assert(to_map(t) =~= to_map(s).insert(s[i].0@, v));
}

/// Appending an entry under a new key adds that key.
pub proof fn lemma_to_map_push<T>(s: Seq<(String, T)>, k: String, v: T)
    requires
        keys_unique(s),
        !has_key(s, k@),
    ensures
        keys_unique(s.push((k, v))),
        to_map(s.push((k, v))) == to_map(s).insert(k@, v),
{
    let t = s.push((k, v));
    assert forall|a: int, b: int|
        0 <= a < t.len() && 0 <= b < t.len() && a != b implies #[trigger] t[a].0@ != #[trigger] t[b].0@ by {
        if a < s.len() && b < s.len() {
            assert(s[a].0@ != s[b].0@);
        } else if a < s.len() {
            assert(s[a].0@ != k@);
        } else {
            assert(s[b].0@ != k@);
        }
    }
    lemma_to_map_index(t, s.len() as int);
    assert forall|key: Seq<char>| #[trigger] to_map(t).contains_key(key) <==> to_map(s).insert(
        k@,
        v,
    ).contains_key(key) by {
        if has_key(s, key) {
            let j = choose|j: int| 0 <= j < s.len() && #[trigger] s[j].0@ == key;
            assert(t[j].0@ == key);
        }
        if has_key(t, key) && key != k@ {
            let j = choose|j: int| 0 <= j < t.len() && #[trigger] t[j].0@ == key;
            assert(s[j].0@ == key);
        }
    }
    assert forall|key: Seq<char>| #[trigger] to_map(t).contains_key(key) && key != k@ implies to_map(
        t,
    )[key] == to_map(s)[key] by {
        let j = choose|j: int| 0 <= j < t.len() && #[trigger] t[j].0@ == key;
        lemma_to_map_index(t, j);
        lemma_to_map_index(s, j);
    }
    assert(to_map(t) =~= to_map(s).insert(k@, v));
}

/// The position of `k` in `v`, if it has an entry.
pub fn find_key<T>(v: &Vec<(String, T)>, k: &String) -> (r: Option<usize>)
    ensures
        match r {
            Some(i) => is_first_key(v@, k@, i as int),
            None => !has_key(v@, k@),
        },
{
    let mut i: usize = 0;
    while i < v.len()
        invariant
            i <= v@.len(),
            forall|j: int| 0 <= j < i ==> #[trigger] v@[j].0@ != k@,
        decreases v@.len() - i,
    {
        if v[i].0 == *k {
            return Some(i);
        }
        i = i + 1;
    }
    None
}

} // verus!
