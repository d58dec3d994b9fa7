use rand::seq::IteratorRandom;
use vstd::prelude::*;
use crate::keyed::{has_key, key_set};
use crate::message::NodeId;

verus! {

/// How many peers one gossip round reaches at most.
pub const FANOUT: usize = 4;

/// The names that a list of node ids holds.
pub open spec fn names(s: Seq<NodeId>) -> Seq<Seq<char>> {
    s.map_values(|n: NodeId| n@)
}

/// `targets` is a possible outcome of picking up to `amount` of `candidates` at random.
pub open spec fn is_pick(targets: Seq<Seq<char>>, candidates: Seq<Seq<char>>, amount: nat) -> bool {
    &&& targets.len() == if candidates.len() <= amount { candidates.len() } else { amount }
    &&& forall|i: int| 0 <= i < targets.len() ==> candidates.contains(#[trigger] targets[i])
    &&& candidates.no_duplicates() ==> targets.no_duplicates()
    &&& candidates.len() <= amount ==> targets == candidates
}

/// Relies on rand's `IteratorRandom::choose_multiple` (reservoir sampling over a thread-local
/// generator): it keeps `amount` items taken from distinct positions, or all of them, in their
/// order, when there are no more than `amount`.
#[verifier::external_body]
pub(crate) fn choose_peers(candidates: &Vec<NodeId>, amount: usize) -> (r: Vec<NodeId>)
    ensures
        is_pick(names(r@), names(candidates@), amount as nat),
{
    let mut rng = rand::thread_rng();
    candidates.iter().choose_multiple(&mut rng, amount).into_iter().cloned().collect()
}

/// A copy of a list of node ids.
pub fn copy_nodes(v: &Vec<NodeId>) -> (r: Vec<NodeId>)
    ensures
        r@ == v@,
{
    let mut r: Vec<NodeId> = Vec::new();
    let mut i: usize = 0;
    while i < v.len()
        invariant
            i <= v@.len(),
            r@ == v@.subrange(0, i as int),
        decreases v@.len() - i,
    {
        r.push(v[i].clone());
        i = i + 1;
    }
    assert(r@ =~= v@);
    r
}

/// Whether `n` is among `v`.
pub fn contains_node(v: &Vec<NodeId>, n: &NodeId) -> (r: bool)
    ensures
        r == names(v@).contains(n@),
{
    let mut i: usize = 0;
    while i < v.len()
        invariant
            i <= v@.len(),
            forall|j: int| 0 <= j < i ==> #[trigger] v@[j]@ != n@,
        decreases v@.len() - i,
    {
        if v[i] == *n {
            assert(names(v@)[i as int] == n@);
            return true;
        }
        i = i + 1;
    }
    assert forall|j: int| 0 <= j < names(v@).len() implies names(v@)[j] != n@ by {
        assert(v@[j]@ != n@);
    }
    false
}

/// Adds `n` to the set of names held by `v`.
pub fn insert_node(v: &mut Vec<NodeId>, n: &NodeId)
    ensures
        names(old(v)@).no_duplicates() ==> names(final(v)@).no_duplicates(),
        names(final(v)@).to_set() == names(old(v)@).to_set().insert(n@),
        names(final(v)@) == if names(old(v)@).contains(n@) {
            names(old(v)@)
        } else {
            names(old(v)@).push(n@)
        },
{
    if !contains_node(v, n) {
        v.push(n.clone());
        assert(names(v@) =~= names(old(v)@).push(n@));
    }
    proof {
        lemma_names_push_set(names(old(v)@), n@);
    }
}

/// Adds every name of `ns` to the set of names held by `v`.
pub fn insert_nodes(v: &mut Vec<NodeId>, ns: &Vec<NodeId>)
    requires
        names(old(v)@).no_duplicates(),
    ensures
        names(final(v)@).no_duplicates(),
        names(final(v)@).to_set() == names(old(v)@).to_set() + names(ns@).to_set(),
{
    let mut i: usize = 0;
    while i < ns.len()
        invariant
            i <= ns@.len(),
            names(v@).no_duplicates(),
            names(v@).to_set() == names(old(v)@).to_set() + names(ns@.subrange(0, i as int)).to_set(),
        decreases ns@.len() - i,
    {
        let ghost before = names(v@);
        insert_node(v, &ns[i]);
        proof {
            lemma_names_push_set(before, ns@[i as int]@);
            assert(names(ns@.subrange(0, i + 1)) =~= names(ns@.subrange(0, i as int)).push(ns@[i as int]@));
            lemma_names_push_set(names(ns@.subrange(0, i as int)), ns@[i as int]@);
        }
        i = i + 1;
    }
    assert(ns@.subrange(0, i as int) =~= ns@);
}

/// Adds every key of `entries` to the set of names held by `v`.
pub fn insert_keys<T>(v: &mut Vec<NodeId>, entries: &Vec<(NodeId, T)>)
    requires
        names(old(v)@).no_duplicates(),
    ensures
        names(final(v)@).no_duplicates(),
        names(final(v)@).to_set() == names(old(v)@).to_set() + key_set(entries@),
{
    let mut i: usize = 0;
    while i < entries.len()
        invariant
            i <= entries@.len(),
            names(v@).no_duplicates(),
            names(v@).to_set() == names(old(v)@).to_set() + key_set(entries@.subrange(0, i as int)),
        decreases entries@.len() - i,
    {
        let ghost before = names(v@);
        insert_node(v, &entries[i].0);
        proof {
            lemma_names_push_set(before, entries@[i as int].0@);
            let s0 = entries@.subrange(0, i as int);
            let s1 = entries@.subrange(0, i + 1);
            assert forall|k: Seq<char>| #[trigger] key_set(s1).contains(k) <==> key_set(s0).insert(
                entries@[i as int].0@,
            ).contains(k) by {
                if has_key(s0, k) {
                    let j = choose|j: int| 0 <= j < s0.len() && #[trigger] s0[j].0@ == k;
                    assert(s1[j].0@ == k);
                }
                if has_key(s1, k) && k != entries@[i as int].0@ {
                    let j = choose|j: int| 0 <= j < s1.len() && #[trigger] s1[j].0@ == k;
                    assert(s0[j].0@ == k);
                }
                assert(s1[i as int].0@ == entries@[i as int].0@);
            }
            assert(key_set(s1) =~= key_set(s0).insert(entries@[i as int].0@));
        }
        i = i + 1;
    }
    assert(entries@.subrange(0, i as int) =~= entries@);
}

/// Inserting a name into a list without duplicates, as `insert_node` does, as sets.
proof fn lemma_names_push_set(s: Seq<Seq<char>>, n: Seq<char>)
    ensures
        s.push(n).to_set() == s.to_set().insert(n),
        s.no_duplicates() && !s.contains(n) ==> s.push(n).no_duplicates(),
        s.contains(n) ==> s.to_set().insert(n) == s.to_set(),
{
    s.lemma_push_to_set_commute(n);
    if s.contains(n) {
        assert(s.to_set().insert(n) =~= s.to_set());
    }
}

/// Whether `x` is among `v`.
pub fn contains_value(v: &Vec<isize>, x: isize) -> (r: bool)
    ensures
        r == v@.contains(x),
{
    let mut i: usize = 0;
    while i < v.len()
        invariant
            i <= v@.len(),
            forall|j: int| 0 <= j < i ==> v@[j] != x,
        decreases v@.len() - i,
    {
        if v[i] == x {
            return true;
        }
        i = i + 1;
    }
    false
}

/// Adds `x` to the set of values held by `v`.
pub fn insert_value(v: &mut Vec<isize>, x: isize)
    ensures
        final(v)@ == if old(v)@.contains(x) {
            old(v)@
        } else {
            old(v)@.push(x)
        },
{
    if !contains_value(v, x) {
        v.push(x);
    }
}

/// Adds `x` to the set of values held by `v`.
pub fn insert_value_u64(v: &mut Vec<u64>, x: u64)
    ensures
        final(v)@ == if old(v)@.contains(x) {
            old(v)@
        } else {
            old(v)@.push(x)
        },
{
    let mut i: usize = 0;
    while i < v.len()
        invariant
            i <= v@.len(),
            v@ == old(v)@,
            forall|j: int| 0 <= j < i ==> v@[j] != x,
        decreases v@.len() - i,
    {
        if v[i] == x {
            return;
        }
        i = i + 1;
    }
    v.push(x);
}

} // verus!
