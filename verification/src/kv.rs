//! Association lists and the finite maps they denote.
//!
//! Small key-value stores throughout the crate (the venue cache, cookie
//! maps, response entry lists) are held as entry vectors; these are
//! their shared spec-level map semantics and search lemmas.

use vstd::prelude::*;

verus! {

/// The value at the first entry of `es` whose key reads `k`, if any.
pub open spec fn assoc_first<V>(es: Seq<(String, V)>, k: Seq<char>) -> Option<V>
    decreases es.len(),
{
    if es.len() == 0 {
        None
    } else if es[0].0@ == k {
        Some(es[0].1)
    } else {
        assoc_first(es.drop_first(), k)
    }
}

/// The finite map an entry list denotes, later entries winning.
pub open spec fn map_of<V>(es: Seq<(String, V)>) -> Map<Seq<char>, V>
    decreases es.len(),
{
    if es.len() == 0 {
        Map::empty()
    } else {
        map_of(es.drop_last()).insert(es.last().0@, es.last().1)
    }
}

/// Entry keys are pairwise distinct.
pub open spec fn keys_distinct<V>(es: Seq<(String, V)>) -> bool {
    forall|i: int, j: int| 0 <= i < j < es.len() ==> (#[trigger] es[i]).0@ != (#[trigger] es[j]).0@
}

pub proof fn lemma_map_of_contains<V>(es: Seq<(String, V)>, k: Seq<char>)
    ensures
        map_of(es).contains_key(k) <==> exists|i: int| 0 <= i < es.len() && (#[trigger] es[i]).0@
            == k,
    decreases es.len(),
{
    if es.len() > 0 {
        lemma_map_of_contains(es.drop_last(), k);
        if map_of(es).contains_key(k) {
            if es.last().0@ == k {
                assert(es[es.len() - 1].0@ == k);
            } else {
                let i = choose|i: int|
                    0 <= i < es.len() - 1 && (#[trigger] es.drop_last()[i]).0@ == k;
                assert(es[i].0@ == k);
            }
        }
        if exists|i: int| 0 <= i < es.len() && (#[trigger] es[i]).0@ == k {
            let i = choose|i: int| 0 <= i < es.len() && (#[trigger] es[i]).0@ == k;
            if i < es.len() - 1 {
                assert(es.drop_last()[i].0@ == k);
            }
        }
    }
}

pub proof fn lemma_assoc_exists<V>(es: Seq<(String, V)>, k: Seq<char>)
    ensures
        assoc_first(es, k) is Some <==> exists|i: int|
            0 <= i < es.len() && (#[trigger] es[i]).0@ == k,
    decreases es.len(),
{
    if es.len() > 0 {
        let tail = es.drop_first();
        lemma_assoc_exists(tail, k);
        if es[0].0@ != k {
            if assoc_first(es, k) is Some {
                let i = choose|i: int| 0 <= i < tail.len() && (#[trigger] tail[i]).0@ == k;
                assert(es[i + 1].0@ == k);
            }
            if exists|i: int| 0 <= i < es.len() && (#[trigger] es[i]).0@ == k {
                let i = choose|i: int| 0 <= i < es.len() && (#[trigger] es[i]).0@ == k;
                assert(tail[i - 1].0@ == k);
            }
        }
    }
}

pub proof fn lemma_map_of_assoc<V>(es: Seq<(String, V)>, k: Seq<char>)
    requires
        keys_distinct(es),
    ensures
        map_of(es).contains_key(k) <==> assoc_first(es, k) is Some,
        assoc_first(es, k) is Some ==> map_of(es)[k] == assoc_first(es, k)->0,
{
    lemma_map_of_contains(es, k);
    lemma_assoc_exists(es, k);
    if assoc_first(es, k) is Some {
        let i = choose|i: int| 0 <= i < es.len() && (#[trigger] es[i]).0@ == k;
        assert(forall|j: int| 0 <= j < i ==> (#[trigger] es[j]).0@ != k);
        assert(forall|j: int| i < j < es.len() ==> (#[trigger] es[j]).0@ != es[i].0@);
        lemma_assoc_skip(es, k, i);
        assert(es.skip(i)[0] == es[i]);
        lemma_map_of_index(es, i);
    }
}

pub proof fn lemma_map_of_index<V>(es: Seq<(String, V)>, i: int)
    requires
        0 <= i < es.len(),
        forall|j: int| i < j < es.len() ==> (#[trigger] es[j]).0@ != es[i].0@,
    ensures
        map_of(es).contains_key(es[i].0@),
        map_of(es)[es[i].0@] == es[i].1,
    decreases es.len(),
{
    if i == es.len() - 1 {
    } else {
        let p = es.drop_last();
        assert(forall|j: int| i < j < p.len() ==> (#[trigger] p[j]).0@ != p[i].0@);
        lemma_map_of_index(p, i);
        assert(es.last().0@ != es[i].0@);
    }
}

pub proof fn lemma_assoc_skip<V>(es: Seq<(String, V)>, k: Seq<char>, i: int)
    requires
        0 <= i <= es.len(),
        forall|j: int| 0 <= j < i ==> (#[trigger] es[j]).0@ != k,
    ensures
        assoc_first(es, k) == if i < es.len() && es[i].0@ == k {
            Some(es[i].1)
        } else {
            assoc_first(es.skip(i), k)
        },
    decreases i,
{
    if i > 0 {
        let tail = es.drop_first();
        assert(forall|j: int| 0 <= j < i - 1 ==> (#[trigger] tail[j]).0@ == es[j + 1].0@);
        lemma_assoc_skip(tail, k, i - 1);
        assert(tail.skip(i - 1) =~= es.skip(i));
        if i < es.len() && es[i].0@ == k {
            assert(tail[i - 1] == es[i]);
        }
    } else {
        assert(es.skip(0) =~= es);
    }
}


} // verus!
