//! Helpers over sets of broadcast values.

use std::collections::HashSet;
use vstd::prelude::*;

verus! {

broadcast use vstd::std_specs::hash::group_hash_axioms;

/// The elements of `set`, each once, in the order the set hands them out.
pub fn elements(set: &HashSet<usize>) -> (items: Vec<usize>)
    ensures
        items@.no_duplicates(),
        items@.to_set() == set@,
{
    let mut items: Vec<usize> = Vec::new();
    for x in it: set.iter()
        invariant
            items@ == it.seq().unref().take(it.index() as int),
            it.seq().unref().to_set() == set@,
            it.seq().no_duplicates(),
            it.index() == it.seq().len() ==> items@ == it.seq().unref(),
    {
        items.push(*x);
        assert(it.seq().unref().take(it.seq().len() as int) =~= it.seq().unref());
    }
    items
}

/// Taking one more item of a list adds that item to the set of those taken.
pub proof fn lemma_take_one_more<A>(items: Seq<A>, i: int)
    requires
        0 <= i < items.len(),
    ensures
        items.take(i + 1).to_set() == items.take(i).to_set().insert(items[i]),
{
    let before = items.take(i);
    let after = items.take(i + 1);
    assert(after =~= before.push(items[i]));
    assert forall|x: A| after.to_set().contains(x) <==> (before.to_set().contains(x) || x
        == items[i]) by {
        if after.contains(x) {
            let j = choose|j: int| 0 <= j < after.len() && after[j] == x;
            if j < i {
                assert(before[j] == x);
            }
        }
        if before.contains(x) {
            let j = choose|j: int| 0 <= j < before.len() && before[j] == x;
            assert(after[j] == x);
        }
        assert(after[i] == items[i]);
    }
    assert(after.to_set() =~= before.to_set().insert(items[i]));
}

/// Adds every item of a list to `target`.
pub fn insert_all(target: &mut HashSet<usize>, items: &Vec<usize>)
    ensures
        final(target)@ == old(target)@.union(items@.to_set()),
{
    let mut i: usize = 0;
    assert(target@ =~= old(target)@.union(items@.take(0).to_set()));
    while i < items.len()
        invariant
            i <= items@.len(),
            target@ == old(target)@.union(items@.take(i as int).to_set()),
        decreases items@.len() - i,
    {
        target.insert(items[i]);
        proof {
            lemma_take_one_more(items@, i as int);
            assert(target@ =~= old(target)@.union(items@.take(i + 1).to_set()));
        }
        i += 1;
    }
    proof {
        assert(items@.take(items@.len() as int) =~= items@);
    }
}

/// The set of the items of a list.
pub fn collect(items: &Vec<usize>) -> (set: HashSet<usize>)
    ensures
        set@ == items@.to_set(),
{
    let mut set: HashSet<usize> = HashSet::new();
    insert_all(&mut set, items);
    assert(set@ =~= items@.to_set());
    set
}

/// Adds every element of `from` to `target`.
pub fn absorb(target: &mut HashSet<usize>, from: &HashSet<usize>)
    ensures
        final(target)@ == old(target)@.union(from@),
{
    let items = elements(from);
    insert_all(target, &items);
}

/// A set with the same elements.
pub fn copy(set: &HashSet<usize>) -> (same: HashSet<usize>)
    ensures
        same@ == set@,
{
    let mut same: HashSet<usize> = HashSet::new();
    absorb(&mut same, set);
    assert(same@ =~= set@);
    same
}

/// The elements of `whole` that `known` lacks.
pub fn difference(whole: &HashSet<usize>, known: &HashSet<usize>) -> (rest: HashSet<usize>)
    ensures
        rest@ == whole@.difference(known@),
{
    let items = elements(whole);
    let mut rest: HashSet<usize> = HashSet::new();
    let mut i: usize = 0;
    while i < items.len()
        invariant
            i <= items@.len(),
            items@.to_set() == whole@,
            forall|x: usize|
                rest@.contains(x) <==> (exists|j: int|
                    0 <= j < i && items@[j] == x && !known@.contains(x)),
        decreases items@.len() - i,
    {
        let x = items[i];
        if !known.contains(&x) {
            rest.insert(x);
        }
        i += 1;
    }
    proof {
        assert forall|x: usize| rest@.contains(x) <==> whole@.difference(known@).contains(x) by {
            if whole@.contains(x) && !known@.contains(x) {
                assert(items@.to_set().contains(x));
                assert(items@.contains(x));
                let j = choose|j: int| 0 <= j < items@.len() && items@[j] == x;
                assert(0 <= j < i && items@[j] == x);
            }
            if rest@.contains(x) {
                let j = choose|j: int| 0 <= j < i && items@[j] == x && !known@.contains(x);
                assert(items@.contains(x));
            }
        }
        assert(rest@ =~= whole@.difference(known@));
    }
    rest
}

} // verus!
