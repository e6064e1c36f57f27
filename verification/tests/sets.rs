use std::collections::HashSet;
use whirlpool::sets::{absorb, collect, copy, difference, elements, insert_all};

fn set_of(items: &[usize]) -> HashSet<usize> {
    items.iter().copied().collect()
}

#[test]
fn elements_lists_each_value_once() {
    let mut items = elements(&set_of(&[3, 1, 2]));
    items.sort();
    assert_eq!(items, vec![1, 2, 3]);
    assert!(elements(&HashSet::new()).is_empty());
}

#[test]
fn collect_drops_repetition() {
    assert_eq!(collect(&vec![4, 4, 5, 4]), set_of(&[4, 5]));
    assert_eq!(collect(&vec![]), HashSet::new());
}

#[test]
fn insert_all_is_a_union() {
    let mut target = set_of(&[1, 2]);
    insert_all(&mut target, &vec![2, 3, 3]);
    assert_eq!(target, set_of(&[1, 2, 3]));
}

#[test]
fn absorb_is_a_union() {
    let mut target = set_of(&[1, 2]);
    absorb(&mut target, &set_of(&[2, 7]));
    assert_eq!(target, set_of(&[1, 2, 7]));
    absorb(&mut target, &HashSet::new());
    assert_eq!(target, set_of(&[1, 2, 7]));
}

#[test]
fn copy_is_equal_and_separate() {
    let first = set_of(&[1, 2]);
    let mut same = copy(&first);
    assert_eq!(same, first);
    same.insert(3);
    assert_eq!(first, set_of(&[1, 2]));
}

#[test]
fn difference_keeps_what_is_not_known() {
    assert_eq!(difference(&set_of(&[1, 2, 3]), &set_of(&[2, 9])), set_of(&[1, 3]));
    assert_eq!(difference(&set_of(&[1, 2]), &set_of(&[1, 2])), HashSet::new());
    assert_eq!(difference(&set_of(&[1, 2]), &HashSet::new()), set_of(&[1, 2]));
    assert_eq!(difference(&HashSet::new(), &set_of(&[1])), HashSet::new());
}
