//! Keeps of the strings of one file the first of each.

use vstd::prelude::*;

verus! {

/// `items` without the items that occurred before: the first of each stays,
/// in its place among the others.
pub open spec fn distinct(items: Seq<Seq<char>>) -> Seq<Seq<char>>
    decreases items.len(),
{
    if items.len() == 0 {
        items
    } else {
        let before = distinct(items.drop_last());
        if before.contains(items.last()) {
            before
        } else {
            before.push(items.last())
        }
    }
}

/// `distinct(items)` holds what `items` holds.
pub proof fn lemma_distinct_holds(items: Seq<Seq<char>>, item: Seq<char>)
    ensures
        distinct(items).contains(item) <==> items.contains(item),
    decreases items.len(),
{
    if items.len() > 0 {
        let front = items.drop_last();
        let before = distinct(front);
        let after = distinct(items);
        lemma_distinct_holds(front, item);
        lemma_distinct_holds(front, items.last());
        if items.contains(item) {
            let k = choose|k: int| 0 <= k < items.len() && items[k] == item;
            if k < front.len() {
                assert(front[k] == item);
            }
        }
        if front.contains(item) {
            let k = choose|k: int| 0 <= k < front.len() && front[k] == item;
            assert(items[k] == item);
        }
        if before.contains(item) {
            let k = choose|k: int| 0 <= k < before.len() && before[k] == item;
            assert(after[k] == item);
        }
        if after.contains(item) && !before.contains(item) {
            let k = choose|k: int| 0 <= k < after.len() && after[k] == item;
            if k < before.len() {
                assert(before[k] == item);
            }
            assert(items[items.len() - 1] == item);
        }
        if items.last() == item && !before.contains(item) {
            assert(after[after.len() - 1] == item);
        }
    }
}

/// `distinct(items)` holds nothing twice.
pub proof fn lemma_distinct_no_duplicates(items: Seq<Seq<char>>)
    ensures
        distinct(items).no_duplicates(),
    decreases items.len(),
{
    if items.len() > 0 {
        lemma_distinct_no_duplicates(items.drop_last());
    }
}

/// Tells whether `item` is among `items`.
pub fn holds(items: &Vec<String>, item: &String) -> (found: bool)
    ensures
        found == items.deep_view().contains(item@),
{
    let mut i: usize = 0;
    while i < items.len()
        invariant
            i <= items.len(),
            !items.deep_view().take(i as int).contains(item@),
        decreases items.len() - i,
    {
        if items[i] == *item {
            assert(items.deep_view()[i as int] == item@);
            return true;
        }
        i += 1;
    }
    assert(items.deep_view().take(i as int) == items.deep_view());
    false
}

/// Removes from the strings of one file those that occurred before in it. Two
/// strings are the same only if they are equal character by character.
pub fn dedup(literals: &Vec<String>) -> (unique: Vec<String>)
    ensures
        unique.deep_view() == distinct(literals.deep_view()),
        unique.deep_view().no_duplicates(),
{
    let ghost all = literals.deep_view();
    let mut unique: Vec<String> = Vec::new();
    let mut i: usize = 0;
    assert(all.take(0) == Seq::<Seq<char>>::empty());
    assert(unique.deep_view() == Seq::<Seq<char>>::empty());
    while i < literals.len()
        invariant
            i <= literals.len(),
            all == literals.deep_view(),
            unique.deep_view() == distinct(all.take(i as int)),
        decreases literals.len() - i,
    {
        let ghost before = unique.deep_view();
        assert(all.take(i + 1).drop_last() == all.take(i as int));
        assert(all.take(i + 1).last() == literals[i as int]@);
        if !holds(&unique, &literals[i]) {
            unique.push(literals[i].clone());
            assert(unique.deep_view() == before.push(literals[i as int]@));
        }
        i += 1;
    }
    assert(all.take(i as int) == all);
    proof {
        lemma_distinct_no_duplicates(all);
    }
    unique
}

} // verus!
