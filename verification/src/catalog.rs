//! The catalog as a sequence of rows, and what it means to add rows to it.
//!
//! The source of a row is its key. A catalog never holds two rows with one
//! source wherever it is built by `extended`, and a row that is in the catalog
//! stays what and where it is: the first row with a source wins.

use vstd::prelude::*;

verus! {

/// What a catalog row says, as plain sequences of characters.
pub struct Entry {
    /// The file, or other context, in which the string was found.
    pub location: Seq<char>,
    /// The string as it stands in the source text: the key of the catalog.
    pub source: Seq<char>,
    /// The translator's text, possibly empty.
    pub translation: Seq<char>,
}

/// Whether some row of `catalog` has the source `source`.
pub open spec fn has_source(catalog: Seq<Entry>, source: Seq<char>) -> bool {
    exists|i: int| 0 <= i < catalog.len() && #[trigger] catalog[i].source == source
}

/// Whether no two rows of `catalog` have the same source.
pub open spec fn unique_sources(catalog: Seq<Entry>) -> bool {
    forall|i: int, j: int|
        0 <= i < j < catalog.len() ==> #[trigger] catalog[i].source != #[trigger] catalog[j].source
}

/// `catalog` after `candidates` were offered to it one after the other: a
/// candidate is appended if no row before it has its source, and dropped
/// otherwise.
pub open spec fn extended(catalog: Seq<Entry>, candidates: Seq<Entry>) -> Seq<Entry>
    decreases candidates.len(),
{
    if candidates.len() == 0 {
        catalog
    } else {
        let before = extended(catalog, candidates.drop_last());
        if has_source(before, candidates.last().source) {
            before
        } else {
            before.push(candidates.last())
        }
    }
}

/// The rows of `catalog` are the first rows of `extended(catalog, candidates)`,
/// unchanged and in their order.
pub proof fn lemma_extended_keeps_rows(catalog: Seq<Entry>, candidates: Seq<Entry>)
    ensures
        catalog.len() <= extended(catalog, candidates).len(),
        extended(catalog, candidates).take(catalog.len() as int) == catalog,
    decreases candidates.len(),
{
    if candidates.len() > 0 {
        lemma_extended_keeps_rows(catalog, candidates.drop_last());
        let before = extended(catalog, candidates.drop_last());
        assert(before.push(candidates.last()).take(catalog.len() as int) == before.take(
            catalog.len() as int,
        ));
    }
}

/// A source is in `extended(catalog, candidates)` exactly if it is in `catalog`
/// or is the source of a candidate.
pub proof fn lemma_extended_sources(
    catalog: Seq<Entry>,
    candidates: Seq<Entry>,
    source: Seq<char>,
)
    ensures
        has_source(extended(catalog, candidates), source) <==> has_source(catalog, source)
            || has_source(candidates, source),
    decreases candidates.len(),
{
    if candidates.len() > 0 {
        let front = candidates.drop_last();
        let before = extended(catalog, front);
        let after = extended(catalog, candidates);
        lemma_extended_sources(catalog, front, source);
        lemma_extended_sources(catalog, front, candidates.last().source);
        if has_source(candidates, source) {
            let k = choose|k: int| 0 <= k < candidates.len() && candidates[k].source == source;
            if k < front.len() {
                assert(front[k].source == source);
            }
        }
        if has_source(front, source) {
            let k = choose|k: int| 0 <= k < front.len() && front[k].source == source;
            assert(candidates[k].source == source);
        }
        if has_source(before, source) {
            let k = choose|k: int| 0 <= k < before.len() && before[k].source == source;
            assert(after[k].source == source);
        }
        if has_source(after, source) && !has_source(before, source) {
            let k = choose|k: int| 0 <= k < after.len() && after[k].source == source;
            if k < before.len() {
                assert(before[k].source == source);
            }
            assert(candidates[candidates.len() - 1].source == source);
        }
        if candidates.last().source == source && !has_source(before, source) {
            assert(after[after.len() - 1].source == source);
        }
    }
}

/// Adding rows to a catalog without a repeated source gives a catalog without
/// a repeated source.
pub proof fn lemma_extended_unique(catalog: Seq<Entry>, candidates: Seq<Entry>)
    requires
        unique_sources(catalog),
    ensures
        unique_sources(extended(catalog, candidates)),
    decreases candidates.len(),
{
    if candidates.len() > 0 {
        lemma_extended_unique(catalog, candidates.drop_last());
    }
}

/// Candidates whose sources are all in the catalog leave it as it is.
pub proof fn lemma_extended_known(catalog: Seq<Entry>, candidates: Seq<Entry>)
    requires
        forall|k: int|
            0 <= k < candidates.len() ==> has_source(catalog, #[trigger] candidates[k].source),
    ensures
        extended(catalog, candidates) == catalog,
    decreases candidates.len(),
{
    if candidates.len() > 0 {
        let front = candidates.drop_last();
        assert forall|k: int| 0 <= k < front.len() implies has_source(
            catalog,
            #[trigger] front[k].source,
        ) by {
            assert(front[k] == candidates[k]);
        }
        lemma_extended_known(catalog, front);
        assert(has_source(catalog, candidates[candidates.len() - 1].source));
    }
}

/// Offering two runs of candidates one after the other is offering them in one
/// run.
pub proof fn lemma_extended_in_turn(catalog: Seq<Entry>, first: Seq<Entry>, second: Seq<Entry>)
    ensures
        extended(catalog, first + second) == extended(extended(catalog, first), second),
    decreases second.len(),
{
    if second.len() == 0 {
        assert(first + second == first);
    } else {
        lemma_extended_in_turn(catalog, first, second.drop_last());
        assert((first + second).drop_last() == first + second.drop_last());
        assert((first + second).last() == second.last());
    }
}

/// Offering the same candidates a second time adds nothing.
pub proof fn lemma_extended_twice(catalog: Seq<Entry>, candidates: Seq<Entry>)
    ensures
        extended(extended(catalog, candidates), candidates) == extended(catalog, candidates),
{
    let once = extended(catalog, candidates);
    assert forall|k: int| 0 <= k < candidates.len() implies has_source(
        once,
        #[trigger] candidates[k].source,
    ) by {
        lemma_extended_sources(catalog, candidates, candidates[k].source);
    }
    lemma_extended_known(once, candidates);
}

/// Every row that `extended` appends is one of the candidates, and its source
/// was not in the catalog.
pub proof fn lemma_extended_new_rows(catalog: Seq<Entry>, candidates: Seq<Entry>, i: int)
    requires
        catalog.len() <= i < extended(catalog, candidates).len(),
    ensures
        candidates.contains(extended(catalog, candidates)[i]),
        !has_source(catalog, extended(catalog, candidates)[i].source),
    decreases candidates.len(),
{
    lemma_extended_keeps_rows(catalog, candidates);
    if candidates.len() > 0 {
        let front = candidates.drop_last();
        let before = extended(catalog, front);
        lemma_extended_keeps_rows(catalog, front);
        if i < before.len() {
            lemma_extended_new_rows(catalog, front, i);
            let k = choose|k: int| 0 <= k < front.len() && front[k] == before[i];
            assert(candidates[k] == before[i]);
        } else {
            assert(candidates[candidates.len() - 1] == extended(catalog, candidates)[i]);
            lemma_extended_sources(catalog, front, candidates.last().source);
        }
    }
}

} // verus!
