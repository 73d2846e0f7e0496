//! Brings the strings of scanned files into a catalog.
//!
//! The rows that the catalog has stay as they are, translations and all. A
//! string becomes a new row, with the file as its location and an empty
//! translation, unless a row before it has it as its source.

use crate::catalog::{
    extended, has_source, lemma_extended_in_turn, lemma_extended_keeps_rows, lemma_extended_known,
    lemma_extended_new_rows, lemma_extended_sources, lemma_extended_twice, lemma_extended_unique,
    unique_sources, Entry,
};
use crate::collector::{distinct, lemma_distinct_holds};
use crate::csv_to_dart::{check_for_duplicates, Record};
use vstd::prelude::*;

verus! {

/// The strings found in one file, as plain sequences of characters.
pub struct FileStrings {
    pub path: Seq<char>,
    pub literals: Seq<Seq<char>>,
}

/// The strings found in one file.
pub struct ScannedFile {
    pub path: String,
    pub literals: Vec<String>,
}

impl DeepView for ScannedFile {
    type V = FileStrings;

    open spec fn deep_view(&self) -> FileStrings {
        FileStrings { path: self.path@, literals: self.literals.deep_view() }
    }
}

/// The row that a string found in the file `path` would be.
pub open spec fn candidate(path: Seq<char>, literal: Seq<char>) -> Entry {
    Entry { location: path, source: literal, translation: Seq::empty() }
}

/// The rows that the strings `literals` of the file `path` would be.
pub open spec fn candidates(path: Seq<char>, literals: Seq<Seq<char>>) -> Seq<Entry> {
    Seq::new(literals.len(), |i: int| candidate(path, literals[i]))
}

/// The rows that the strings of `files` would be, file after file.
pub open spec fn offered(files: Seq<FileStrings>) -> Seq<Entry>
    decreases files.len(),
{
    if files.len() == 0 {
        Seq::empty()
    } else {
        offered(files.drop_last()) + candidates(files.last().path, files.last().literals)
    }
}

/// The catalog `existing` after the strings of `files` were brought in.
pub open spec fn merged(existing: Seq<Entry>, files: Seq<FileStrings>) -> Seq<Entry> {
    extended(existing, offered(files))
}

/// Merging keeps every row of the catalog, with its translation, in its
/// place: the rows of `existing` are the first rows of the merged catalog.
pub proof fn lemma_merge_keeps_rows(existing: Seq<Entry>, files: Seq<FileStrings>)
    ensures
        existing.len() <= merged(existing, files).len(),
        merged(existing, files).take(existing.len() as int) == existing,
{
    lemma_extended_keeps_rows(existing, offered(files));
}

/// Every row that the files offer has an empty translation.
pub proof fn lemma_offered_blank(files: Seq<FileStrings>, row: Entry)
    requires
        offered(files).contains(row),
    ensures
        row.translation == Seq::<char>::empty(),
    decreases files.len(),
{
    if files.len() > 0 {
        let last = candidates(files.last().path, files.last().literals);
        let k = choose|k: int| 0 <= k < offered(files).len() && offered(files)[k] == row;
        if k < offered(files.drop_last()).len() {
            assert(offered(files.drop_last())[k] == row);
            lemma_offered_blank(files.drop_last(), row);
        } else {
            assert(last[k - offered(files.drop_last()).len()] == row);
        }
    }
}

/// The first row with a source wins: a row that merging adds has a source
/// that no row of `existing` has, so that no row of `existing` gets a second
/// row beside it; and its translation is empty.
pub proof fn lemma_merge_first_wins(existing: Seq<Entry>, files: Seq<FileStrings>, i: int)
    requires
        existing.len() <= i < merged(existing, files).len(),
    ensures
        !has_source(existing, merged(existing, files)[i].source),
        merged(existing, files)[i].translation == Seq::<char>::empty(),
{
    lemma_extended_new_rows(existing, offered(files), i);
    lemma_offered_blank(files, merged(existing, files)[i]);
}

/// Where every string of the files is the source of a row already, merging
/// leaves the catalog as it is.
pub proof fn lemma_merge_known(existing: Seq<Entry>, files: Seq<FileStrings>)
    requires
        forall|k: int|
            0 <= k < offered(files).len() ==> has_source(
                existing,
                #[trigger] offered(files)[k].source,
            ),
    ensures
        merged(existing, files) == existing,
{
    lemma_extended_known(existing, offered(files));
}

/// After merging, the catalog has a row for a source exactly if it had one
/// before or the source is a string of one of the files.
pub proof fn lemma_merge_sources(
    existing: Seq<Entry>,
    files: Seq<FileStrings>,
    source: Seq<char>,
)
    ensures
        has_source(merged(existing, files), source) <==> has_source(existing, source)
            || has_source(offered(files), source),
{
    lemma_extended_sources(existing, offered(files), source);
}

/// A catalog without a repeated source has none after merging.
pub proof fn lemma_merge_unique(existing: Seq<Entry>, files: Seq<FileStrings>)
    requires
        unique_sources(existing),
    ensures
        unique_sources(merged(existing, files)),
{
    lemma_extended_unique(existing, offered(files));
}

/// Merging the same files a second time adds no row.
pub proof fn lemma_merge_twice(existing: Seq<Entry>, files: Seq<FileStrings>)
    ensures
        merged(merged(existing, files), files) == merged(existing, files),
{
    lemma_extended_twice(existing, offered(files));
}

/// A string that occurs twice in a file gives the catalog what it gives when
/// it occurs once: it makes no difference whether the repetitions within the
/// file are removed before it is merged.
pub proof fn lemma_merge_distinct(catalog: Seq<Entry>, path: Seq<char>, literals: Seq<Seq<char>>)
    ensures
        extended(catalog, candidates(path, distinct(literals))) == extended(
            catalog,
            candidates(path, literals),
        ),
    decreases literals.len(),
{
    if literals.len() > 0 {
        let front = literals.drop_last();
        let last = literals.last();
        lemma_merge_distinct(catalog, path, front);
        let before = extended(catalog, candidates(path, front));
        assert(candidates(path, literals).drop_last() == candidates(path, front));
        assert(candidates(path, literals).last() == candidate(path, last));
        if distinct(front).contains(last) {
            lemma_distinct_holds(front, last);
            let k = choose|k: int| 0 <= k < front.len() && front[k] == last;
            assert(candidates(path, front)[k].source == last);
            lemma_extended_sources(catalog, candidates(path, front), last);
        } else {
            assert(candidates(path, distinct(front).push(last)).drop_last() == candidates(
                path,
                distinct(front),
            ));
            assert(candidates(path, distinct(front).push(last)).last() == candidate(path, last));
        }
    }
}

/// Brings the strings of one file into the catalog, in their order, and
/// returns those that became rows.
pub fn merge_file(catalog: &mut Vec<Record>, path: &String, literals: &Vec<String>) -> (fresh: Vec<
    String,
>)
    ensures
        final(catalog).deep_view() == extended(
            old(catalog).deep_view(),
            candidates(path@, literals.deep_view()),
        ),
        final(catalog).deep_view() == old(catalog).deep_view() + candidates(
            path@,
            fresh.deep_view(),
        ),
{
    let ghost start = catalog.deep_view();
    let ghost all = literals.deep_view();
    let mut fresh: Vec<String> = Vec::new();
    let mut i: usize = 0;
    assert(candidates(path@, all.take(0)) == Seq::<Entry>::empty());
    assert(start + candidates(path@, fresh.deep_view()) == start);
    while i < literals.len()
        invariant
            i <= literals.len(),
            all == literals.deep_view(),
            catalog.deep_view() == extended(start, candidates(path@, all.take(i as int))),
            catalog.deep_view() == start + candidates(path@, fresh.deep_view()),
        decreases literals.len() - i,
    {
        let ghost before = catalog.deep_view();
        let ghost added = fresh.deep_view();
        assert(candidates(path@, all.take(i + 1)).drop_last() == candidates(
            path@,
            all.take(i as int),
        ));
        assert(candidates(path@, all.take(i + 1)).last() == candidate(path@, literals[i as int]@));
        let record = Record {
            location: path.clone(),
            source: literals[i].clone(),
            translation: String::new(),
        };
        assert(record.deep_view() == candidate(path@, literals[i as int]@));
        if !check_for_duplicates(catalog, &record) {
            catalog.push(record);
            fresh.push(literals[i].clone());
            assert(catalog.deep_view() == before.push(candidate(path@, literals[i as int]@)));
            assert(fresh.deep_view() == added.push(literals[i as int]@));
            assert(candidates(path@, added.push(literals[i as int]@)) == candidates(
                path@,
                added,
            ).push(candidate(path@, literals[i as int]@)));
            assert(start + candidates(path@, added).push(candidate(path@, literals[i as int]@))
                == (start + candidates(path@, added)).push(
                candidate(path@, literals[i as int]@),
            ));
        }
        i += 1;
    }
    assert(all.take(i as int) == all);
    fresh
}

/// Brings the strings of `files` into the catalog `existing`, file after
/// file. The rows of `existing` stay where and what they are; a catalog without
/// a repeated source stays one.
pub fn merge(existing: Vec<Record>, files: &Vec<ScannedFile>) -> (catalog: Vec<Record>)
    ensures
        catalog.deep_view() == merged(existing.deep_view(), files.deep_view()),
        existing.len() <= catalog.len(),
        catalog.deep_view().take(existing.len() as int) == existing.deep_view(),
        unique_sources(existing.deep_view()) ==> unique_sources(catalog.deep_view()),
{
    let ghost start = existing.deep_view();
    let ghost all = files.deep_view();
    let mut catalog = existing;
    let mut i: usize = 0;
    assert(offered(all.take(0)) == Seq::<Entry>::empty());
    while i < files.len()
        invariant
            i <= files.len(),
            all == files.deep_view(),
            catalog.deep_view() == merged(start, all.take(i as int)),
        decreases files.len() - i,
    {
        assert(all.take(i + 1).drop_last() == all.take(i as int));
        assert(all.take(i + 1).last() == files[i as int].deep_view());
        proof {
            lemma_extended_in_turn(
                start,
                offered(all.take(i as int)),
                candidates(files[i as int].path@, files[i as int].literals.deep_view()),
            );
        }
        merge_file(&mut catalog, &files[i].path, &files[i].literals);
        i += 1;
    }
    assert(all.take(i as int) == all);
    proof {
        lemma_merge_keeps_rows(start, all);
        if unique_sources(start) {
            lemma_merge_unique(start, all);
        }
        assert(catalog.deep_view().len() == catalog.len());
        assert(start.len() == existing.len());
    }
    catalog
}

} // verus!
