//! From Dart source text to the catalog.

use crate::catalog::{has_source, lemma_extended_in_turn, Entry};
use crate::catalog_codec::{
    csv_header, csv_rows, header_text, lemma_rows_text_in_turn, rows_text, write_header,
    write_row,
};
use crate::collector::{dedup, distinct};
use crate::csv_to_dart::catalog_of;
use crate::grammar::{idle, lines_scan, literals_of};
use crate::merger::{
    candidate, candidates, lemma_merge_first_wins, lemma_merge_keeps_rows, lemma_merge_known,
    merge_file, merged, offered, FileStrings,
};
use crate::scanner::{line_views, scan_line, split_lines, ScanState};
use crate::text::chars_of;
use vstd::prelude::*;
use vstd::string::StringExecFns;

verus! {

/// A Dart source file as plain sequences of characters.
pub struct SourceText {
    pub path: Seq<char>,
    pub text: Seq<char>,
}

/// A Dart source file: its path and its content.
pub struct SourceFile {
    pub path: String,
    pub text: String,
}

impl DeepView for SourceFile {
    type V = SourceText;

    open spec fn deep_view(&self) -> SourceText {
        SourceText { path: self.path@, text: self.text@ }
    }
}

/// What scanning gives for each of `files`: the strings marked for
/// translation in it, the first of each.
pub open spec fn scanned(files: Seq<SourceText>) -> Seq<FileStrings> {
    Seq::new(
        files.len(),
        |i: int|
            FileStrings { path: files[i].path, literals: distinct(literals_of(files[i].text)) },
    )
}

/// The byte of a line feed.
pub const LINE_FEED: u8 = 10;

/// The byte of a carriage return.
pub const CARRIAGE_RETURN: u8 = 13;

/// What must stand before new rows: the header where the catalog file is new
/// or empty, a line feed where its content does not end with a line break, and
/// nothing otherwise.
pub open spec fn lead(existing: Seq<u8>) -> Seq<char> {
    if existing.len() == 0 {
        header_text()
    } else if existing.last() == LINE_FEED || existing.last() == CARRIAGE_RETURN {
        Seq::empty()
    } else {
        seq!['\n']
    }
}

/// The rows that scanning `files` adds to the catalog whose file holds
/// `existing`.
pub open spec fn new_rows(existing: Seq<u8>, files: Seq<SourceText>) -> Seq<Entry> {
    let known = catalog_of(csv_header(existing), csv_rows(existing));
    merged(known, scanned(files)).skip(known.len() as int)
}

/// The text to put at the end of the catalog file that holds `existing`,
/// after `files` were scanned: nothing where no row is new.
pub open spec fn catalog_update(existing: Seq<u8>, files: Seq<SourceText>) -> Seq<char> {
    let fresh = new_rows(existing, files);
    if fresh.len() == 0 {
        Seq::empty()
    } else {
        lead(existing) + rows_text(fresh)
    }
}

/// A second run adds nothing: where every string found in `files` is the
/// source of a row of the catalog already, no row is new and there is nothing
/// to write.
pub proof fn lemma_known_strings_add_nothing(existing: Seq<u8>, files: Seq<SourceText>)
    requires
        forall|k: int|
            0 <= k < offered(scanned(files)).len() ==> has_source(
                catalog_of(csv_header(existing), csv_rows(existing)),
                #[trigger] offered(scanned(files))[k].source,
            ),
    ensures
        new_rows(existing, files) == Seq::<Entry>::empty(),
        catalog_update(existing, files) == Seq::<char>::empty(),
{
    lemma_merge_known(catalog_of(csv_header(existing), csv_rows(existing)), scanned(files));
}

/// The first row with a source wins: a new row never has the source of a row
/// that the catalog file holds, and its translation is empty.
pub proof fn lemma_new_rows_are_new(existing: Seq<u8>, files: Seq<SourceText>, i: int)
    requires
        0 <= i < new_rows(existing, files).len(),
    ensures
        !has_source(
            catalog_of(csv_header(existing), csv_rows(existing)),
            new_rows(existing, files)[i].source,
        ),
        new_rows(existing, files)[i].translation == Seq::<char>::empty(),
{
    let known = catalog_of(csv_header(existing), csv_rows(existing));
    lemma_merge_keeps_rows(known, scanned(files));
    lemma_merge_first_wins(known, scanned(files), known.len() + i);
}

/// Finds the strings of a Dart file's text that are marked for translation,
/// in the order in which they stand in it.
pub fn read_file(text: &str) -> (tr_strings: Vec<String>)
    ensures
        tr_strings.deep_view() == literals_of(text@),
{
    let chars = chars_of(text);
    let lines = split_lines(&chars);
    let ghost all = line_views(lines@);
    let mut tr_strings: Vec<String> = Vec::new();
    let mut state = ScanState::new();
    let mut i: usize = 0;
    assert(all.take(0) == Seq::<Seq<char>>::empty());
    assert(tr_strings.deep_view() == Seq::<Seq<char>>::empty());
    while i < lines.len()
        invariant
            i <= lines.len(),
            all == line_views(lines@),
            tr_strings.deep_view() == lines_scan(idle(), all.take(i as int)).literals,
            state@ == lines_scan(idle(), all.take(i as int)).state,
        decreases lines.len() - i,
    {
        assert(all.take(i + 1).drop_last() == all.take(i as int));
        assert(all.take(i + 1).last() == lines[i as int]@);
        state = scan_line(state, &lines[i], &mut tr_strings);
        i += 1;
    }
    assert(all.take(i as int) == all);
    tr_strings
}

/// Writes the catalog lines for the strings `translations` of the file
/// `sources_file`: one row for each, with the file as its location and an empty
/// translation.
pub fn write_file(sources_file: &String, translations: &Vec<String>) -> (text: String)
    ensures
        text@ == rows_text(candidates(sources_file@, translations.deep_view())),
{
    let ghost all = translations.deep_view();
    let mut text = String::new();
    let mut i: usize = 0;
    assert(candidates(sources_file@, all.take(0)) == Seq::<Entry>::empty());
    while i < translations.len()
        invariant
            i <= translations.len(),
            all == translations.deep_view(),
            text@ == rows_text(candidates(sources_file@, all.take(i as int))),
        decreases translations.len() - i,
    {
        assert(candidates(sources_file@, all.take(i + 1)).drop_last() == candidates(
            sources_file@,
            all.take(i as int),
        ));
        assert(candidates(sources_file@, all.take(i + 1)).last() == candidate(
            sources_file@,
            translations[i as int]@,
        ));
        let line = write_row(sources_file.as_str(), translations[i].as_str(), "");
        assert(""@ == Seq::<char>::empty()) by {
            reveal_strlit("");
        }
        text.append(line.unwrap().as_str());
        i += 1;
    }
    assert(all.take(i as int) == all);
    text
}

/// Scans `files` in their order and brings what is found into the catalog
/// whose file holds `existing` (nothing, where there is no such file yet).
/// Returns the text to put at the end of that file: the rows for the strings
/// that no row had as its source, after the header where the file is new.
/// Where no row is new the text is empty, and nothing is to be written.
pub fn dart_to_csv(existing: &[u8], files: &Vec<SourceFile>) -> (text: String)
    ensures
        text@ == catalog_update(existing@, files.deep_view()),
{
    let mut catalog = crate::csv_to_dart::read_file(existing);
    let known = catalog.len();
    let ghost start = catalog.deep_view();
    let ghost all = files.deep_view();
    let mut rows = String::new();
    let mut i: usize = 0;
    assert(offered(scanned(all.take(0))) == Seq::<Entry>::empty());
    assert(start.skip(known as int) == Seq::<Entry>::empty());
    while i < files.len()
        invariant
            i <= files.len(),
            all == files.deep_view(),
            known == start.len(),
            start.len() <= catalog.len(),
            catalog.deep_view() == merged(start, scanned(all.take(i as int))),
            rows@ == rows_text(catalog.deep_view().skip(known as int)),
        decreases files.len() - i,
    {
        let ghost before = catalog.deep_view();
        let found = read_file(files[i].text.as_str());
        let unique = dedup(&found);
        proof {
            let added = candidates(files[i as int].path@, unique.deep_view());
            assert(scanned(all.take(i + 1)).drop_last() == scanned(all.take(i as int)));
            assert(scanned(all.take(i + 1)).last() == (FileStrings {
                path: files[i as int].path@,
                literals: unique.deep_view(),
            }));
            lemma_extended_in_turn(start, offered(scanned(all.take(i as int))), added);
        }
        let fresh = merge_file(&mut catalog, &files[i].path, &unique);
        let lines = write_file(&files[i].path, &fresh);
        rows.append(lines.as_str());
        proof {
            let added = candidates(files[i as int].path@, fresh.deep_view());
            assert((before + added).skip(known as int) == before.skip(known as int) + added);
            lemma_rows_text_in_turn(before.skip(known as int), added);
        }
        i += 1;
    }
    assert(all.take(i as int) == all);
    if catalog.len() == known {
        return String::new();
    }
    let mut text = if existing.len() == 0 {
        write_header()
    } else if existing[existing.len() - 1] == LINE_FEED || existing[existing.len() - 1]
        == CARRIAGE_RETURN {
        String::new()
    } else {
        String::from_str("\n")
    };
    proof {
        reveal_strlit("\n");
        assert("\n"@ == seq!['\n']);
    }
    text.append(rows.as_str());
    text
}

} // verus!
