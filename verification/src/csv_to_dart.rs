//! From the catalog to the Dart lookup map.

use crate::catalog::{extended, has_source, lemma_extended_unique, unique_sources, Entry};
use crate::catalog_codec::{csv_header, csv_rows, read_header, read_rows};
use crate::map_codec::{entry_lines, line_of, map_text, opening};
use vstd::prelude::*;
use vstd::std_specs::cmp::PartialEqSpecImpl;
use vstd::string::StringExecFns;

verus! {

/// One row of the catalog.
#[derive(Debug)]
pub struct Record {
    pub location: String,
    pub source: String,
    pub translation: String,
}

impl DeepView for Record {
    type V = Entry;

    open spec fn deep_view(&self) -> Entry {
        Entry {
            location: self.location@,
            source: self.source@,
            translation: self.translation@,
        }
    }
}

impl Clone for Record {
    fn clone(&self) -> (copy: Record)
        ensures
            copy == *self,
    {
        Record {
            location: self.location.clone(),
            source: self.source.clone(),
            translation: self.translation.clone(),
        }
    }
}

impl PartialEq for Record {
    fn eq(&self, other: &Record) -> (equal: bool) {
        self.location == other.location && self.source == other.source && self.translation
            == other.translation
    }
}

impl PartialEqSpecImpl for Record {
    open spec fn obeys_eq_spec() -> bool {
        true
    }

    open spec fn eq_spec(&self, other: &Record) -> bool {
        self.deep_view() == other.deep_view()
    }
}

/// Tells whether `vec` already holds a row with the source of `new_record`.
pub fn check_for_duplicates(vec: &Vec<Record>, new_record: &Record) -> (found: bool)
    ensures
        found == has_source(vec.deep_view(), new_record.source@),
{
    let mut i: usize = 0;
    while i < vec.len()
        invariant
            i <= vec.len(),
            !has_source(vec.deep_view().take(i as int), new_record.source@),
        decreases vec.len() - i,
    {
        if vec[i].source == new_record.source {
            assert(vec.deep_view()[i as int].source == new_record.source@);
            return true;
        }
        i += 1;
    }
    assert(vec.deep_view().take(i as int) == vec.deep_view());
    false
}

/// Whether `i` is the one column of `header` that is called `name`.
pub open spec fn is_column(header: Seq<Seq<char>>, name: Seq<char>, i: int) -> bool {
    &&& 0 <= i < header.len()
    &&& header[i] == name
    &&& forall|j: int| 0 <= j < header.len() && header[j] == name ==> j == i
}

/// The column of `header` that is called `name`, where there is exactly one.
pub open spec fn column_of(header: Seq<Seq<char>>, name: Seq<char>) -> Option<int> {
    if exists|i: int| is_column(header, name, i) {
        Some(choose|i: int| is_column(header, name, i))
    } else {
        None
    }
}

/// The row that the fields `row` stand for under `header`. The three fields of
/// a row are found by the names of their columns, each of which must occur
/// once; a row with more or fewer fields than the header has none. Without a
/// readable header they are the first three fields.
pub open spec fn entry_of_row(header: Option<Seq<Seq<char>>>, row: Seq<Seq<char>>) -> Option<
    Entry,
> {
    match header {
        Some(names) => {
            let location = column_of(names, "location"@);
            let source = column_of(names, "source"@);
            let translation = column_of(names, "translation"@);
            if names.len() == row.len() && location is Some && source is Some
                && translation is Some {
                Some(
                    Entry {
                        location: row[location->0],
                        source: row[source->0],
                        translation: row[translation->0],
                    },
                )
            } else {
                None
            }
        },
        None => {
            if row.len() >= 3 {
                Some(Entry { location: row[0], source: row[1], translation: row[2] })
            } else {
                None
            }
        },
    }
}

/// Whether a row says of itself that it is no row: its location or its source
/// is the word `error`.
pub open spec fn is_marked_invalid(entry: Entry) -> bool {
    entry.location == "error"@ || entry.source == "error"@
}

/// The row that a record of the catalog text gives, if it gives one: not a
/// record that could not be read, nor one whose fields do not fit the header,
/// nor one that is marked invalid.
pub open spec fn accepted(header: Option<Seq<Seq<char>>>, row: Option<Seq<Seq<char>>>) -> Option<
    Entry,
> {
    match row {
        Some(fields) => match entry_of_row(header, fields) {
            Some(entry) => if is_marked_invalid(entry) {
                None
            } else {
                Some(entry)
            },
            None => None,
        },
        None => None,
    }
}

/// The rows that the records `rows` give, in their order.
pub open spec fn accepted_rows(
    header: Option<Seq<Seq<char>>>,
    rows: Seq<Option<Seq<Seq<char>>>>,
) -> Seq<Entry>
    decreases rows.len(),
{
    if rows.len() == 0 {
        Seq::empty()
    } else {
        match accepted(header, rows.last()) {
            Some(entry) => accepted_rows(header, rows.drop_last()).push(entry),
            None => accepted_rows(header, rows.drop_last()),
        }
    }
}

/// The catalog that a header and the records after it stand for: the rows
/// that the records give, and of those with one source only the first.
pub open spec fn catalog_of(
    header: Option<Seq<Seq<char>>>,
    rows: Seq<Option<Seq<Seq<char>>>>,
) -> Seq<Entry> {
    extended(Seq::empty(), accepted_rows(header, rows))
}

/// Finds the one column of `header` that is called `name`.
pub fn find_column(header: &Vec<String>, name: &str) -> (column: Option<usize>)
    ensures
        column.is_some() == column_of(header.deep_view(), name@).is_some(),
        column matches Some(i) ==> column_of(header.deep_view(), name@) == Some(i as int),
{
    let ghost names = header.deep_view();
    let wanted = String::from_str(name);
    let mut found: Option<usize> = None;
    let mut i: usize = 0;
    while i < header.len()
        invariant
            i <= header.len(),
            names == header.deep_view(),
            wanted@ == name@,
            found is None ==> forall|j: int| 0 <= j < i ==> names[j] != name@,
            found matches Some(k) ==> k < i && names[k as int] == name@ && forall|j: int|
                0 <= j < i && names[j] == name@ ==> j == k,
        decreases header.len() - i,
    {
        if header[i] == wanted {
            if found.is_some() {
                assert forall|k: int| !is_column(names, name@, k) by {
                    if is_column(names, name@, k) {
                        assert(names[i as int] == name@);
                        assert(names[found->0 as int] == name@);
                    }
                }
                return None;
            }
            found = Some(i);
        }
        i += 1;
    }
    proof {
        match found {
            Some(k) => {
                assert(is_column(names, name@, k as int));
            },
            None => {},
        }
    }
    found
}

/// The row that the fields `row` stand for under `header`, if they stand for
/// one.
pub fn record_of_row(header: &Option<Vec<String>>, row: &Vec<String>) -> (record: Option<Record>)
    ensures
        record.deep_view() == entry_of_row(header.deep_view(), row.deep_view()),
{
    match header {
        Some(names) => {
            let location = find_column(names, "location");
            let source = find_column(names, "source");
            let translation = find_column(names, "translation");
            if names.len() != row.len() {
                return None;
            }
            match (location, source, translation) {
                (Some(l), Some(s), Some(t)) => Some(
                    Record {
                        location: row[l].clone(),
                        source: row[s].clone(),
                        translation: row[t].clone(),
                    },
                ),
                _ => None,
            }
        },
        None => {
            if row.len() >= 3 {
                Some(
                    Record {
                        location: row[0].clone(),
                        source: row[1].clone(),
                        translation: row[2].clone(),
                    },
                )
            } else {
                None
            }
        },
    }
}

/// Builds the catalog from what the reader found in a catalog file: the fields
/// of its header and its records in their order. A record that could not be
/// read, that does not fit the header or that is marked invalid is passed over,
/// and so is one whose source an earlier row has.
pub fn collect_records(header: &Option<Vec<String>>, rows: &Vec<Option<Vec<String>>>) -> (catalog:
    Vec<Record>)
    ensures
        catalog.deep_view() == catalog_of(header.deep_view(), rows.deep_view()),
        unique_sources(catalog.deep_view()),
{
    let ghost names = header.deep_view();
    let ghost all = rows.deep_view();
    let mut catalog: Vec<Record> = Vec::new();
    let invalid = String::from_str("error");
    let mut i: usize = 0;
    assert(all.take(0) == Seq::<Option<Seq<Seq<char>>>>::empty());
    assert(catalog.deep_view() == Seq::<Entry>::empty());
    while i < rows.len()
        invariant
            i <= rows.len(),
            names == header.deep_view(),
            all == rows.deep_view(),
            invalid@ == "error"@,
            catalog.deep_view() == catalog_of(names, all.take(i as int)),
        decreases rows.len() - i,
    {
        let ghost before = catalog.deep_view();
        let ghost front = accepted_rows(names, all.take(i as int));
        assert(all.take(i + 1).drop_last() == all.take(i as int));
        assert(all.take(i + 1).last() == all[i as int]);
        assert(all[i as int] == rows[i as int].deep_view());
        match &rows[i] {
            Some(fields) => {
                match record_of_row(header, fields) {
                    Some(record) => {
                        if !(record.location == invalid || record.source == invalid) {
                            assert(accepted(names, all[i as int]) == Some(record.deep_view()));
                            assert(front.push(record.deep_view()).drop_last() == front);
                            if !check_for_duplicates(&catalog, &record) {
                                catalog.push(record);
                                assert(catalog.deep_view() == before.push(record.deep_view()));
                            }
                        }
                    },
                    None => {},
                }
            },
            None => {},
        }
        i += 1;
    }
    assert(all.take(i as int) == all);
    proof {
        lemma_extended_unique(Seq::empty(), accepted_rows(names, all));
    }
    catalog
}

/// Reads the catalog from the content of a catalog file. Its first record is
/// the header; the records after it give the rows, as `collect_records` says.
pub fn read_file(data: &[u8]) -> (translations: Vec<Record>)
    ensures
        translations.deep_view() == catalog_of(csv_header(data@), csv_rows(data@)),
        unique_sources(translations.deep_view()),
{
    let header = read_header(data);
    let rows = read_rows(data);
    collect_records(&header, &rows)
}

/// Writes the text of the Dart file that declares the lookup map `language`:
/// one line for each row of `translations`, in their order, but none for a row
/// whose source an earlier row has.
pub fn write_file(language: &String, translations: &Vec<Record>) -> (text: String)
    ensures
        text@ == map_text(language@, translations.deep_view()),
{
    let ghost all = translations.deep_view();
    let mut text = String::from_str("// ignore_for_file: file_names\n\nconst Map<String, String> ");
    text.append(language.as_str());
    text.append(" = {\n");
    let mut kept: Vec<Record> = Vec::new();
    let mut i: usize = 0;
    assert(all.take(0) == Seq::<Entry>::empty());
    assert(kept.deep_view() == Seq::<Entry>::empty());
    assert(text@ == opening(language@) + entry_lines(kept.deep_view()));
    while i < translations.len()
        invariant
            i <= translations.len(),
            all == translations.deep_view(),
            kept.deep_view() == extended(Seq::empty(), all.take(i as int)),
            text@ == opening(language@) + entry_lines(kept.deep_view()),
        decreases translations.len() - i,
    {
        let ghost before = kept.deep_view();
        assert(all.take(i + 1).drop_last() == all.take(i as int));
        assert(all.take(i + 1).last() == translations[i as int].deep_view());
        let record = &translations[i];
        if !check_for_duplicates(&kept, record) {
            let line = line_of(record.source.as_str(), record.translation.as_str());
            text.append(line.as_str());
            kept.push(record.clone());
            assert(kept.deep_view() == before.push(record.deep_view()));
            assert(kept.deep_view().drop_last() == before);
        }
        i += 1;
    }
    assert(all.take(i as int) == all);
    text.append("};\n");
    text
}

/// Turns the content of a catalog file into the text of the Dart file that
/// declares the lookup map `language`.
pub fn csv_to_dart(csv_input: &[u8], language: &String) -> (text: String)
    ensures
        text@ == map_text(language@, catalog_of(csv_header(csv_input@), csv_rows(csv_input@))),
{
    let translations = read_file(csv_input);
    write_file(language, &translations)
}

} // verus!
