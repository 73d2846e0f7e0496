//! The catalog as comma-separated text: its rows are read and written by the
//! `csv` crate.

use crate::catalog::Entry;
use crate::csv_to_dart::Record;
use vstd::prelude::*;
use vstd::string::StringExecFns;

verus! {

/// The fields of the first record of the comma-separated text `data`, as
/// `csv::Reader::headers` gives them: `None` where that record is not valid
/// UTF-8.
pub uninterp spec fn csv_header(data: Seq<u8>) -> Option<Seq<Seq<char>>>;

/// The records after the first of the comma-separated text `data`, as
/// `csv::Reader::records` gives them one after the other: the fields of a
/// record, or `None` for a record that the reader reports as an error.
pub uninterp spec fn csv_rows(data: Seq<u8>) -> Seq<Option<Seq<Seq<char>>>>;

/// Calls `csv::Reader::headers` on a reader over `data` with the crate's default
/// settings. The contract only names what comes back: it is a function of
/// `data` alone.
#[verifier::external_body]
pub(crate) fn read_header(data: &[u8]) -> (header: Option<Vec<String>>)
    ensures
        header.deep_view() == csv_header(data@),
{
    let mut reader = csv::Reader::from_reader(data);
    reader.headers().ok().map(|fields| fields.iter().map(String::from).collect())
}

/// Calls `csv::Reader::records` on a reader over `data` with the crate's default
/// settings, and walks the iterator to its end. The contract only names what
/// comes back: it is a function of `data` alone.
#[verifier::external_body]
pub(crate) fn read_rows(data: &[u8]) -> (rows: Vec<Option<Vec<String>>>)
    ensures
        rows.deep_view() == csv_rows(data@),
{
    let mut reader = csv::Reader::from_reader(data);
    reader.records().map(
        |row| row.ok().map(|fields| fields.iter().map(String::from).collect()),
    ).collect()
}

/// Whether a field must stand in quotes: it holds a comma, a quote or a line
/// break.
pub open spec fn needs_quotes(field: Seq<char>) -> bool {
    field.contains(',') || field.contains('"') || field.contains('\r') || field.contains('\n')
}

/// `field` with every quote written twice.
pub open spec fn doubled_quotes(field: Seq<char>) -> Seq<char>
    decreases field.len(),
{
    if field.len() == 0 {
        field
    } else if field.last() == '"' {
        doubled_quotes(field.drop_last()).push('"').push('"')
    } else {
        doubled_quotes(field.drop_last()).push(field.last())
    }
}

/// A field as it stands in a row.
pub open spec fn quoted(field: Seq<char>) -> Seq<char> {
    if needs_quotes(field) {
        seq!['"'] + doubled_quotes(field) + seq!['"']
    } else {
        field
    }
}

/// The line of text for a row of three fields.
pub open spec fn row_text(location: Seq<char>, source: Seq<char>, translation: Seq<char>) -> Seq<
    char,
> {
    quoted(location) + seq![','] + quoted(source) + seq![','] + quoted(translation) + seq!['\n']
}

/// Writes one record of three fields with `csv::Writer::write_record`, on a
/// writer with the crate's default settings over an empty buffer, and takes
/// the buffer back. The contract claims that this cannot fail, since the buffer
/// takes every write and the record is the writer's first, and that the text
/// is the three fields with commas between and a line feed after, a field in
/// quotes, with its quotes doubled, where it holds a comma, a quote, a carriage
/// return or a line feed.
#[verifier::external_body]
pub(crate) fn write_row(location: &str, source: &str, translation: &str) -> (line: Option<String>)
    ensures
        line.deep_view() == Some(row_text(location@, source@, translation@)),
{
    let mut writer = csv::Writer::from_writer(Vec::new());
    writer.write_record([location, source, translation]).ok()?;
    String::from_utf8(writer.into_inner().ok()?).ok()
}

/// The lines of catalog text for `rows`, one after the other.
pub open spec fn rows_text(rows: Seq<Entry>) -> Seq<char>
    decreases rows.len(),
{
    if rows.len() == 0 {
        Seq::empty()
    } else {
        rows_text(rows.drop_last()) + row_text(
            rows.last().location,
            rows.last().source,
            rows.last().translation,
        )
    }
}

/// The first line of a catalog file, which names its columns.
pub open spec fn header_text() -> Seq<char> {
    "location,source,translation\n"@
}

/// The text of a catalog file with the rows `catalog`.
pub open spec fn catalog_text(catalog: Seq<Entry>) -> Seq<char> {
    header_text() + rows_text(catalog)
}

/// The header is the row of the three column names, none of which needs
/// quotes.
pub proof fn lemma_header_row()
    ensures
        row_text("location"@, "source"@, "translation"@) == header_text(),
{
    reveal_strlit("location");
    reveal_strlit("source");
    reveal_strlit("translation");
    reveal_strlit("location,source,translation\n");
    assert(!needs_quotes("location"@));
    assert(!needs_quotes("source"@));
    assert(!needs_quotes("translation"@));
    assert(row_text("location"@, "source"@, "translation"@) =~= header_text());
}

/// The lines for two runs of rows are the lines of the first and then those
/// of the second.
pub proof fn lemma_rows_text_in_turn(first: Seq<Entry>, second: Seq<Entry>)
    ensures
        rows_text(first + second) == rows_text(first) + rows_text(second),
    decreases second.len(),
{
    if second.len() == 0 {
        assert(first + second == first);
        assert(rows_text(first) + Seq::<char>::empty() == rows_text(first));
    } else {
        lemma_rows_text_in_turn(first, second.drop_last());
        assert((first + second).drop_last() == first + second.drop_last());
        assert((first + second).last() == second.last());
        let front = rows_text(second.drop_last());
        let last = second.last();
        let line = row_text(last.location, last.source, last.translation);
        assert((rows_text(first) + front) + line == rows_text(first) + (front + line));
    }
}

/// Writes the first line of a catalog file.
pub fn write_header() -> (text: String)
    ensures
        text@ == header_text(),
{
    proof {
        lemma_header_row();
    }
    write_row("location", "source", "translation").unwrap()
}

/// Writes the catalog lines for `rows`, in their order.
pub fn write_rows(rows: &Vec<Record>) -> (text: String)
    ensures
        text@ == rows_text(rows.deep_view()),
{
    let ghost all = rows.deep_view();
    let mut text = String::new();
    let mut i: usize = 0;
    assert(all.take(0) == Seq::<Entry>::empty());
    while i < rows.len()
        invariant
            i <= rows.len(),
            all == rows.deep_view(),
            text@ == rows_text(all.take(i as int)),
        decreases rows.len() - i,
    {
        assert(all.take(i + 1).drop_last() == all.take(i as int));
        assert(all.take(i + 1).last() == rows[i as int].deep_view());
        let row = &rows[i];
        let line = write_row(row.location.as_str(), row.source.as_str(), row.translation.as_str());
        text.append(line.unwrap().as_str());
        i += 1;
    }
    assert(all.take(i as int) == all);
    text
}

/// Writes the text of a catalog file: the header, then the lines for
/// `catalog`.
pub fn write_catalog(catalog: &Vec<Record>) -> (text: String)
    ensures
        text@ == catalog_text(catalog.deep_view()),
{
    let mut text = write_header();
    text.append(write_rows(catalog).as_str());
    text
}

} // verus!
