//! The Dart lookup map as text.

use crate::catalog::{extended, Entry};
use crate::text::{chars_of, string_of};
use vstd::prelude::*;
use vstd::string::StringExecFns;

verus! {

/// `text` as it stands between the double quotes of a Dart string: a backslash
/// before every double quote, and nothing else changed.
pub open spec fn escaped(text: Seq<char>) -> Seq<char>
    decreases text.len(),
{
    if text.len() == 0 {
        text
    } else if text.last() == '"' {
        escaped(text.drop_last()).push('\\').push('"')
    } else {
        escaped(text.drop_last()).push(text.last())
    }
}

/// The line of the map for one row: its source and its translation, each in
/// double quotes.
pub open spec fn map_line(source: Seq<char>, translation: Seq<char>) -> Seq<char> {
    "  \""@ + escaped(source) + "\": \""@ + escaped(translation) + "\",\n"@
}

/// The lines of the map for `rows`, one after the other.
pub open spec fn entry_lines(rows: Seq<Entry>) -> Seq<char>
    decreases rows.len(),
{
    if rows.len() == 0 {
        Seq::empty()
    } else {
        entry_lines(rows.drop_last()) + map_line(rows.last().source, rows.last().translation)
    }
}

/// What stands before the lines: the declaration of a constant map called
/// `language`.
pub open spec fn opening(language: Seq<char>) -> Seq<char> {
    "// ignore_for_file: file_names\n\nconst Map<String, String> "@ + language + " = {\n"@
}

/// The text of the map called `language` for `catalog`: of the rows with one
/// source only the first has a line.
pub open spec fn map_text(language: Seq<char>, catalog: Seq<Entry>) -> Seq<char> {
    opening(language) + entry_lines(extended(Seq::empty(), catalog)) + "};\n"@
}

/// The map for a catalog without rows is the declaration and its closing
/// line, with nothing between.
pub proof fn lemma_empty_map(language: Seq<char>)
    ensures
        map_text(language, Seq::empty()) == opening(language) + "};\n"@,
{
    assert(entry_lines(extended(Seq::<Entry>::empty(), Seq::empty())) == Seq::<char>::empty());
    assert(opening(language) + Seq::<char>::empty() == opening(language));
}

/// Puts a backslash before every double quote of `text`.
pub fn escape(text: &str) -> (out: String)
    ensures
        out@ == escaped(text@),
{
    let chars = chars_of(text);
    let mut out: Vec<char> = Vec::new();
    let mut i: usize = 0;
    while i < chars.len()
        invariant
            i <= chars.len(),
            out@ == escaped(chars@.take(i as int)),
        decreases chars.len() - i,
    {
        assert(chars@.take(i + 1).drop_last() == chars@.take(i as int));
        if chars[i] == '"' {
            out.push('\\');
            out.push('"');
        } else {
            out.push(chars[i]);
        }
        i += 1;
    }
    assert(chars@.take(i as int) == chars@);
    string_of(&out)
}

/// The line of the map for a row with this source and this translation.
pub fn line_of(source: &str, translation: &str) -> (line: String)
    ensures
        line@ == map_line(source@, translation@),
{
    let mut line = String::from_str("  \"");
    line.append(escape(source).as_str());
    line.append("\": \"");
    line.append(escape(translation).as_str());
    line.append("\",\n");
    line
}

} // verus!
