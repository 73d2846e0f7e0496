use flutter_tr::catalog_codec::{write_catalog, write_rows};
use flutter_tr::csv_to_dart::{read_file, Record};
use flutter_tr::dart_to_csv::write_file;

fn record(location: &str, source: &str, translation: &str) -> Record {
    Record {
        location: location.to_string(),
        source: source.to_string(),
        translation: translation.to_string(),
    }
}

#[test]
fn rows_are_fields_with_commas() {
    let rows = vec![record("a.dart", "Hello", "Bonjour"), record("b.dart", "Bye", "")];
    assert_eq!(write_rows(&rows), "a.dart,Hello,Bonjour\nb.dart,Bye,\n");
    assert_eq!(write_rows(&Vec::new()), "");
}

#[test]
fn fields_are_quoted_where_needed() {
    assert_eq!(write_rows(&vec![record("a", "x, y", "z")]), "a,\"x, y\",z\n");
    assert_eq!(
        write_rows(&vec![record("a", "say \"hi\"", "\"")]),
        "a,\"say \"\"hi\"\"\",\"\"\"\"\n"
    );
    assert_eq!(write_rows(&vec![record("a", "two\nlines", "b\rc")]), "a,\"two\nlines\",\"b\rc\"\n");
    assert_eq!(write_rows(&vec![record("", "", "")]), ",,\n");
    assert_eq!(write_rows(&vec![record("a b", "it's", "x;y\t#")]), "a b,it's,x;y\t#\n");
    assert_eq!(
        write_rows(&vec![record("caf\u{e9}", "\u{4f60}, \u{597d}", "\u{1f600}")]),
        "caf\u{e9},\"\u{4f60}, \u{597d}\",\u{1f600}\n"
    );
}

#[test]
fn a_long_field_is_written_whole() {
    let long = "ab\"c,".repeat(5000);
    let text = write_rows(&vec![record("a", &long, "b")]);
    assert_eq!(text, format!("a,\"{}\",b\n", long.replace("\"", "\"\"")));
}

#[test]
fn catalog_starts_with_the_header() {
    assert_eq!(write_catalog(&Vec::new()), "location,source,translation\n");
    assert_eq!(
        write_catalog(&vec![record("a.dart", "Hello", "Bonjour")]),
        "location,source,translation\na.dart,Hello,Bonjour\n"
    );
}

#[test]
fn catalog_round_trip() {
    let rows = vec![
        record("loc", "She said \"hi\"", "Elle a dit \"salut\""),
        record("lib/main.dart", "a, b", "two\nlines"),
        record("x", " padded ", ""),
        record("y", "tab\there", "back\\slash"),
        record("z", "", "empty source"),
    ];
    let text = write_catalog(&rows);
    assert_eq!(read_file(text.as_bytes()), rows);
}

#[test]
fn strings_of_a_file_become_rows() {
    let strings = vec!["hello".to_string(), "a, b".to_string(), "say \"hi\"".to_string()];
    assert_eq!(
        write_file(&"lib/a.dart".to_string(), &strings),
        "lib/a.dart,hello,\nlib/a.dart,\"a, b\",\nlib/a.dart,\"say \"\"hi\"\"\",\n"
    );
    assert_eq!(write_file(&"lib/a.dart".to_string(), &Vec::new()), "");
}
