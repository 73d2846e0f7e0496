use flutter_tr::csv_to_dart::{read_file, Record};
use flutter_tr::dart_to_csv::{dart_to_csv, SourceFile};

fn record(location: &str, source: &str, translation: &str) -> Record {
    Record {
        location: location.to_string(),
        source: source.to_string(),
        translation: translation.to_string(),
    }
}

fn source(path: &str, text: &str) -> SourceFile {
    SourceFile { path: path.to_string(), text: text.to_string() }
}

#[test]
fn test_dart_to_csv_creates_correct_csv() {
    let dart_content = "
      final a = 'hello'.tr;
      final b = 'world'.tr;
      final c = 'Concatenated'.tr + string;
      final d = 'Multi line string'
                .tr,;
      final e = 'not a tr string';
      final f = 'another'.tr;
    ";
    let files = vec![source("/tmp/project/example.dart", &format!("{}\n", dart_content))];

    let content = dart_to_csv(b"", &files);

    assert!(!content.is_empty(), "CSV file should be created");
    assert!(content.contains("example.dart"));
    assert!(content.contains("hello"));
    assert!(content.contains("world"));
    assert!(content.contains("Concatenated"));
    assert!(content.contains("Multi line string"));
    assert!(content.contains("another"));
    assert_eq!(
        content,
        "location,source,translation\n\
         /tmp/project/example.dart,hello,\n\
         /tmp/project/example.dart,world,\n\
         /tmp/project/example.dart,Concatenated,\n\
         /tmp/project/example.dart,Multi line string,\n\
         /tmp/project/example.dart,another,\n"
    );
}

#[test]
fn new_catalog_starts_with_the_header() {
    let files = vec![source("a.dart", "'Hello'.tr"), source("b.dart", "\"Bye\".tr")];
    assert_eq!(
        dart_to_csv(b"", &files),
        "location,source,translation\na.dart,Hello,\nb.dart,Bye,\n"
    );
}

#[test]
fn nothing_found_nothing_written() {
    assert_eq!(dart_to_csv(b"", &Vec::new()), "");
    assert_eq!(dart_to_csv(b"", &vec![source("a.dart", "final x = 'plain';")]), "");
    assert_eq!(
        dart_to_csv(b"location,source,translation\n", &vec![source("a.dart", "void main() {}")]),
        ""
    );
}

#[test]
fn string_twice_in_a_file_gives_one_row() {
    let files = vec![source("a.dart", "'Hello'.tr\n'Hello'.tr")];
    assert_eq!(dart_to_csv(b"", &files), "location,source,translation\na.dart,Hello,\n");
}

#[test]
fn string_in_two_files_belongs_to_the_first() {
    let files = vec![source("a.dart", "'Hello'.tr"), source("b.dart", "'Hello'.tr 'Bye'.tr")];
    assert_eq!(
        dart_to_csv(b"", &files),
        "location,source,translation\na.dart,Hello,\nb.dart,Bye,\n"
    );
}

#[test]
fn existing_translation_is_not_touched() {
    let existing = "location,source,translation\nold.dart,Hello,Bonjour\n";
    let files = vec![source("new.dart", "'Hello'.tr")];
    assert_eq!(dart_to_csv(existing.as_bytes(), &files), "");

    let files = vec![source("new.dart", "'Hello'.tr; 'Bye'.tr")];
    let added = dart_to_csv(existing.as_bytes(), &files);
    assert_eq!(added, "new.dart,Bye,\n");
    assert_eq!(
        read_file(format!("{}{}", existing, added).as_bytes()),
        vec![record("old.dart", "Hello", "Bonjour"), record("new.dart", "Bye", "")]
    );
}

#[test]
fn second_run_adds_nothing() {
    let files = vec![
        source("a.dart", "'Hello'.tr, 'a, b'.tr, 'say \"hi\"'.tr"),
        source("b.dart", "final d = '''\nMulti line string\n''' .tr,\n'Hello'.tr"),
    ];
    let first = dart_to_csv(b"", &files);
    assert_eq!(
        first,
        "location,source,translation\na.dart,Hello,\na.dart,\"a, b\",\na.dart,\"say \"\"hi\"\"\",\nb.dart,Multi line string,\n"
    );
    assert_eq!(dart_to_csv(first.as_bytes(), &files), "");
}

#[test]
fn rows_start_on_a_line_of_their_own() {
    let files = vec![source("new.dart", "'Bye'.tr")];
    let existing = "location,source,translation\nold.dart,Hello,Bonjour";
    let added = dart_to_csv(existing.as_bytes(), &files);
    assert_eq!(added, "\nnew.dart,Bye,\n");
    assert_eq!(
        read_file(format!("{}{}", existing, added).as_bytes()),
        vec![record("old.dart", "Hello", "Bonjour"), record("new.dart", "Bye", "")]
    );
    assert_eq!(
        dart_to_csv(b"location,source,translation\r\nold.dart,Hello,Bonjour\r\n", &files),
        "new.dart,Bye,\n"
    );
    assert_eq!(
        dart_to_csv(b"location,source,translation\rold.dart,Hello,Bonjour\r", &files),
        "new.dart,Bye,\n"
    );
}

#[test]
fn unterminated_block_keeps_what_came_before() {
    let files = vec![source("a.dart", "'kept'.tr\nfinal d = '''\nlost\n'lost too'.tr")];
    assert_eq!(dart_to_csv(b"", &files), "location,source,translation\na.dart,kept,\n");
}

#[test]
fn multi_line_string_round_trip() {
    let files = vec![source("a.dart", "final d = '''\nline one\nline two\n'''.tr;")];
    let text = dart_to_csv(b"", &files);
    assert_eq!(text, "location,source,translation\na.dart,\"line one\nline two\",\n");
    assert_eq!(read_file(text.as_bytes()), vec![record("a.dart", "line one\nline two", "")]);
}
