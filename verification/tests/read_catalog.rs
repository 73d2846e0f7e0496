use flutter_tr::csv_to_dart::{collect_records, find_column, read_file, record_of_row, Record};

fn record(location: &str, source: &str, translation: &str) -> Record {
    Record {
        location: location.to_string(),
        source: source.to_string(),
        translation: translation.to_string(),
    }
}

fn fields(items: &[&str]) -> Vec<String> {
    items.iter().map(|item| item.to_string()).collect()
}

#[test]
fn test_read_file_empty_csv() {
    let records = read_file(b"location,source,translation\n");
    assert!(records.is_empty());
}

#[test]
fn test_read_file_valid_csv() {
    let content = "location,source,translation\n\
                   loc1,src1,trn1\n\
                   loc2,src2,trn2";
    let records = read_file(content.as_bytes());
    assert_eq!(records.len(), 2);
    assert_eq!(records[0].source, "src1");
    assert_eq!(records[1].translation, "trn2");
}

#[test]
fn test_read_file_with_duplicates_in_csv() {
    let content = "location,source,translation\n\
                   loc1,src1,trn1\n\
                   loc2,src2,trn2\n\
                   loc3,src1,trn1_dup";
    let records = read_file(content.as_bytes());
    assert_eq!(records.len(), 2);
    assert_eq!(records[0].source, "src1");
    assert_eq!(records[0].translation, "trn1");
    assert_eq!(records[1].source, "src2");
}

#[test]
fn test_read_file_malformed_line() {
    let content = "location,source,translation\n\
                   loc1,src1,trn1\n\
                   this,isnot,enough,fields\n\
                   loc3,src3,trn3";
    let records = read_file(content.as_bytes());
    assert_eq!(records.len(), 2, "Should skip the malformed line.");
    assert_eq!(records[0].source, "src1");
    assert_eq!(records[1].source, "src3");
}

#[test]
fn test_read_file_csv_with_empty_lines() {
    let content = "location,source,translation\n\
                   loc1,src1,trn1\n\
                   \n\
                   loc2,src2,trn2\n";
    let records = read_file(content.as_bytes());
    assert_eq!(records.len(), 2);
    assert_eq!(records[0].source, "src1");
    assert_eq!(records[1].source, "src2");
}

#[test]
fn test_read_file_non_existent_csv() {
    let records = read_file(b"");
    assert!(
        records.is_empty(),
        "Expected empty records for non-existent file."
    );
}

#[test]
fn read_file_gives_whole_rows() {
    let records = read_file(b"location,source,translation\nloc1,src1,trn1\nloc2,src2,\n");
    assert_eq!(
        records,
        vec![record("loc1", "src1", "trn1"), record("loc2", "src2", "")]
    );
}

#[test]
fn read_file_undoes_quoting() {
    let content = "location,source,translation\n\
                   a.dart,\"Hello, world\",\"She said \"\"hi\"\"\"\n\
                   b.dart,\"two\nlines\",x\n";
    let records = read_file(content.as_bytes());
    assert_eq!(
        records,
        vec![
            record("a.dart", "Hello, world", "She said \"hi\""),
            record("b.dart", "two\nlines", "x"),
        ]
    );
}

#[test]
fn read_file_finds_columns_by_name() {
    let content = "translation,extra,source,location\nBonjour,1,Hello,a.dart\n";
    let records = read_file(content.as_bytes());
    assert_eq!(records, vec![record("a.dart", "Hello", "Bonjour")]);
}

#[test]
fn read_file_without_a_column_gives_nothing() {
    let records = read_file(b"location,key,translation\na.dart,Hello,Bonjour\n");
    assert!(records.is_empty());
}

#[test]
fn read_file_with_a_column_twice_gives_nothing() {
    let records = read_file(b"location,source,source,translation\na.dart,Hello,Hi,Bonjour\n");
    assert!(records.is_empty());
}

#[test]
fn read_file_drops_rows_marked_invalid() {
    let content = "location,source,translation\n\
                   error,src1,trn1\n\
                   loc2,error,trn2\n\
                   error,error,error\n\
                   loc4,src4,error\n";
    let records = read_file(content.as_bytes());
    assert_eq!(records, vec![record("loc4", "src4", "error")]);
}

#[test]
fn read_file_passes_over_rows_that_are_not_utf8() {
    let mut content = b"location,source,translation\nloc1,src1,trn1\nloc2,".to_vec();
    content.extend_from_slice(&[0xff, 0xfe]);
    content.extend_from_slice(b",trn2\nloc3,src3,trn3\n");
    let records = read_file(&content);
    assert_eq!(
        records,
        vec![record("loc1", "src1", "trn1"), record("loc3", "src3", "trn3")]
    );
}

#[test]
fn read_file_takes_columns_in_order_under_an_unreadable_header() {
    let mut content = b"location,source,".to_vec();
    content.extend_from_slice(&[0xff]);
    content.extend_from_slice(b"\nloc1,src1,trn1\n");
    let records = read_file(&content);
    assert_eq!(records, vec![record("loc1", "src1", "trn1")]);
}

#[test]
fn read_file_reads_a_short_row_as_malformed() {
    let records = read_file(b"location,source,translation\nloc1,src1\nloc2,src2,trn2\n");
    assert_eq!(records, vec![record("loc2", "src2", "trn2")]);
}

#[test]
fn find_column_wants_exactly_one() {
    let header = fields(&["location", "source", "note", "note"]);
    assert_eq!(find_column(&header, "location"), Some(0));
    assert_eq!(find_column(&header, "source"), Some(1));
    assert_eq!(find_column(&header, "note"), None);
    assert_eq!(find_column(&header, "translation"), None);
    assert_eq!(find_column(&Vec::new(), "source"), None);
}

#[test]
fn record_of_row_under_a_header() {
    let header = Some(fields(&["source", "translation", "location"]));
    assert_eq!(
        record_of_row(&header, &fields(&["Hello", "Bonjour", "a.dart"])),
        Some(record("a.dart", "Hello", "Bonjour"))
    );
    assert_eq!(record_of_row(&header, &fields(&["Hello", "Bonjour"])), None);
    assert_eq!(
        record_of_row(&header, &fields(&["Hello", "Bonjour", "a.dart", "more"])),
        None
    );
}

#[test]
fn record_of_row_without_a_header() {
    assert_eq!(
        record_of_row(&None, &fields(&["a.dart", "Hello", "Bonjour", "more"])),
        Some(record("a.dart", "Hello", "Bonjour"))
    );
    assert_eq!(record_of_row(&None, &fields(&["a.dart", "Hello"])), None);
}

#[test]
fn collect_records_keeps_the_first_of_each_source() {
    let header = Some(fields(&["location", "source", "translation"]));
    let rows = vec![
        Some(fields(&["a.dart", "Hello", "Bonjour"])),
        None,
        Some(fields(&["b.dart", "Bye", ""])),
        Some(fields(&["c.dart", "Hello", "Salut"])),
        Some(fields(&["d.dart", "error", "x"])),
        Some(fields(&["e.dart", "Short"])),
    ];
    assert_eq!(
        collect_records(&header, &rows),
        vec![record("a.dart", "Hello", "Bonjour"), record("b.dart", "Bye", "")]
    );
}

#[test]
fn record_clone_is_equal() {
    let row = record("a.dart", "Hello", "Bonjour");
    assert_eq!(row.clone(), row);
    assert_ne!(row, record("a.dart", "Hello", ""));
}
