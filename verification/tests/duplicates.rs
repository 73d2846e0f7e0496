use flutter_tr::csv_to_dart::{check_for_duplicates, Record};

#[test]
fn test_check_for_duplicates_empty_vec() {
    let records: Vec<Record> = Vec::new();
    let new_record = Record {
        location: "loc1".to_string(),
        source: "src1".to_string(),
        translation: "trn1".to_string(),
    };
    assert!(!check_for_duplicates(&records, &new_record));
}

#[test]
fn test_check_for_duplicates_no_duplicate() {
    let records = vec![Record {
        location: "loc1".to_string(),
        source: "src1".to_string(),
        translation: "trn1".to_string(),
    }];
    let new_record = Record {
        location: "loc2".to_string(),
        source: "src2".to_string(),
        translation: "trn2".to_string(),
    };
    assert!(!check_for_duplicates(&records, &new_record));
}

#[test]
fn test_check_for_duplicates_with_duplicate() {
    let records = vec![Record {
        location: "loc1".to_string(),
        source: "src1".to_string(),
        translation: "trn1".to_string(),
    }];
    let new_record = Record {
        location: "loc2".to_string(),
        source: "src1".to_string(),
        translation: "trn2".to_string(),
    };
    assert!(check_for_duplicates(&records, &new_record));
}
