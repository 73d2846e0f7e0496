use flutter_tr::csv_to_dart::{csv_to_dart, write_file, Record};
use flutter_tr::map_codec::{escape, line_of};

fn record(location: &str, source: &str, translation: &str) -> Record {
    Record {
        location: location.to_string(),
        source: source.to_string(),
        translation: translation.to_string(),
    }
}

#[test]
fn test_write_file_empty_records() {
    let lang_name = "empty_lang_test_write";
    let records: Vec<Record> = Vec::new();

    let file_content = write_file(&lang_name.to_string(), &records);

    let expected_content = format!(
        "// ignore_for_file: file_names\n\
         \n\
         const Map<String, String> {} = {{\n\
         }};\n",
        lang_name
    );
    assert_eq!(file_content, expected_content);
}

#[test]
fn test_write_file_with_records() {
    let lang_name = "test_lang_test_write";
    let records = vec![
        record("l1", "hello", "world"),
        record("l2", "foo", "bar"),
        record("l3", "quote_test", "this is a \"test\""),
    ];
    let file_content = write_file(&lang_name.to_string(), &records);

    let expected_content = format!(
        "// ignore_for_file: file_names\n\
         \n\
         const Map<String, String> {} = {{\n  \"hello\": \"world\",\n  \"foo\": \"bar\",\n  \"quote_test\": \"this is a \\\"test\\\"\",\n}};\n",
        lang_name
    );
    assert_eq!(file_content, expected_content);
}

#[test]
fn test_csv_to_dart_integration() {
    let csv_content = "location,source,translation\n\
                       app_title,AppTitle,My Application\n\
                       greeting,GreetingMessage,Hello User!\n\
                       another_loc,AppTitle,This Should Be Ignored Because First AppTitle Wins";

    let lang_name = "integration_lang_test";

    let file_content = csv_to_dart(csv_content.as_bytes(), &lang_name.to_string());

    let expected_content = format!(
        "// ignore_for_file: file_names\n\
         \n\
         const Map<String, String> {} = {{\n  \"AppTitle\": \"My Application\",\n  \"GreetingMessage\": \"Hello User!\",\n}};\n",
        lang_name
    );
    assert_eq!(file_content, expected_content);
}

#[test]
fn map_lines_follow_the_catalog() {
    let records = vec![record("a.dart", "AppTitle", "My App"), record("b.dart", "Greeting", "Hi")];
    let text = write_file(&"en".to_string(), &records);
    assert_eq!(
        text,
        "// ignore_for_file: file_names\n\nconst Map<String, String> en = {\n  \"AppTitle\": \"My App\",\n  \"Greeting\": \"Hi\",\n};\n"
    );
    let lines: Vec<&str> = text.lines().collect();
    assert_eq!(lines.len(), 6);
    assert_eq!(lines[2], "const Map<String, String> en = {");
    assert_eq!(lines[3], "  \"AppTitle\": \"My App\",");
    assert_eq!(lines[4], "  \"Greeting\": \"Hi\",");
    assert_eq!(lines[5], "};");
}

#[test]
fn map_of_an_empty_catalog() {
    assert_eq!(
        write_file(&"fr".to_string(), &Vec::new()),
        "// ignore_for_file: file_names\n\nconst Map<String, String> fr = {\n};\n"
    );
    assert_eq!(
        csv_to_dart(b"", &"fr".to_string()),
        "// ignore_for_file: file_names\n\nconst Map<String, String> fr = {\n};\n"
    );
}

#[test]
fn map_has_one_line_for_a_source() {
    let records = vec![
        record("a.dart", "Hello", "Bonjour"),
        record("b.dart", "Bye", "Au revoir"),
        record("c.dart", "Hello", "Salut"),
    ];
    assert_eq!(
        write_file(&"fr".to_string(), &records),
        "// ignore_for_file: file_names\n\nconst Map<String, String> fr = {\n  \"Hello\": \"Bonjour\",\n  \"Bye\": \"Au revoir\",\n};\n"
    );
}

#[test]
fn escape_changes_double_quotes_only() {
    assert_eq!(escape(""), "");
    assert_eq!(escape("plain"), "plain");
    assert_eq!(escape("\""), "\\\"");
    assert_eq!(escape("a \"b\" c"), "a \\\"b\\\" c");
    assert_eq!(escape("it's \\ fine\n"), "it's \\ fine\n");
    assert_eq!(escape("caf\u{e9} \"\u{4f60}\""), "caf\u{e9} \\\"\u{4f60}\\\"");
}

#[test]
fn line_of_escapes_both_sides() {
    assert_eq!(line_of("hello", "world"), "  \"hello\": \"world\",\n");
    assert_eq!(line_of("a\"b", "c\"d"), "  \"a\\\"b\": \"c\\\"d\",\n");
    assert_eq!(line_of("", ""), "  \"\": \"\",\n");
}

#[test]
fn csv_to_dart_reads_quoted_fields() {
    let csv = "location,source,translation\nl,\"She said \"\"hi\"\"\",\"Elle a dit \"\"salut\"\"\"\n";
    assert_eq!(
        csv_to_dart(csv.as_bytes(), &"fr".to_string()),
        "// ignore_for_file: file_names\n\nconst Map<String, String> fr = {\n  \"She said \\\"hi\\\"\": \"Elle a dit \\\"salut\\\"\",\n};\n"
    );
}
