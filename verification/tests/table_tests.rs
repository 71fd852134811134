use beeswarmer::table::{choose_imported_table, TableColumnType, TableData};

fn titles(t: &TableData) -> Vec<String> {
    t.columns.iter().map(|c| c.title.clone()).collect()
}

#[test]
fn from_csv_reads_headers_and_rows() {
    let t = TableData::from_csv("name,age\nann,31\nbob,42\n".to_string()).ok().unwrap();
    assert_eq!(titles(&t), vec!["name", "age"]);
    assert_eq!(t.number_rows, 2);
    assert!(t.excluded_rows.is_empty());
    assert_eq!(t.columns[0].column_entries, vec!["ann", "bob"]);
    assert_eq!(t.columns[1].column_entries, vec!["31", "42"]);
    assert!(t.columns.iter().all(|c| c.enabled && c.column_type == TableColumnType::Unset));
}

#[test]
fn from_csv_empty_text_fails_on_headers() {
    let e = TableData::from_csv(String::new()).err().unwrap();
    assert_eq!(e, "Bad CSV headers");
}

#[test]
fn from_csv_header_only() {
    let t = TableData::from_csv("a,b".to_string()).ok().unwrap();
    assert_eq!(titles(&t), vec!["a", "b"]);
    assert_eq!(t.number_rows, 0);
    assert!(t.columns[0].column_entries.is_empty());
}

#[test]
fn from_csv_too_many_fields_names_the_row() {
    let e = TableData::from_csv("a,b\n1,2\n3,4,5\n6,7,8\n".to_string()).err().unwrap();
    assert_eq!(e, "Bad CSV at line 1");
    let e = TableData::from_csv("a\n".to_string() + &"x\n".repeat(12) + "y,z\n").err().unwrap();
    assert_eq!(e, "Bad CSV at line 12");
}

#[test]
fn from_csv_short_rows_leave_columns_ragged() {
    let t = TableData::from_csv("a,b,c\n1\n2,3\n".to_string()).ok().unwrap();
    assert_eq!(t.number_rows, 2);
    assert_eq!(t.columns[0].column_entries, vec!["1", "2"]);
    assert_eq!(t.columns[1].column_entries, vec!["3"]);
    assert!(t.columns[2].column_entries.is_empty());
}

#[test]
fn from_csv_handles_crlf_and_quotes() {
    let t = TableData::from_csv("\"last, first\",x\r\n\"Doe, J\",1\r\n".to_string()).ok().unwrap();
    assert_eq!(titles(&t), vec!["last, first", "x"]);
    assert_eq!(t.columns[0].column_entries, vec!["Doe, J"]);
    assert_eq!(t.columns[1].column_entries, vec!["1"]);
}

#[test]
fn from_csv_blank_line_is_a_row_of_one_empty_field() {
    let t = TableData::from_csv("a,b\n\n1,2".to_string()).ok().unwrap();
    assert_eq!(t.number_rows, 2);
    assert_eq!(t.columns[0].column_entries, vec!["", "1"]);
    assert_eq!(t.columns[1].column_entries, vec!["2"]);
}

#[test]
fn split_csv_examples() {
    assert_eq!(TableData::split_csv(&"a,b,,c"), vec!["a", "b", "", "c"]);
    assert_eq!(TableData::split_csv(&""), vec![""]);
    assert_eq!(TableData::split_csv(&"\"x,y\",z"), vec!["x,y", "z"]);
    assert_eq!(TableData::split_csv(&"a\"b\"c"), vec!["abc"]);
    assert_eq!(TableData::split_csv(&"é,ü"), vec!["é", "ü"]);
}

#[test]
fn imported_table_falls_back_to_saved_then_empty() {
    let imported = TableData::from_csv("a\n1".to_string()).ok().unwrap();
    let saved = TableData::from_csv("b\n2".to_string()).ok().unwrap();
    let r = choose_imported_table(Some(imported), Some(TableData::from_csv("c".to_string()).ok().unwrap()));
    assert_eq!(titles(&r), vec!["a"]);
    let r = choose_imported_table(None, Some(saved));
    assert_eq!(titles(&r), vec!["b"]);
    let r = choose_imported_table(None, None);
    assert!(r.columns.is_empty());
    assert_eq!(r.number_rows, 0);
}

#[test]
fn split_join_roundtrip_on_plain_fields() {
    let fields = vec!["alpha", "", "gamma delta", "é"];
    let line = fields.join(",");
    assert_eq!(TableData::split_csv(&line.as_str()), fields);
}

#[test]
fn quoted_field_keeps_commas() {
    assert_eq!(TableData::split_csv(&"\"a, b, c\""), vec!["a, b, c"]);
    assert_eq!(TableData::split_csv(&"\"\""), vec![""]);
}
