use beeswarmer::configuration::{
    add_scored_regression_entry, binary_column_names, choose_binary_column, choose_simple_column, choose_tab,
    replace_scored_entries, tab_index, categorical_column_names, check_contains_zero_entry,
    configuration_lock, load_scored_regression_entries, lock_inputs_ready, numerical_column_names, selected_column_label, unset_label,
};
use beeswarmer::ml::OutputColumnData;
use beeswarmer::savefile::{without_scored_entry, ConfigurationSettings, SaveFile, ScoredRegressionEntry};
use beeswarmer::table::{TableColumn, TableColumnType, TableData};

fn col(title: &str, ty: TableColumnType, entries: &[&str], enabled: bool) -> TableColumn {
    TableColumn {
        title: title.to_string(),
        column_type: ty,
        column_entries: entries.iter().map(|s| s.to_string()).collect(),
        enabled,
    }
}

fn survey() -> TableData {
    TableData {
        columns: vec![
            col("age", TableColumnType::Numerical, &["20", "31", "44", "52"], true),
            col("smoker", TableColumnType::Categorical, &["yes", "no", "yes", "no"], true),
            col("colour", TableColumnType::Categorical, &["red", "blue", "green", "red"], true),
            col("height", TableColumnType::Numerical, &["1.7", "1.8", "1.6", "1.9"], false),
            col("q1", TableColumnType::Categorical, &["a", "b", "a", "c"], true),
        ],
        excluded_rows: vec![2],
        number_rows: 4,
    }
}

fn question(title: &str, right: &str, plus: u32, minus: u32) -> ScoredRegressionEntry {
    ScoredRegressionEntry {
        column_title: title.to_string(),
        correct_answer: right.to_string(),
        answers: vec![],
        correct_points: plus,
        incorrect_points: minus,
    }
}

#[test]
fn column_name_lists() {
    let t = survey();
    assert_eq!(numerical_column_names(&t, false), vec!["Unset", "age"]);
    assert_eq!(categorical_column_names(&t, true), vec!["Vide", "smoker", "colour", "q1"]);
    assert_eq!(binary_column_names(&t, false), vec!["Unset", "smoker", "colour"]);
    assert_eq!(unset_label(true), "Vide");
}

#[test]
fn selected_labels_follow_language() {
    assert_eq!(selected_column_label(None, false), "Unset");
    assert_eq!(selected_column_label(None, true), "Vide");
    assert_eq!(selected_column_label(Some("Vide".to_string()), false), "Unset");
    assert_eq!(selected_column_label(Some("Unset".to_string()), true), "Vide");
    assert_eq!(selected_column_label(Some("age".to_string()), true), "age");
}

#[test]
fn scored_entries_are_split_into_current_and_stale() {
    let mut t = survey();
    t.columns[4].enabled = false;
    let entries = vec![question("smoker", "yes", 1, 0), question("q1", "a", 1, 1), question("gone", "x", 1, 1), question("Unset", "x", 0, 0)];
    t.columns.push(col("Unset", TableColumnType::Categorical, &["x"], true));
    let (shown, stale) = load_scored_regression_entries(&entries, &t, true);
    let shown_titles: Vec<String> = shown.iter().map(|e| e.column_title.clone()).collect();
    let stale_titles: Vec<String> = stale.iter().map(|e| e.column_title.clone()).collect();
    assert_eq!(shown_titles, vec!["smoker", "Vide"]);
    assert_eq!(stale_titles, vec!["q1", "gone"]);
}

#[test]
fn adding_a_scored_entry_sorts_answers() {
    let t = survey();
    let v = add_scored_regression_entry("colour".to_string(), vec![], &t);
    assert_eq!(v.len(), 1);
    assert_eq!(v[0].answers, vec!["blue", "green", "red"]);
    assert_eq!(v[0].correct_answer, "blue");
    assert_eq!((v[0].correct_points, v[0].incorrect_points), (0, 0));
    let again = add_scored_regression_entry("colour".to_string(), v, &t);
    assert_eq!(again.len(), 1);
    let missing = add_scored_regression_entry("nope".to_string(), again, &t);
    assert_eq!(missing.len(), 1);
}

#[test]
fn zero_entries_are_detected() {
    assert!(check_contains_zero_entry(&vec![question("a", "x", 1, 0), question("b", "x", 0, 0)]));
    assert!(!check_contains_zero_entry(&vec![question("a", "x", 0, 2)]));
    assert!(!check_contains_zero_entry(&vec![]));
}

fn settings(tab: u32) -> ConfigurationSettings {
    ConfigurationSettings {
        tab_selected: tab,
        simple_regression_column: Some("age".to_string()),
        scored_regression_data: vec![question("smoker", "yes", 3, 1), question("q1", "a", 2, 5)],
        binary_regression_column: Some("smoker".to_string()),
    }
}

#[test]
fn lock_for_simple_regression() {
    let lock = configuration_lock(&survey(), &settings(0)).unwrap();
    assert_eq!(lock.output_name, "age");
    match &lock.output_data {
        OutputColumnData::Regressive(v) => assert_eq!(v, &vec!["20", "31", "44", "52"]),
        _ => panic!("expected a regressive target"),
    }
    assert!(lock.numerical_columns.is_empty());
    let cats: Vec<String> = lock.categorical_columns.iter().map(|c| c.0.clone()).collect();
    assert_eq!(cats, vec!["colour"]);
    assert_eq!(lock.categorical_columns[0].1, vec!["red", "blue", "red"]);
}

#[test]
fn lock_for_scores() {
    let lock = configuration_lock(&survey(), &settings(1)).unwrap();
    assert_eq!(lock.output_name, "score");
    match &lock.output_data {
        OutputColumnData::Scored(v) => assert_eq!(v, &vec![3 + 2, -1 - 5, -1 - 5]),
        _ => panic!("expected scores"),
    }
    let nums: Vec<String> = lock.numerical_columns.iter().map(|c| c.0.clone()).collect();
    assert_eq!(nums, vec!["age"]);
    assert_eq!(lock.numerical_columns[0].1, vec!["20", "31", "52"]);
}

#[test]
fn lock_for_binary_and_unknown_tab() {
    let lock = configuration_lock(&survey(), &settings(2)).unwrap();
    assert_eq!(lock.output_name, "smoker");
    match &lock.output_data {
        OutputColumnData::BinaryClassificatory(v) => assert_eq!(v, &vec!["yes", "no", "yes", "no"]),
        _ => panic!("expected a binary target"),
    }
    assert!(configuration_lock(&survey(), &settings(3)).is_none());
}

#[test]
fn lock_inputs_checked_per_tab() {
    let t = survey();
    assert!(lock_inputs_ready(&t, &settings(0)));
    assert!(lock_inputs_ready(&t, &settings(1)));
    assert!(lock_inputs_ready(&t, &settings(2)));
    let mut s = settings(0);
    s.simple_regression_column = Some("smoker".to_string());
    assert!(!lock_inputs_ready(&t, &s));
    let mut s = settings(1);
    s.scored_regression_data.push(question("missing", "x", 1, 1));
    assert!(!lock_inputs_ready(&t, &s));
    let mut short = survey();
    short.columns[4].column_entries.pop();
    assert!(!lock_inputs_ready(&short, &settings(1)));
    short.excluded_rows.push(3);
    assert!(lock_inputs_ready(&short, &settings(1)));
    let mut s = settings(2);
    s.binary_regression_column = None;
    assert!(!lock_inputs_ready(&t, &s));
}

#[test]
fn add_then_remove_gives_back_the_list() {
    let t = survey();
    let start = vec![question("smoker", "yes", 1, 2)];
    let added = add_scored_regression_entry("colour".to_string(), start, &t);
    assert_eq!(added.len(), 2);
    let back = without_scored_entry(added, &"colour".to_string());
    assert_eq!(back.len(), 1);
    assert_eq!(back[0].column_title, "smoker");
    assert_eq!((back[0].correct_points, back[0].incorrect_points), (1, 2));
}

#[test]
fn translating_twice_is_translating_once() {
    for name in ["Unset", "Vide", "age"] {
        for french in [false, true] {
            let once = selected_column_label(Some(name.to_string()), french);
            assert_eq!(selected_column_label(Some(once.clone()), french), once);
        }
    }
    let fr = selected_column_label(Some("Unset".to_string()), true);
    assert_eq!(selected_column_label(Some(fr), false), "Unset");
}

#[test]
fn scoring_with_every_row_left_out() {
    let mut t = survey();
    t.excluded_rows = vec![0, 1, 2, 3];
    let mut s = settings(1);
    s.scored_regression_data.push(question("missing", "x", 1, 1));
    assert!(lock_inputs_ready(&t, &s));
    let lock = configuration_lock(&t, &s).unwrap();
    match &lock.output_data {
        OutputColumnData::Scored(v) => assert!(v.is_empty()),
        _ => panic!("expected scores"),
    }
}

#[test]
fn saved_choices_are_loaded_back() {
    let mut start = SaveFile::default();
    start.table_data = Some(survey());
    start.conf_settings = settings(1);
    let s = choose_simple_column(start, "height".to_string());
    assert_eq!(selected_column_label(s.conf_settings.simple_regression_column.clone(), true), "height");
    assert_eq!(s.conf_settings.tab_selected, 1);
    assert_eq!(s.conf_settings.binary_regression_column, settings(1).binary_regression_column);
    assert_eq!(s.conf_settings.scored_regression_data.len(), settings(1).scored_regression_data.len());
    assert_eq!(s.table_data.as_ref().unwrap().number_rows, 4);
    let s = choose_binary_column(s, "colour".to_string());
    assert_eq!(selected_column_label(s.conf_settings.binary_regression_column.clone(), false), "colour");
    assert_eq!(s.conf_settings.simple_regression_column, Some("height".to_string()));
    for index in [0, 2, 7, -1, i32::MIN, i32::MAX] {
        let t = choose_tab(SaveFile::default(), index);
        assert_eq!(tab_index(&t.conf_settings), index);
    }
    assert_eq!(choose_tab(SaveFile::default(), -1).conf_settings.tab_selected, u32::MAX);
    let s = replace_scored_entries(s, vec![question("q1", "a", 2, 1)]);
    assert_eq!(s.conf_settings.scored_regression_data.len(), 1);
    assert_eq!(s.conf_settings.scored_regression_data[0].column_title, "q1");
    assert_eq!(s.conf_settings.binary_regression_column, Some("colour".to_string()));
}
