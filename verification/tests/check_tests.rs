use beeswarmer::checks::{
    check_all_cells_have_value, check_all_columns_set, check_numerical_check, check_table_empty,
    get_mutated_excluded_rows, row_listed, table_contains, CheckResult,
};
use beeswarmer::table::{TableColumn, TableColumnType, TableData};

fn col(title: &str, ty: TableColumnType, entries: &[&str], enabled: bool) -> TableColumn {
    TableColumn {
        title: title.to_string(),
        column_type: ty,
        column_entries: entries.iter().map(|s| s.to_string()).collect(),
        enabled,
    }
}

fn table(columns: Vec<TableColumn>, excluded: Vec<u32>, rows: u32) -> TableData {
    TableData { columns, excluded_rows: excluded, number_rows: rows }
}

#[test]
fn excluded_rows_toggle() {
    assert_eq!(get_mutated_excluded_rows(vec![1, 2], false, 5), vec![1, 2, 5]);
    assert_eq!(get_mutated_excluded_rows(vec![3, 5, 7, 5], true, 5), vec![3, 7, 5]);
    assert_eq!(get_mutated_excluded_rows(vec![3, 7], true, 5), vec![3, 7]);
    let back = get_mutated_excluded_rows(get_mutated_excluded_rows(vec![4, 9], false, 2), true, 2);
    assert_eq!(back, vec![4, 9]);
}

#[test]
fn contains_checks() {
    assert!(table_contains(&vec![1, -3, 8], -3));
    assert!(!table_contains(&vec![1, 8], 2));
    assert!(!table_contains(&vec![], 0));
    assert!(row_listed(&vec![4, 6], 6));
    assert!(!row_listed(&vec![4, 6], 5));
}

#[test]
fn all_cells_have_value_finds_first_gap() {
    let t = table(
        vec![
            col("a", TableColumnType::Numerical, &["1", "", "3"], true),
            col("b", TableColumnType::Numerical, &["", "2", ""], true),
        ],
        vec![],
        3,
    );
    assert_eq!(check_all_cells_have_value(&t), CheckResult { ok: false, x: 0, y: 1 });
}

#[test]
fn all_cells_have_value_skips_excluded_and_disabled() {
    let t = table(
        vec![
            col("a", TableColumnType::Numerical, &["1", "", "3"], true),
            col("b", TableColumnType::Numerical, &["", "", ""], false),
            col("c", TableColumnType::Numerical, &["x", "y", ""], true),
        ],
        vec![1],
        3,
    );
    assert_eq!(check_all_cells_have_value(&t), CheckResult { ok: false, x: 2, y: 2 });
    let t2 = table(vec![col("a", TableColumnType::Numerical, &["1", ""], true)], vec![1], 2);
    assert_eq!(check_all_cells_have_value(&t2), CheckResult { ok: true, x: -1, y: -1 });
}

#[test]
fn all_columns_set_prefers_untitled() {
    let t = table(
        vec![
            col("a", TableColumnType::Numerical, &[], true),
            col("b", TableColumnType::Unset, &[], true),
            col("", TableColumnType::Categorical, &[], true),
        ],
        vec![],
        0,
    );
    assert_eq!(check_all_columns_set(&t), CheckResult { ok: false, x: 2, y: -1 });
    let t = table(
        vec![
            col("a", TableColumnType::Unset, &[], false),
            col("b", TableColumnType::Unset, &[], true),
        ],
        vec![],
        0,
    );
    assert_eq!(check_all_columns_set(&t), CheckResult { ok: false, x: 1, y: -1 });
    let t = table(vec![col("", TableColumnType::Unset, &[], false)], vec![], 0);
    assert_eq!(check_all_columns_set(&t), CheckResult { ok: true, x: -1, y: -1 });
}

#[test]
fn numerical_check_reports_last_bad_cell() {
    let t = table(
        vec![
            col("a", TableColumnType::Numerical, &["1", "x", "y"], true),
            col("b", TableColumnType::Categorical, &["p", "q", "r"], true),
            col("c", TableColumnType::Numerical, &["z", "2", "3"], true),
        ],
        vec![2],
        3,
    );
    let parses: Vec<Vec<bool>> = t
        .columns
        .iter()
        .map(|c| c.column_entries.iter().map(|s| s.parse::<f64>().is_ok()).collect())
        .collect();
    assert_eq!(check_numerical_check(&t, &parses), CheckResult { ok: false, x: 2, y: 0 });
    let t2 = table(vec![col("a", TableColumnType::Numerical, &["1.5", "-2"], true)], vec![], 2);
    let parses2 = vec![vec![true, true]];
    assert_eq!(check_numerical_check(&t2, &parses2), CheckResult { ok: true, x: -1, y: -1 });
}

#[test]
fn table_empty_check() {
    let t = table(vec![col("a", TableColumnType::Unset, &["1"], true)], vec![], 1);
    assert_eq!(check_table_empty(&t), CheckResult { ok: true, x: -1, y: -1 });
    let t = table(vec![], vec![], 4);
    assert_eq!(check_table_empty(&t), CheckResult { ok: false, x: -1, y: -1 });
    let t = table(vec![col("a", TableColumnType::Unset, &[], true)], vec![], 0);
    assert!(!check_table_empty(&t).ok);
}
