use beeswarmer::appdata::AppState;
use beeswarmer::setup::{setup_next_message, with_project_extension};
use beeswarmer::sorting::{sorted_distinct, string_less};
use beeswarmer::text::{chars_of, concat_strings, decimal_string, string_from_chars, strings_contain};

#[test]
fn project_extension_is_added_once() {
    assert_eq!(with_project_extension("survey".to_string()), "survey.bswproj");
    assert_eq!(with_project_extension("survey.bswproj".to_string()), "survey.bswproj");
    assert_eq!(with_project_extension("a.bswprojx".to_string()), "a.bswprojx.bswproj");
    assert_eq!(with_project_extension(String::new()), ".bswproj");
}

#[test]
fn next_button_messages() {
    assert_eq!(setup_next_message(Ok(true)), "yay");
    assert_eq!(setup_next_message(Ok(false)), "Save file not found at provided path");
    assert_eq!(setup_next_message(Err("denied".to_string())), "Could not verify file path, denied");
}

#[test]
fn string_order_and_sorting() {
    assert!(string_less(&"ab".to_string(), &"b".to_string()));
    assert!(string_less(&"a".to_string(), &"ab".to_string()));
    assert!(!string_less(&"b".to_string(), &"b".to_string()));
    assert!(string_less(&"Z".to_string(), &"a".to_string()));
    let v: Vec<String> = ["pear", "apple", "pear", "fig", "apple"].iter().map(|s| s.to_string()).collect();
    assert_eq!(sorted_distinct(&v), vec!["apple", "fig", "pear"]);
    let mut expected = v.clone();
    expected.sort();
    expected.dedup();
    assert_eq!(sorted_distinct(&v), expected);
}

#[test]
fn text_helpers() {
    assert_eq!(decimal_string(0), "0");
    assert_eq!(decimal_string(907), "907");
    assert_eq!(decimal_string(usize::MAX), usize::MAX.to_string());
    assert_eq!(chars_of("héllo"), vec!['h', 'é', 'l', 'l', 'o']);
    assert_eq!(string_from_chars(&vec!['a', 'b', 'c', 'd'], 1, 3), "bc");
    assert_eq!(concat_strings(&"ab".to_string(), &"ç".to_string()), "abç");
    assert!(strings_contain(&vec!["x".to_string()], &"x".to_string()));
    assert!(!strings_contain(&vec!["x".to_string()], &"y".to_string()));
}

#[test]
fn app_state_starts_empty() {
    let s = AppState::default();
    assert!(s.save_file_path.is_empty());
    assert!(!s.french_selected);
}
