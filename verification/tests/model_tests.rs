use beeswarmer::labels::{feature_titles, shorten_snake_case, to_snake_case_and_shorten};
use beeswarmer::ml::{
    categorical_to_one_hot, drop_bias_and_transpose, flatten_columns, get_mapped_binary, ConfigurationLock,
    OutputColumnData,
};

fn strings(v: &[&str]) -> Vec<String> {
    v.iter().map(|s| s.to_string()).collect()
}

#[test]
fn one_hot_in_order_of_first_appearance() {
    let r = categorical_to_one_hot(&strings(&["b", "a", "b", "c"]));
    let names: Vec<String> = r.iter().map(|c| c.0.clone()).collect();
    assert_eq!(names, vec!["b", "a", "c"]);
    assert_eq!(r[0].1, vec![true, false, true, false]);
    assert_eq!(r[1].1, vec![false, true, false, false]);
    assert_eq!(r[2].1, vec![false, false, false, true]);
    for row in 0..4 {
        assert_eq!(r.iter().filter(|c| c.1[row]).count(), 1);
    }
    assert!(categorical_to_one_hot(&vec![]).is_empty());
}

#[test]
fn binary_target_marks_first_answer() {
    assert_eq!(get_mapped_binary(&strings(&["no", "yes", "no"])), vec![true, false, true]);
    assert_eq!(get_mapped_binary(&strings(&["x"])), vec![true]);
}

#[test]
fn columns_are_flattened_in_order() {
    assert_eq!(flatten_columns(&vec![vec![1.0, 0.0], vec![], vec![5.5]]), vec![1.0, 0.0, 5.5]);
}

#[test]
fn contributions_are_reshaped_by_feature() {
    // two rows, two features and a bias each: row r, feature c at r * 3 + c
    let raw = vec![0.1, 0.2, 9.0, 1.1, 1.2, 9.0];
    assert_eq!(drop_bias_and_transpose(&raw, 2), vec![0.1, 1.1, 0.2, 1.2]);
    let raw3 = vec![1, 2, 0, 3, 4, 0, 5, 6, 0];
    assert_eq!(drop_bias_and_transpose(&raw3, 3), vec![1, 3, 5, 2, 4, 6]);
    let empty: Vec<i32> = vec![];
    assert!(drop_bias_and_transpose(&empty, 4).is_empty());
}

#[test]
fn snake_case_labels() {
    assert_eq!(to_snake_case_and_shorten(&"How Old Are You Now".to_string()), "how_old_are");
    assert_eq!(to_snake_case_and_shorten(&"Self-Rated Health".to_string()), "self_rated_health");
    assert_eq!(to_snake_case_and_shorten(&"a  b".to_string()), "a__b");
    assert_eq!(to_snake_case_and_shorten(&"Yes ".to_string()), "yes");
    assert_eq!(to_snake_case_and_shorten(&"ÉTÉ".to_string()), "été");
    assert_eq!(shorten_snake_case(&"___".to_string()), "");
    assert_eq!(shorten_snake_case(&"x_y_z_w_v".to_string()), "x_y_z");
}

#[test]
fn feature_titles_follow_model_order() {
    let lock = ConfigurationLock {
        numerical_columns: vec![("Age Now".to_string(), strings(&["1", "2"]))],
        categorical_columns: vec![("Fav Colour".to_string(), strings(&["Red", "Dark Blue", "Red"]))],
        output_name: "score".to_string(),
        output_data: OutputColumnData::Scored(vec![1, 2]),
    };
    assert_eq!(feature_titles(&lock), vec!["fav_colour_red", "fav_colour_dark_blue", "age_now"]);
}

#[test]
fn ascii_labels_are_tidy_and_stable() {
    for text in ["How Old Are You Now", "A-B C_D", "Yes__", "  ", "MIXED case-Text here", "x_y"] {
        let once = to_snake_case_and_shorten(&text.to_string());
        assert!(!once.contains(' ') && !once.contains('-') && !once.ends_with('_'));
        assert!(!once.chars().any(|c| c.is_ascii_uppercase()));
        assert!(once.matches('_').count() <= 2);
        assert_eq!(to_snake_case_and_shorten(&once), once);
    }
}

#[test]
fn labels_keep_three_words() {
    assert_eq!(to_snake_case_and_shorten(&"one two three four".to_string()), "one_two_three");
    assert_eq!(to_snake_case_and_shorten(&"a__b c".to_string()), "a__b");
    assert_eq!(to_snake_case_and_shorten(&"_x_y_z".to_string()), "_x_y");
    assert_eq!(to_snake_case_and_shorten(&"".to_string()), "");
}
