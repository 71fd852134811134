use beeswarmer::config::Config;
use beeswarmer::savefile::{
    remove_scored_regression_entry, replace_table, return_table_if_exists, without_scored_entry, ConfigurationSettings, SaveFile,
    ScoredRegressionEntry,
};
use beeswarmer::storage::{FileAction, LoadEvent};
use beeswarmer::table::TableData;

fn entry(title: &str, points: u32) -> ScoredRegressionEntry {
    ScoredRegressionEntry {
        column_title: title.to_string(),
        correct_answer: "yes".to_string(),
        answers: vec!["no".to_string(), "yes".to_string()],
        correct_points: points,
        incorrect_points: 0,
    }
}

fn titles(v: &[ScoredRegressionEntry]) -> Vec<String> {
    v.iter().map(|e| e.column_title.clone()).collect()
}

#[test]
fn config_load_falls_back_to_defaults() {
    let (c, actions) = Config::load_config("/cfg".to_string(), LoadEvent::Unreadable);
    assert!(!c.is_french && !c.is_dark && c.recent_projects.is_empty());
    assert_eq!(actions.len(), 1);
    match &actions[0] {
        FileAction::Store { path, value } => {
            assert_eq!(path, "/cfg");
            assert!(!value.is_french);
        }
        _ => panic!("expected a store"),
    }
    let (_, actions) = Config::load_config("/cfg".to_string(), LoadEvent::Unparsable("junk".to_string()));
    assert_eq!(actions.len(), 1);
    let parsed = Config { is_french: true, is_dark: true, recent_projects: vec!["p".to_string()] };
    let (c, actions) = Config::load_config("/cfg".to_string(), LoadEvent::Parsed(parsed));
    assert!(c.is_french && c.is_dark);
    assert_eq!(c.recent_projects, vec!["p"]);
    assert!(actions.is_empty());
}

#[test]
fn config_tweak_stores_changed_settings() {
    let actions = Config::tweak_config("/cfg".to_string(), LoadEvent::Unreadable, |mut c: Config| {
        c.is_french = true;
        c
    });
    assert_eq!(actions.len(), 2);
    match &actions[1] {
        FileAction::Store { path, value } => {
            assert_eq!(path, "/cfg");
            assert!(value.is_french);
        }
        _ => panic!("expected a store"),
    }
}

#[test]
fn config_location_and_translation() {
    assert_eq!(Config::get_config_file_location(Some("/home/u/.config".to_string()), '/'), "/home/u/.config/beeswarmer.toml");
    assert_eq!(Config::get_config_file_location(None, '/'), "");
    let c = Config { is_french: true, is_dark: false, recent_projects: vec![] };
    assert_eq!(c.translation_code(), "fr");
    assert_eq!(Config::default().translation_code(), "en");
}

#[test]
fn savefile_load_keeps_unparsable_text() {
    let (s, actions) = SaveFile::load_savefile("p.bswproj".to_string(), LoadEvent::Unparsable("{{".to_string()));
    assert!(s.table_data.is_none());
    assert_eq!(actions.len(), 2);
    match &actions[0] {
        FileAction::WriteText { path, text } => {
            assert_eq!(path, "p.bswproj_old.bswprj");
            assert_eq!(text, "{{");
        }
        _ => panic!("expected the raw text to be kept"),
    }
    match &actions[1] {
        FileAction::Store { path, value } => {
            assert_eq!(path, "p.bswproj");
            assert_eq!(value.conf_settings.tab_selected, 0);
            assert!(value.conf_settings.scored_regression_data.is_empty());
        }
        _ => panic!("expected a store"),
    }
    let (_, actions) = SaveFile::load_savefile("p".to_string(), LoadEvent::Unreadable);
    assert_eq!(actions.len(), 1);
}

#[test]
fn savefile_tweak_applies_change_after_load() {
    let mut parsed = SaveFile::default();
    parsed.conf_settings.tab_selected = 2;
    let actions = SaveFile::tweak_savefile("p".to_string(), LoadEvent::Parsed(parsed), |mut s: SaveFile| {
        s.conf_settings.simple_regression_column = Some("age".to_string());
        s
    });
    assert_eq!(actions.len(), 1);
    match &actions[0] {
        FileAction::Store { value, .. } => {
            assert_eq!(value.conf_settings.tab_selected, 2);
            assert_eq!(value.conf_settings.simple_regression_column.as_deref(), Some("age"));
        }
        _ => panic!("expected a store"),
    }
}

#[test]
fn table_of_saved_project() {
    let mut parsed = SaveFile::default();
    parsed.table_data = Some(TableData::from_csv("q\n1".to_string()).ok().unwrap());
    let (t, actions) = return_table_if_exists("p".to_string(), LoadEvent::Parsed(parsed));
    assert_eq!(t.unwrap().columns[0].title, "q");
    assert!(actions.is_empty());
    let (t, actions) = return_table_if_exists("p".to_string(), LoadEvent::Unreadable);
    assert!(t.is_none());
    assert_eq!(actions.len(), 1);
}

#[test]
fn removing_a_scored_entry() {
    let v = vec![entry("a", 1), entry("b", 2), entry("a", 3)];
    let r = without_scored_entry(v, &"a".to_string());
    assert_eq!(titles(&r), vec!["b", "a"]);
    assert_eq!(r[1].correct_points, 3);
    let r = without_scored_entry(r, &"zzz".to_string());
    assert_eq!(titles(&r), vec!["b", "a"]);

    let mut parsed = SaveFile::default();
    parsed.conf_settings = ConfigurationSettings {
        tab_selected: 1,
        simple_regression_column: None,
        scored_regression_data: vec![entry("x", 1), entry("y", 1)],
        binary_regression_column: None,
    };
    let actions = remove_scored_regression_entry("p".to_string(), LoadEvent::Parsed(parsed), &entry("y", 9));
    assert_eq!(actions.len(), 1);
    match &actions[0] {
        FileAction::Store { value, .. } => assert_eq!(titles(&value.conf_settings.scored_regression_data), vec!["x"]),
        _ => panic!("expected a store"),
    }
}

fn stored_config(actions: &[FileAction<Config>]) -> Config {
    match actions.last() {
        Some(FileAction::Store { value, .. }) => Config {
            is_french: value.is_french,
            is_dark: value.is_dark,
            recent_projects: value.recent_projects.clone(),
        },
        _ => panic!("expected a store"),
    }
}

#[test]
fn config_tweaks_compose_and_unchanged_tweak_keeps_settings() {
    let start = || Config { is_french: false, is_dark: true, recent_projects: vec!["a".to_string()] };
    let unchanged = Config::tweak_config("/cfg".to_string(), LoadEvent::Parsed(start()), |c: Config| c);
    assert_eq!(unchanged.len(), 1);
    let kept = stored_config(&unchanged);
    assert!(!kept.is_french && kept.is_dark && kept.recent_projects == vec!["a"]);

    let f = |mut c: Config| {
        c.is_french = true;
        c
    };
    let g = |mut c: Config| {
        c.recent_projects.push("b".to_string());
        c
    };
    let first = Config::tweak_config("/cfg".to_string(), LoadEvent::Parsed(start()), f);
    let second = Config::tweak_config("/cfg".to_string(), LoadEvent::Parsed(stored_config(&first)), g);
    let both = Config::tweak_config("/cfg".to_string(), LoadEvent::Parsed(start()), |c: Config| g(f(c)));
    assert_eq!(second.len(), 1);
    let (x, y) = (stored_config(&second), stored_config(&both));
    assert_eq!((x.is_french, x.is_dark, x.recent_projects.clone()), (y.is_french, y.is_dark, y.recent_projects.clone()));
    assert_eq!(x.recent_projects, vec!["a", "b"]);
    assert!(x.is_french);
}

#[test]
fn language_switch_keeps_other_settings() {
    let c = Config { is_french: false, is_dark: true, recent_projects: vec!["p".to_string()] };
    let actions = Config::tweak_config("/cfg".to_string(), LoadEvent::Parsed(c), |c: Config| c.with_language(true));
    let stored = stored_config(&actions);
    assert!(stored.is_french && stored.is_dark);
    assert_eq!(stored.recent_projects, vec!["p"]);
    assert_eq!(stored.translation_code(), "fr");
    assert_eq!(stored.with_language(false).translation_code(), "en");
}

#[test]
fn edited_table_replaces_only_the_table() {
    let mut start = SaveFile::default();
    start.conf_settings.tab_selected = 2;
    start.conf_settings.simple_regression_column = Some("age".to_string());
    start.conf_settings.scored_regression_data = vec![entry("q1", 3)];
    let table = TableData::from_csv("a,b\n1,2\n".to_string()).unwrap();
    let s = replace_table(start, table);
    let t = s.table_data.as_ref().unwrap();
    assert_eq!(t.number_rows, 1);
    assert_eq!(t.columns.len(), 2);
    assert_eq!(s.conf_settings.tab_selected, 2);
    assert_eq!(s.conf_settings.simple_regression_column, Some("age".to_string()));
    assert_eq!(titles(&s.conf_settings.scored_regression_data), vec!["q1"]);
    assert!(s.conf_lock.is_none());
}
