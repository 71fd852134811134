//! The project file: the survey table, the configuration choices and the
//! locked model setup.
use vstd::prelude::*;
use crate::ml::{ConfigurationLock, LockView};
use crate::storage::{FileAction, LoadEvent, is_store, is_write_text};
use crate::table::{TableData, TableView};
use crate::text::{concat_strings, copy_strings};

verus! {

/// A scored question: the column it reads, the answer that earns points,
/// the answers seen, and the points won or lost.
#[derive(Clone)]
pub struct ScoredRegressionEntry {
    pub column_title: String,
    pub correct_answer: String,
    pub answers: Vec<String>,
    pub correct_points: u32,
    pub incorrect_points: u32,
}

/// The choices made in the configuration step.
pub struct ConfigurationSettings {
    pub tab_selected: u32,
    pub simple_regression_column: Option<String>,
    pub scored_regression_data: Vec<ScoredRegressionEntry>,
    pub binary_regression_column: Option<String>,
}

/// The project file.
pub struct SaveFile {
    pub table_data: Option<TableData>,
    pub conf_settings: ConfigurationSettings,
    pub conf_lock: Option<ConfigurationLock>,
}

/// `ScoredRegressionEntry` taken as plain values.
pub struct EntryView {
    pub column_title: Seq<char>,
    pub correct_answer: Seq<char>,
    pub answers: Seq<Seq<char>>,
    pub correct_points: u32,
    pub incorrect_points: u32,
}

/// `ConfigurationSettings` taken as plain values.
pub struct SettingsView {
    pub tab_selected: u32,
    pub simple_regression_column: Option<Seq<char>>,
    pub scored_regression_data: Seq<EntryView>,
    pub binary_regression_column: Option<Seq<char>>,
}

/// `SaveFile` taken as plain values.
pub struct SaveFileView {
    pub table_data: Option<TableView>,
    pub conf_settings: SettingsView,
    pub conf_lock: Option<LockView>,
}

/// An optional text taken by its characters.
pub open spec fn text_option(o: Option<String>) -> Option<Seq<char>> {
    match o {
        Some(s) => Some(s@),
        None => None,
    }
}

/// A list of scored questions taken as plain values.
pub open spec fn entries_view(v: Seq<ScoredRegressionEntry>) -> Seq<EntryView> {
    v.map_values(|e: ScoredRegressionEntry| e@)
}

impl View for ScoredRegressionEntry {
    type V = EntryView;

    open spec fn view(&self) -> EntryView {
        EntryView {
            column_title: self.column_title@,
            correct_answer: self.correct_answer@,
            answers: self.answers.deep_view(),
            correct_points: self.correct_points,
            incorrect_points: self.incorrect_points,
        }
    }
}

impl View for ConfigurationSettings {
    type V = SettingsView;

    open spec fn view(&self) -> SettingsView {
        SettingsView {
            tab_selected: self.tab_selected,
            simple_regression_column: text_option(self.simple_regression_column),
            scored_regression_data: entries_view(self.scored_regression_data@),
            binary_regression_column: text_option(self.binary_regression_column),
        }
    }
}

impl View for SaveFile {
    type V = SaveFileView;

    open spec fn view(&self) -> SaveFileView {
        SaveFileView {
            table_data: match self.table_data {
                Some(t) => Some(t@),
                None => None,
            },
            conf_settings: self.conf_settings@,
            conf_lock: match self.conf_lock {
                Some(l) => Some(l@),
                None => None,
            },
        }
    }
}

/// The configuration choices of a new project: first tab, nothing chosen.
pub open spec fn default_settings() -> SettingsView {
    SettingsView {
        tab_selected: 0,
        simple_regression_column: None,
        scored_regression_data: seq![],
        binary_regression_column: None,
    }
}

/// A new, empty project.
pub open spec fn default_savefile() -> SaveFileView {
    SaveFileView { table_data: None, conf_settings: default_settings(), conf_lock: None }
}

impl Default for ScoredRegressionEntry {
    fn default() -> (r: Self)
        ensures
            r.column_title@ == Seq::<char>::empty(),
            r.correct_answer@ == Seq::<char>::empty(),
            r.answers@.len() == 0,
            r.correct_points == 0,
            r.incorrect_points == 0,
    {
        ScoredRegressionEntry {
            column_title: String::new(),
            correct_answer: String::new(),
            answers: Vec::new(),
            correct_points: 0,
            incorrect_points: 0,
        }
    }
}

impl Default for ConfigurationSettings {
    fn default() -> (r: Self)
        ensures
            r@ == default_settings(),
    {
        let r = ConfigurationSettings {
            tab_selected: 0,
            simple_regression_column: None,
            scored_regression_data: Vec::new(),
            binary_regression_column: None,
        };
        assert(entries_view(r.scored_regression_data@) =~= Seq::<EntryView>::empty());
        r
    }
}

impl Default for SaveFile {
    fn default() -> (r: Self)
        ensures
            r@ == default_savefile(),
    {
        SaveFile { table_data: None, conf_settings: ConfigurationSettings::default(), conf_lock: None }
    }
}

impl ScoredRegressionEntry {
    /// A copy of this entry.
    pub fn duplicate(&self) -> (r: ScoredRegressionEntry)
        ensures
            r@ == self@,
    {
        ScoredRegressionEntry {
            column_title: self.column_title.clone(),
            correct_answer: self.correct_answer.clone(),
            answers: copy_strings(&self.answers),
            correct_points: self.correct_points,
            incorrect_points: self.incorrect_points,
        }
    }
}

/// `entries` without the first entry for column `title`, or unchanged when none is.
pub open spec fn remove_first_titled(entries: Seq<EntryView>, title: Seq<char>) -> Seq<EntryView>
    decreases entries.len(),
{
    if entries.len() == 0 {
        entries
    } else if entries[0].column_title == title {
        entries.drop_first()
    } else {
        seq![entries[0]] + remove_first_titled(entries.drop_first(), title)
    }
}

proof fn lemma_remove_first_titled_at(s: Seq<EntryView>, title: Seq<char>, i: int)
    requires
        0 <= i < s.len(),
        s[i].column_title == title,
        forall|k: int| 0 <= k < i ==> s[k].column_title != title,
    ensures
        remove_first_titled(s, title) == s.remove(i),
    decreases s.len(),
{
    if i > 0 {
        lemma_remove_first_titled_at(s.drop_first(), title, i - 1);
        assert(s.remove(i) =~= seq![s[0]] + s.drop_first().remove(i - 1));
    }
}

proof fn lemma_remove_first_titled_absent(s: Seq<EntryView>, title: Seq<char>)
    requires
        forall|k: int| 0 <= k < s.len() ==> s[k].column_title != title,
    ensures
        remove_first_titled(s, title) == s,
    decreases s.len(),
{
    if s.len() > 0 {
        lemma_remove_first_titled_absent(s.drop_first(), title);
        assert(seq![s[0]] + s.drop_first() =~= s);
    }
}

/// The scored questions without the first one for column `title`; the
/// list is unchanged when no question reads that column.
pub fn without_scored_entry(entries: Vec<ScoredRegressionEntry>, title: &String) -> (r: Vec<ScoredRegressionEntry>)
    ensures
        entries_view(r@) == remove_first_titled(entries_view(entries@), title@),
{
    let mut v = entries;
    let ghost orig = entries_view(v@);
    let mut i: usize = 0;
    while i < v.len()
        invariant
            i <= v.len(),
            orig == entries_view(v@),
            orig == entries_view(entries@),
            forall|k: int| 0 <= k < i ==> orig[k].column_title != title@,
        decreases v.len() - i,
    {
        if v[i].column_title == *title {
            proof {
                lemma_remove_first_titled_at(orig, title@, i as int);
            }
            let ghost before = v@;
            let _ = v.remove(i);
            assert(entries_view(v@) =~= orig.remove(i as int));
            return v;
        }
        i = i + 1;
    }
    proof {
        lemma_remove_first_titled_absent(orig, title@);
    }
    v
}

/// The project in use after a load: the one parsed, else a new one.
pub open spec fn loaded_savefile(event: LoadEvent<SaveFile>) -> SaveFileView {
    match event {
        LoadEvent::Parsed(s) => s@,
        _ => default_savefile(),
    }
}

/// The writes a load of `path` asks for: none after a parse; a new project
/// stored after a failed read; after a failed parse, the unparsable text
/// kept beside the file (`_old.bswprj` appended to its path), then a new
/// project stored.
pub open spec fn load_savefile_actions(path: Seq<char>, event: LoadEvent<SaveFile>, actions: Seq<FileAction<SaveFile>>) -> bool {
    match event {
        LoadEvent::Parsed(_) => actions.len() == 0,
        LoadEvent::Unreadable => actions.len() == 1 && is_store(actions[0], path, default_savefile()),
        LoadEvent::Unparsable(raw) => actions.len() == 2
            && is_write_text(actions[0], path + "_old.bswprj"@, raw@)
            && is_store(actions[1], path, default_savefile()),
    }
}

/// The writes a tweak of the project at `path` asks for: those of its load,
/// then one store there of what `func` returned for the loaded project.
pub open spec fn tweak_savefile_actions<F: FnOnce(SaveFile) -> SaveFile>(
    path: Seq<char>,
    event: LoadEvent<SaveFile>,
    func: F,
    actions: Seq<FileAction<SaveFile>>,
) -> bool {
    &&& actions.len() > 0
    &&& load_savefile_actions(path, event, actions.drop_last())
    &&& actions.last() matches FileAction::Store { path: p, value: v } && p@ == path
        && exists|s: SaveFile| s@ == loaded_savefile(event) && call_ensures(func, (s,), v)
}

/// `func` changes a project as `edit` says, whatever it is given.
pub open spec fn edits_savefile_as<F: FnOnce(SaveFile) -> SaveFile>(func: F, edit: spec_fn(SaveFileView) -> SaveFileView) -> bool {
    forall|s: SaveFile, out: SaveFile| call_ensures(func, (s,), out) ==> out@ == edit(s@)
}

/// A tweak with a function that changes nothing stores the project its load
/// gave; after a parsed load that store is its only write.
pub proof fn law_unchanged_tweak_savefile<F: FnOnce(SaveFile) -> SaveFile>(
    path: Seq<char>,
    event: LoadEvent<SaveFile>,
    func: F,
    actions: Seq<FileAction<SaveFile>>,
)
    requires
        edits_savefile_as(func, |v: SaveFileView| v),
        tweak_savefile_actions(path, event, func, actions),
    ensures
        is_store(actions.last(), path, loaded_savefile(event)),
        event is Parsed ==> actions.len() == 1,
{
}

/// Two tweaks in turn, the second reading back the project the first stored,
/// store what one tweak with the two changes one after the other stores from
/// the same start; the second writes nothing but that store.
pub proof fn law_tweak_savefile_compose<F, G, H>(
    path: Seq<char>,
    event: LoadEvent<SaveFile>,
    f: F,
    first_edit: spec_fn(SaveFileView) -> SaveFileView,
    first: Seq<FileAction<SaveFile>>,
    read_back: SaveFile,
    g: G,
    second_edit: spec_fn(SaveFileView) -> SaveFileView,
    second: Seq<FileAction<SaveFile>>,
    h: H,
    both: Seq<FileAction<SaveFile>>,
)
    where
        F: FnOnce(SaveFile) -> SaveFile,
        G: FnOnce(SaveFile) -> SaveFile,
        H: FnOnce(SaveFile) -> SaveFile,
    requires
        edits_savefile_as(f, first_edit),
        edits_savefile_as(g, second_edit),
        edits_savefile_as(h, |v: SaveFileView| second_edit(first_edit(v))),
        tweak_savefile_actions(path, event, f, first),
        is_store(first.last(), path, read_back@),
        tweak_savefile_actions(path, LoadEvent::Parsed(read_back), g, second),
        tweak_savefile_actions(path, event, h, both),
    ensures
        second.len() == 1,
        is_store(second.last(), path, second_edit(first_edit(loaded_savefile(event)))),
        is_store(both.last(), path, second_edit(first_edit(loaded_savefile(event)))),
{
}

impl SaveFile {
    /// The project after a load from `path`, and the writes it asks for.
    pub fn load_savefile(path: String, event: LoadEvent<SaveFile>) -> (r: (SaveFile, Vec<FileAction<SaveFile>>))
        ensures
            r.0@ == loaded_savefile(event),
            load_savefile_actions(path@, event, r.1@),
    {
        match event {
            LoadEvent::Parsed(s) => (s, Vec::new()),
            LoadEvent::Unreadable => {
                let mut actions: Vec<FileAction<SaveFile>> = Vec::new();
                actions.push(FileAction::Store { path, value: SaveFile::default() });
                (SaveFile::default(), actions)
            },
            LoadEvent::Unparsable(raw) => {
                let suffix = "_old.bswprj".to_owned();
                let backup = concat_strings(&path, &suffix);
                let mut actions: Vec<FileAction<SaveFile>> = Vec::new();
                actions.push(FileAction::WriteText { path: backup, text: raw });
                actions.push(FileAction::Store { path, value: SaveFile::default() });
                (SaveFile::default(), actions)
            },
        }
    }

    /// Loads the project at `path`, changes it with `func` and stores the
    /// result there: the writes of the load come first, then one store of
    /// what `func` returned for the loaded project.
    pub fn tweak_savefile<F: FnOnce(SaveFile) -> SaveFile>(path: String, event: LoadEvent<SaveFile>, func: F) -> (r: Vec<FileAction<SaveFile>>)
        requires
            forall|s: SaveFile| s@ == loaded_savefile(event) ==> call_requires(func, (s,)),
        ensures
            tweak_savefile_actions(path@, event, func, r@),
    {
        let target = path.clone();
        let (save_file, mut actions) = Self::load_savefile(path, event);
        let changed = func(save_file);
        let ghost before = actions@;
        actions.push(FileAction::Store { path: target, value: changed });
        assert(actions@.drop_last() =~= before);
        actions
    }
}

/// The table of the project at `path`, if it has one, and the writes its
/// load asks for.
pub fn return_table_if_exists(path: String, event: LoadEvent<SaveFile>) -> (r: (Option<TableData>, Vec<FileAction<SaveFile>>))
    ensures
        match r.0 {
            Some(t) => loaded_savefile(event).table_data == Some(t@),
            None => loaded_savefile(event).table_data is None,
        },
        load_savefile_actions(path@, event, r.1@),
{
    let (save_file, actions) = SaveFile::load_savefile(path, event);
    (save_file.table_data, actions)
}

/// The project with its table replaced.
pub open spec fn with_table(s: SaveFileView, table: TableView) -> SaveFileView {
    SaveFileView { table_data: Some(table), ..s }
}

/// Puts an edited table into the project; nothing else changes.
pub fn replace_table(save_file: SaveFile, table: TableData) -> (r: SaveFile)
    ensures
        r@ == with_table(save_file@, table@),
{
    let mut r = save_file;
    r.table_data = Some(table);
    r
}

/// The project with its question list replaced.
pub open spec fn with_entries(s: SaveFileView, entries: Seq<EntryView>) -> SaveFileView {
    SaveFileView {
        table_data: s.table_data,
        conf_settings: SettingsView {
            tab_selected: s.conf_settings.tab_selected,
            simple_regression_column: s.conf_settings.simple_regression_column,
            scored_regression_data: entries,
            binary_regression_column: s.conf_settings.binary_regression_column,
        },
        conf_lock: s.conf_lock,
    }
}

/// Removes the first scored question for `s`'s column from the project at
/// `save_file_path`, which must hold one, and asks for the project to be
/// stored again.
pub fn remove_scored_regression_entry(save_file_path: String, event: LoadEvent<SaveFile>, s: &ScoredRegressionEntry) -> (r: Vec<FileAction<SaveFile>>)
    requires
        event matches LoadEvent::Parsed(sf) && exists|i: int|
            0 <= i < sf@.conf_settings.scored_regression_data.len()
            && #[trigger] sf@.conf_settings.scored_regression_data[i].column_title == s.column_title@,
    ensures
        r@.len() == 1,
        is_store(r@[0], save_file_path@, with_entries(
            loaded_savefile(event),
            remove_first_titled(loaded_savefile(event).conf_settings.scored_regression_data, s.column_title@),
        )),
{
    let title = s.column_title.clone();
    let ghost t = title@;
    let edit = |sf: SaveFile| -> (out: SaveFile)
        ensures
            out@ == with_entries(sf@, remove_first_titled(sf@.conf_settings.scored_regression_data, t)),
        {
            let mut sf = sf;
            let mut entries: Vec<ScoredRegressionEntry> = Vec::new();
            std::mem::swap(&mut entries, &mut sf.conf_settings.scored_regression_data);
            sf.conf_settings.scored_regression_data = without_scored_entry(entries, &title);
            sf
        };
    let r = SaveFile::tweak_savefile(save_file_path, event, edit);
    proof {
        assert(r@.drop_last().len() == 0);
    }
    r
}

} // verus!
