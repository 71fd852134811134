//! The user's settings: language, theme and recent projects.
use vstd::prelude::*;
use crate::storage::{FileAction, LoadEvent, is_store};
use crate::text::{concat_strings, push_char};

verus! {

/// The user's settings.
pub struct Config {
    pub is_french: bool,
    pub is_dark: bool,
    pub recent_projects: Vec<String>,
}

/// `Config` taken as plain values.
pub struct ConfigView {
    pub is_french: bool,
    pub is_dark: bool,
    pub recent_projects: Seq<Seq<char>>,
}

impl View for Config {
    type V = ConfigView;

    open spec fn view(&self) -> ConfigView {
        ConfigView {
            is_french: self.is_french,
            is_dark: self.is_dark,
            recent_projects: self.recent_projects.deep_view(),
        }
    }
}

/// The settings written when none can be read: English, light, no recent projects.
pub open spec fn default_config() -> ConfigView {
    ConfigView { is_french: false, is_dark: false, recent_projects: seq![] }
}

/// The settings in use after a load: those parsed, else the defaults.
pub open spec fn loaded_config(event: LoadEvent<Config>) -> ConfigView {
    match event {
        LoadEvent::Parsed(c) => c@,
        _ => default_config(),
    }
}

/// The writes a load asks for: none after a parse, else the defaults stored at `path`.
pub open spec fn load_config_actions(path: Seq<char>, event: LoadEvent<Config>, actions: Seq<FileAction<Config>>) -> bool {
    match event {
        LoadEvent::Parsed(_) => actions.len() == 0,
        _ => actions.len() == 1 && is_store(actions[0], path, default_config()),
    }
}

/// The writes a tweak of the settings at `path` asks for: those of its load,
/// then one store there of what `func` returned for the loaded settings.
pub open spec fn tweak_config_actions<F: FnOnce(Config) -> Config>(
    path: Seq<char>,
    event: LoadEvent<Config>,
    func: F,
    actions: Seq<FileAction<Config>>,
) -> bool {
    &&& actions.len() > 0
    &&& load_config_actions(path, event, actions.drop_last())
    &&& actions.last() matches FileAction::Store { path: p, value: v } && p@ == path
        && exists|c: Config| c@ == loaded_config(event) && call_ensures(func, (c,), v)
}

/// `func` changes settings as `edit` says, whatever it is given.
pub open spec fn edits_config_as<F: FnOnce(Config) -> Config>(func: F, edit: spec_fn(ConfigView) -> ConfigView) -> bool {
    forall|c: Config, out: Config| call_ensures(func, (c,), out) ==> out@ == edit(c@)
}

/// A tweak with a function that changes nothing stores the settings its load
/// gave; after a parsed load that store is its only write.
pub proof fn law_unchanged_tweak_config<F: FnOnce(Config) -> Config>(
    path: Seq<char>,
    event: LoadEvent<Config>,
    func: F,
    actions: Seq<FileAction<Config>>,
)
    requires
        edits_config_as(func, |v: ConfigView| v),
        tweak_config_actions(path, event, func, actions),
    ensures
        is_store(actions.last(), path, loaded_config(event)),
        event is Parsed ==> actions.len() == 1,
{
}

/// Two tweaks in turn, the second reading back the settings the first
/// stored, store what one tweak with the two changes one after the other
/// stores from the same start; the second writes nothing but that store.
pub proof fn law_tweak_config_compose<F, G, H>(
    path: Seq<char>,
    event: LoadEvent<Config>,
    f: F,
    first_edit: spec_fn(ConfigView) -> ConfigView,
    first: Seq<FileAction<Config>>,
    read_back: Config,
    g: G,
    second_edit: spec_fn(ConfigView) -> ConfigView,
    second: Seq<FileAction<Config>>,
    h: H,
    both: Seq<FileAction<Config>>,
)
    where
        F: FnOnce(Config) -> Config,
        G: FnOnce(Config) -> Config,
        H: FnOnce(Config) -> Config,
    requires
        edits_config_as(f, first_edit),
        edits_config_as(g, second_edit),
        edits_config_as(h, |v: ConfigView| second_edit(first_edit(v))),
        tweak_config_actions(path, event, f, first),
        is_store(first.last(), path, read_back@),
        tweak_config_actions(path, LoadEvent::Parsed(read_back), g, second),
        tweak_config_actions(path, event, h, both),
    ensures
        second.len() == 1,
        is_store(second.last(), path, second_edit(first_edit(loaded_config(event)))),
        is_store(both.last(), path, second_edit(first_edit(loaded_config(event)))),
{
}

impl Default for Config {
    fn default() -> (r: Self)
        ensures
            r@ == default_config(),
    {
        let r = Config { is_french: false, is_dark: false, recent_projects: Vec::new() };
        assert(r.recent_projects.deep_view() =~= Seq::<Seq<char>>::empty());
        r
    }
}

impl Config {
    /// Where the settings file lives: `beeswarmer.toml` in the user's local
    /// configuration directory, joined with the platform's path separator;
    /// the empty string when that directory is unknown.
    pub fn get_config_file_location(config_dir: Option<String>, separator: char) -> (r: String)
        ensures
            match config_dir {
                Some(d) => r@ == d@.push(separator) + "beeswarmer.toml"@,
                None => r@ == Seq::<char>::empty(),
            },
    {
        match config_dir {
            Some(d) => {
                let mut r = d;
                push_char(&mut r, separator);
                let name = "beeswarmer.toml".to_owned();
                concat_strings(&r, &name)
            },
            None => String::new(),
        }
    }

    /// The settings after a load from `path`, and the writes it asks for: a
    /// file that cannot be read or parsed is replaced by the defaults.
    pub fn load_config(path: String, event: LoadEvent<Config>) -> (r: (Config, Vec<FileAction<Config>>))
        ensures
            r.0@ == loaded_config(event),
            load_config_actions(path@, event, r.1@),
    {
        match event {
            LoadEvent::Parsed(c) => (c, Vec::new()),
            _ => {
                let new_config = Config::default();
                let stored = Config::default();
                let mut actions: Vec<FileAction<Config>> = Vec::new();
                actions.push(FileAction::Store { path, value: stored });
                (new_config, actions)
            },
        }
    }

    /// Loads the settings from `path`, changes them with `func` and stores
    /// the result there: the writes of the load come first, then one store
    /// of what `func` returned for the loaded settings.
    pub fn tweak_config<F: FnOnce(Config) -> Config>(path: String, event: LoadEvent<Config>, func: F) -> (r: Vec<FileAction<Config>>)
        requires
            forall|c: Config| c@ == loaded_config(event) ==> call_requires(func, (c,)),
        ensures
            tweak_config_actions(path@, event, func, r@),
    {
        let target = path.clone();
        let (config, mut actions) = Self::load_config(path, event);
        let changed = func(config);
        let ghost before = actions@;
        actions.push(FileAction::Store { path: target, value: changed });
        assert(actions@.drop_last() =~= before);
        actions
    }

    /// The settings with the language switched; nothing else changes.
    pub fn with_language(self, is_french: bool) -> (r: Config)
        ensures
            r@ == (ConfigView { is_french: is_french, ..self@ }),
    {
        let mut r = self;
        r.is_french = is_french;
        r
    }

    /// The code of the bundled translation these settings select.
    pub fn translation_code(&self) -> (r: &'static str)
        ensures
            r@ == (if self.is_french { "fr"@ } else { "en"@ }),
    {
        if self.is_french {
            "fr"
        } else {
            "en"
        }
    }
}

} // verus!
