//! The state shared by the screens of the application.
use vstd::prelude::*;

verus! {

/// The open project's path and the chosen language.
#[derive(Clone, Debug)]
pub struct AppState {
    pub save_file_path: String,
    pub french_selected: bool,
}

impl Default for AppState {
    fn default() -> (r: Self)
        ensures
            r.save_file_path@ == Seq::<char>::empty(),
            !r.french_selected,
    {
        AppState { save_file_path: String::new(), french_selected: false }
    }
}

} // verus!
