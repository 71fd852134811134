//! Choosing the project file.
use vstd::prelude::*;
use crate::text::{chars_of, concat_strings};

verus! {

/// The extension of project files.
pub open spec fn project_extension() -> Seq<char> {
    ".bswproj"@
}

/// `path` ends with `suffix`.
pub open spec fn ends_with(path: Seq<char>, suffix: Seq<char>) -> bool {
    path.len() >= suffix.len() && path.skip(path.len() - suffix.len()) == suffix
}

/// `path` with the project extension appended when it does not already end with it.
pub open spec fn with_extension(path: Seq<char>) -> Seq<char> {
    if ends_with(path, project_extension()) {
        path
    } else {
        path + project_extension()
    }
}

/// The path a new project is saved at: the chosen path, with the project
/// extension appended when it does not already end with it.
pub fn with_project_extension(path: String) -> (r: String)
    ensures
        r@ == with_extension(path@),
{
    let ext = ".bswproj".to_owned();
    let ps = chars_of(path.as_str());
    let es = chars_of(ext.as_str());
    proof {
        reveal_strlit(".bswproj");
    }
    if ps.len() >= es.len() {
        let start = ps.len() - es.len();
        let mut i: usize = 0;
        while i < es.len()
            invariant
                i <= es.len(),
                start + es.len() == ps.len(),
                ps@ == path@,
                es@ == project_extension(),
                ext@ == project_extension(),
                forall|k: int| 0 <= k < i ==> ps@[start + k] == es@[k],
            decreases es.len() - i,
        {
            if ps[start + i] != es[i] {
                assert(path@.skip(start as int)[i as int] != project_extension()[i as int]);
                return concat_strings(&path, &ext);
            }
            i = i + 1;
        }
        assert(path@.skip(start as int) =~= project_extension());
        path
    } else {
        concat_strings(&path, &ext)
    }
}

/// A saved project's path always ends with the extension, and adding the
/// extension a second time changes nothing.
pub proof fn law_project_extension_idempotent(path: Seq<char>)
    ensures
        ends_with(with_extension(path), project_extension()),
        with_extension(with_extension(path)) == with_extension(path),
{
    let r = path + project_extension();
    assert(r.skip(r.len() - project_extension().len()) =~= project_extension());
}

/// The answer to pressing "next" on the setup screen, given whether the
/// project file exists (`Err` holding why that could not be told): "yay"
/// when it does.
pub fn setup_next_message(exists: Result<bool, String>) -> (r: String)
    ensures
        exists matches Ok(true) ==> r@ == "yay"@,
        exists matches Ok(false) ==> r@ == "Save file not found at provided path"@,
        exists matches Err(e) ==> r@ == "Could not verify file path, "@ + e@,
{
    match exists {
        Ok(true) => "yay".to_owned(),
        Ok(false) => "Save file not found at provided path".to_owned(),
        Err(e) => {
            let prefix = "Could not verify file path, ".to_owned();
            concat_strings(&prefix, &e)
        },
    }
}

} // verus!
