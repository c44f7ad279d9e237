use vstd::prelude::*;

use crate::error::{FsError, PathFault};

verus! {

/// The final component of a path written as text, as the standard library's
/// path handling finds it (`None` for a root, an empty path, or a path that
/// ends in `..`).
pub uninterp spec fn final_component_of(path: Seq<char>) -> Option<Seq<char>>;

/// Relies on `std::path::Path::file_name`: the final component of the path.
/// A component of a path given as text is text as well, so the conversion
/// back to `str` keeps it.
#[verifier::external_body]
fn file_name(path: &str) -> (r: Option<String>)
    ensures
        match r {
            Some(s) => final_component_of(path@) == Some(s@),
            None => final_component_of(path@).is_none(),
        },
{
    std::path::Path::new(path).file_name().and_then(|c| c.to_str()).map(|c| c.to_string())
}

/// The display name of `path`, given its final component `component`:
/// the component itself, or `InvalidPath` carrying the path when there is none.
pub fn resolve_name(path: &str, component: Option<String>) -> (r: Result<String, FsError>)
    ensures
        match component {
            Some(c) => r == Ok::<String, FsError>(c),
            None => r matches Err(FsError::InvalidPath(p, PathFault::NoFinalComponent)) && p@ == path@,
        },
{
    match component {
        Some(c) => Ok(c),
        None => Err(FsError::InvalidPath(path.to_owned(), PathFault::NoFinalComponent)),
    }
}

/// The display name of `path`: its final component.
/// Fails with `InvalidPath`, carrying the path, when there is no final component.
pub fn name(path: &str) -> (r: Result<String, FsError>)
    ensures
        match final_component_of(path@) {
            Some(c) => r matches Ok(s) && s@ == c,
            None => r matches Err(FsError::InvalidPath(p, PathFault::NoFinalComponent)) && p@ == path@,
        },
{
    let component = file_name(path);
    resolve_name(path, component)
}

} // verus!
