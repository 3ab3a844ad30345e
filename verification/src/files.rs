//! Opening files and folders in the desktop shell.
use vstd::prelude::*;
use crate::paths::{path_parent, path_parent_spec};

verus! {

/// What "show in folder" opens for `path`: the folder that holds it when
/// it is a file (the path itself where it has no parent), else the path.
pub open spec fn reveal_target_spec(path: Seq<char>, is_file: bool) -> Seq<char> {
    if is_file {
        match path_parent_spec(path) {
            Some(p) => p,
            None => path,
        }
    } else {
        path
    }
}

/// The folder to open to show `path` (see `reveal_target_spec`); `is_file`
/// is whether a file is at `path` now.
pub fn reveal_target(path: &str, is_file: bool) -> (res: String)
    ensures
        res@ == reveal_target_spec(path@, is_file),
{
    if is_file {
        match path_parent(path) {
            Some(p) => p,
            None => String::from_str(path),
        }
    } else {
        String::from_str(path)
    }
}

} // verus!
