//! Start-up diagnostics: where the boot log goes, and which panics are
//! known noise.
use vstd::prelude::*;
use crate::paths::{path_join, path_join_spec};
use crate::text::{contains_str, seq_contains};

verus! {

/// The boot log: `com.loft.app/boot.log` under the `APPDATA` folder.
pub open spec fn log_file_path_spec(appdata: Option<Seq<char>>) -> Option<Seq<char>> {
    match appdata {
        Some(a) => Some(path_join_spec(path_join_spec(a, "com.loft.app"@), "boot.log"@)),
        None => None,
    }
}

/// The boot log's path (see `log_file_path_spec`), from the value of
/// `APPDATA` if it is set.
pub fn log_file_path(appdata: Option<String>) -> (res: Option<String>)
    ensures
        match res {
            Some(p) => log_file_path_spec(match appdata {
                Some(a) => Some(a@),
                None => None,
            }) == Some(p@),
            None => appdata is None,
        },
{
    match appdata {
        Some(a) => {
            let dir = path_join(a.as_str(), "com.loft.app");
            Some(path_join(dir.as_str(), "boot.log"))
        },
        None => None,
    }
}

/// Panics raised inside the `lnk` 0.5 crate are caught where they happen
/// and are not logged: a panic is one of them when the source file it
/// names contains `lnk-0.5`.
pub fn is_known_lnk_panic(file: &str) -> (res: bool)
    ensures
        res == seq_contains(file@, "lnk-0.5"@),
{
    contains_str(file, "lnk-0.5")
}

} // verus!
