//! Start-menu shortcuts: where the Start menu lives, which of its files are
//! shortcuts, one entry per name, sorted by name.
use vstd::prelude::*;
use crate::path_list::views;
use crate::paths::{path_extension, path_extension_spec, path_file_stem, path_file_stem_spec, path_join, path_join_spec};
use crate::ports::{eq_ascii_ci, eq_ignore_ascii_case};
use crate::sorting::{is_stable_order, key_lt, keys_view, lemma_stable_order_sorted, stable_order};
use crate::text::{chars_eq, chars_of, str_lowercase, to_lowercase};

verus! {

/// A shortcut of the Start menu: its name (the file name without
/// extension), its file, and what the shortcut points at.
#[derive(Debug, Clone)]
pub struct ShortcutEntry {
    pub name: String,
    pub path: String,
    pub target: Option<String>,
    pub icon_path: Option<String>,
    pub working_dir: Option<String>,
}

pub open spec fn opt_view(o: Option<String>) -> Option<Seq<char>> {
    match o {
        Some(s) => Some(s@),
        None => None,
    }
}

/// The folder of the Start menu's programs below a profile folder.
pub open spec fn programs_suffix() -> Seq<char> {
    "Microsoft/Windows/Start Menu/Programs"@
}

/// The Start-menu folders to scan: the machine-wide one under
/// `ProgramData` (or its usual place when that variable is not set), then
/// the user's under `APPDATA` when that is set.
pub open spec fn start_menu_roots_spec(program_data: Option<Seq<char>>, appdata: Option<Seq<char>>) -> Seq<Seq<char>> {
    let first = match program_data {
        Some(p) => path_join_spec(p, programs_suffix()),
        None => "C:/ProgramData/Microsoft/Windows/Start Menu/Programs"@,
    };
    match appdata {
        Some(a) => seq![first, path_join_spec(a, programs_suffix())],
        None => seq![first],
    }
}

/// The Start-menu folders (see `start_menu_roots_spec`), from the values of
/// the `ProgramData` and `APPDATA` variables.
pub fn start_menu_roots(program_data: Option<String>, appdata: Option<String>) -> (res: Vec<String>)
    ensures
        views(res@) == start_menu_roots_spec(opt_view(program_data), opt_view(appdata)),
{
    let mut out: Vec<String> = Vec::new();
    match program_data {
        Some(p) => out.push(path_join(p.as_str(), "Microsoft/Windows/Start Menu/Programs")),
        None => out.push(String::from_str("C:/ProgramData/Microsoft/Windows/Start Menu/Programs")),
    }
    match appdata {
        Some(a) => out.push(path_join(a.as_str(), "Microsoft/Windows/Start Menu/Programs")),
        None => {},
    }
    assert(views(out@) =~= start_menu_roots_spec(opt_view(program_data), opt_view(appdata)));
    out
}

/// The name under which the file at `path` is listed, if it is a shortcut:
/// its extension is `lnk` or `url` (ASCII case ignored) and its stem is not
/// empty.
pub open spec fn shortcut_name(path: Seq<char>) -> Option<Seq<char>> {
    let ext = path_extension_spec(path);
    let stem = path_file_stem_spec(path);
    if ext is Some && (eq_ascii_ci(ext.unwrap(), "lnk"@) || eq_ascii_ci(ext.unwrap(), "url"@)) && stem is Some
        && stem.unwrap().len() > 0 {
        stem
    } else {
        None
    }
}

/// Whether a name like `name` (Unicode case ignored) was taken already.
pub open spec fn name_taken(chosen: Seq<(Seq<char>, Seq<char>)>, name: Seq<char>) -> bool {
    exists|i: int| 0 <= i < chosen.len() && str_lowercase(#[trigger] chosen[i].0) == str_lowercase(name)
}

/// The shortcuts among `files` as (name, path), in their order, keeping the
/// first of each name (Unicode case ignored).
pub open spec fn chosen_shortcuts(files: Seq<Seq<char>>) -> Seq<(Seq<char>, Seq<char>)>
    decreases files.len(),
{
    if files.len() == 0 {
        Seq::empty()
    } else {
        let prev = chosen_shortcuts(files.drop_last());
        match shortcut_name(files.last()) {
            Some(n) => if name_taken(prev, n) {
                prev
            } else {
                prev.push((n, files.last()))
            },
            None => prev,
        }
    }
}

/// Whether the file at `path` is a `.lnk` shell link (ASCII case ignored).
pub open spec fn is_lnk_path(path: Seq<char>) -> bool {
    let ext = path_extension_spec(path);
    ext is Some && eq_ascii_ci(ext.unwrap(), "lnk"@)
}

pub open spec fn details_view(d: (Option<String>, Option<String>, Option<String>)) -> (
    Option<Seq<char>>,
    Option<Seq<char>>,
    Option<Seq<char>>,
) {
    (opt_view(d.0), opt_view(d.1), opt_view(d.2))
}

/// What a shortcut points at (target, icon, working folder) can come from
/// `read_link` at `path`: nothing for a file that is not a `.lnk`, and for
/// one that is, what `read_link` returned, or nothing where it read nothing.
pub open spec fn details_from<F: Fn(&str) -> Option<(Option<String>, Option<String>, Option<String>)>>(
    read_link: F,
    path: Seq<char>,
    d: (Option<Seq<char>>, Option<Seq<char>>, Option<Seq<char>>),
) -> bool {
    if !is_lnk_path(path) {
        d == (None::<Seq<char>>, None::<Seq<char>>, None::<Seq<char>>)
    } else {
        exists|u: &str, r: Option<(Option<String>, Option<String>, Option<String>)>|
            u@ == path && #[trigger] read_link.ensures((u,), r) && d == match r {
                Some(t) => details_view(t),
                None => (None::<Seq<char>>, None::<Seq<char>>, None::<Seq<char>>),
            }
    }
}

/// Reads what the shortcut at `path` points at through `read_link` (which
/// parses a shell link, or returns `None` where it cannot), for `.lnk` files
/// only (see `details_from`).
pub fn shortcut_details(
    path: &str,
    read_link: &impl Fn(&str) -> Option<(Option<String>, Option<String>, Option<String>)>,
) -> (res: (Option<String>, Option<String>, Option<String>))
    requires
        forall|u: &str| read_link.requires((u,)),
    ensures
        details_from(*read_link, path@, details_view(res)),
{
    let is_lnk = match path_extension(path) {
        Some(e) => eq_ignore_ascii_case(e.as_str(), "lnk"),
        None => false,
    };
    if !is_lnk {
        return (None, None, None);
    }
    match read_link(path) {
        Some(t) => t,
        None => (None, None, None),
    }
}

fn shortcut_name_of(path: &str) -> (res: Option<String>)
    ensures
        opt_view(res) == shortcut_name(path@),
{
    let is_link = match path_extension(path) {
        Some(e) => eq_ignore_ascii_case(e.as_str(), "lnk") || eq_ignore_ascii_case(e.as_str(), "url"),
        None => false,
    };
    if !is_link {
        return None;
    }
    match path_file_stem(path) {
        Some(s) => if s.as_str().unicode_len() > 0 {
            Some(s)
        } else {
            None
        },
        None => None,
    }
}

/// The shortcuts among the files found (see `chosen_shortcuts`).
pub fn choose_shortcuts(files: &Vec<String>) -> (res: Vec<(String, String)>)
    ensures
        res@.map_values(|p: (String, String)| (p.0@, p.1@)) == chosen_shortcuts(views(files@)),
{
    let ghost fv = views(files@);
    let mut out: Vec<(String, String)> = Vec::new();
    let mut seen: Vec<Vec<char>> = Vec::new();
    let mut i: usize = 0;
    while i < files.len()
        invariant
            i <= files.len(),
            fv == views(files@),
            out@.map_values(|p: (String, String)| (p.0@, p.1@)) == chosen_shortcuts(fv.take(i as int)),
            seen.len() == out.len(),
            forall|j: int| 0 <= j < seen.len() ==> #[trigger] seen@[j]@ == str_lowercase(out@[j].0@),
        decreases files.len() - i,
    {
        let ghost prev = out@.map_values(|p: (String, String)| (p.0@, p.1@));
        assert(fv.take(i + 1).drop_last() =~= fv.take(i as int));
        assert(fv.take(i + 1).last() == files@[i as int]@);
        match shortcut_name_of(files[i].as_str()) {
            Some(name) => {
                let key = chars_of(to_lowercase(name.as_str()).as_str());
                let mut k: usize = 0;
                let mut taken = false;
                while k < seen.len()
                    invariant
                        k <= seen.len(),
                        seen.len() == out.len(),
                        prev == out@.map_values(|p: (String, String)| (p.0@, p.1@)),
                        forall|j: int| 0 <= j < seen.len() ==> #[trigger] seen@[j]@ == str_lowercase(out@[j].0@),
                        key@ == str_lowercase(name@),
                        taken == exists|j: int| 0 <= j < k && str_lowercase(#[trigger] prev[j].0) == str_lowercase(name@),
                    decreases seen.len() - k,
                {
                    assert(prev[k as int].0 == out@[k as int].0@);
                    if chars_eq(seen[k].as_slice(), key.as_slice()) {
                        taken = true;
                    }
                    k += 1;
                }
                assert(taken == name_taken(prev, name@));
                if !taken {
                    out.push((name, files[i].clone()));
                    seen.push(key);
                    assert(out@.map_values(|p: (String, String)| (p.0@, p.1@)) =~= prev.push(
                        (name@, files@[i as int]@),
                    ));
                }
            },
            None => {},
        }
        i += 1;
    }
    assert(fv.take(files.len() as int) =~= fv);
    out
}

/// Shortcuts are listed by name, Unicode case ignored.
pub open spec fn shortcut_keys(chosen: Seq<(Seq<char>, Seq<char>)>) -> Seq<(Seq<char>, u64)> {
    chosen.map_values(|p: (Seq<char>, Seq<char>)| (str_lowercase(p.0), 0u64))
}

/// `out` lists the shortcuts `chosen` in the order `p`, each with what
/// `read_link` read of it.
pub open spec fn listed_in_order<F: Fn(&str) -> Option<(Option<String>, Option<String>, Option<String>)>>(
    chosen: Seq<(Seq<char>, Seq<char>)>,
    p: Seq<usize>,
    out: Seq<ShortcutEntry>,
    read_link: F,
) -> bool {
    &&& out.len() == chosen.len()
    &&& forall|i: int|
        0 <= i < out.len() ==> out[i].name@ == chosen[#[trigger] p[i] as int].0 && out[i].path@ == chosen[p[i] as int].1
            && details_from(
            read_link,
            out[i].path@,
            (opt_view(out[i].target), opt_view(out[i].icon_path), opt_view(out[i].working_dir)),
        )
}

/// The scan's result from the files under the Start-menu folders, in the
/// order they were found: the chosen shortcuts (`chosen_shortcuts`) stably
/// sorted by name, Unicode case ignored, each with what `read_link` read of
/// it (`details_from`).
pub fn scan_start_menu(
    files: &Vec<String>,
    read_link: &impl Fn(&str) -> Option<(Option<String>, Option<String>, Option<String>)>,
) -> (res: Result<Vec<ShortcutEntry>, String>)
    requires
        forall|u: &str| read_link.requires((u,)),
    ensures
        res matches Ok(out) && exists|p: Seq<usize>|
            #[trigger] is_stable_order(shortcut_keys(chosen_shortcuts(views(files@))), p) && listed_in_order(
                chosen_shortcuts(views(files@)),
                p,
                out@,
                *read_link,
            ),
{
    let chosen = choose_shortcuts(files);
    let ghost cv = chosen@.map_values(|p: (String, String)| (p.0@, p.1@));
    let mut keys: Vec<(Vec<char>, u64)> = Vec::new();
    let mut k: usize = 0;
    while k < chosen.len()
        invariant
            k <= chosen.len(),
            cv == chosen@.map_values(|p: (String, String)| (p.0@, p.1@)),
            keys_view(keys@) == shortcut_keys(cv).take(k as int),
        decreases chosen.len() - k,
    {
        let ghost before = keys@;
        let key = chars_of(to_lowercase(chosen[k].0.as_str()).as_str());
        keys.push((key, 0u64));
        assert(keys_view(keys@) =~= keys_view(before).push((str_lowercase(cv[k as int].0), 0u64)));
        assert(keys_view(keys@) =~= shortcut_keys(cv).take(k + 1));
        k += 1;
    }
    assert(shortcut_keys(cv).take(chosen.len() as int) =~= shortcut_keys(cv));
    let p = stable_order(&keys);
    let mut out: Vec<ShortcutEntry> = Vec::new();
    let mut j: usize = 0;
    while j < p.len()
        invariant
            j <= p.len(),
            p.len() == chosen.len(),
            cv == chosen@.map_values(|p: (String, String)| (p.0@, p.1@)),
            is_stable_order(shortcut_keys(cv), p@),
            forall|u: &str| read_link.requires((u,)),
            out.len() == j,
            forall|i: int|
                0 <= i < j ==> out@[i].name@ == cv[#[trigger] p@[i] as int].0 && out@[i].path@ == cv[p@[i] as int].1
                    && details_from(
                    *read_link,
                    out@[i].path@,
                    (opt_view(out@[i].target), opt_view(out@[i].icon_path), opt_view(out@[i].working_dir)),
                ),
        decreases p.len() - j,
    {
        let at = p[j];
        assert(at < chosen.len());
        let name = chosen[at].0.clone();
        let path = chosen[at].1.clone();
        let d = shortcut_details(path.as_str(), read_link);
        out.push(ShortcutEntry { name, path, target: d.0, icon_path: d.1, working_dir: d.2 });
        j += 1;
    }
    Ok(out)
}

/// The name shown for a shortcut file: its stem, or `(未知)` without one.
pub open spec fn shortcut_display_name(path: Seq<char>) -> Seq<char> {
    match path_file_stem_spec(path) {
        Some(s) => s,
        None => "(未知)"@,
    }
}

/// The entry for the shortcut file at `path`, read through `read_link`.
pub fn resolve_shortcut(
    path: String,
    read_link: &impl Fn(&str) -> Option<(Option<String>, Option<String>, Option<String>)>,
) -> (res: Result<ShortcutEntry, String>)
    requires
        forall|u: &str| read_link.requires((u,)),
    ensures
        res matches Ok(e) && e.name@ == shortcut_display_name(path@) && e.path@ == path@ && details_from(
            *read_link,
            path@,
            (opt_view(e.target), opt_view(e.icon_path), opt_view(e.working_dir)),
        ),
{
    let name = match path_file_stem(path.as_str()) {
        Some(s) => s,
        None => String::from_str("(未知)"),
    };
    let d = shortcut_details(path.as_str(), read_link);
    Ok(ShortcutEntry { name, path, target: d.0, icon_path: d.1, working_dir: d.2 })
}

/// No two chosen shortcuts share a name, Unicode case ignored, and each is a
/// shortcut file found, listed under its own name.
pub proof fn lemma_chosen_shortcuts(files: Seq<Seq<char>>)
    ensures
        forall|i: int, j: int|
            0 <= i < j < chosen_shortcuts(files).len() ==> str_lowercase(#[trigger] chosen_shortcuts(files)[i].0)
                != str_lowercase(#[trigger] chosen_shortcuts(files)[j].0),
        forall|i: int|
            0 <= i < chosen_shortcuts(files).len() ==> files.contains(#[trigger] chosen_shortcuts(files)[i].1)
                && shortcut_name(chosen_shortcuts(files)[i].1) == Some(chosen_shortcuts(files)[i].0),
    decreases files.len(),
{
    if files.len() > 0 {
        let prev = chosen_shortcuts(files.drop_last());
        lemma_chosen_shortcuts(files.drop_last());
        assert forall|i: int| 0 <= i < prev.len() implies files.contains(#[trigger] prev[i].1) by {
            let k = choose|k: int| 0 <= k < files.drop_last().len() && files.drop_last()[k] == prev[i].1;
            assert(files[k] == prev[i].1);
        }
        assert(files[files.len() - 1] == files.last());
        match shortcut_name(files.last()) {
            Some(n) => {
                if !name_taken(prev, n) {
                    let cur = prev.push((n, files.last()));
                    assert forall|i: int, j: int|
                        0 <= i < j < cur.len() implies str_lowercase(#[trigger] cur[i].0) != str_lowercase(#[trigger] cur[j].0) by {
                        if j == prev.len() {
                            assert(cur[i] == prev[i]);
                        }
                    }
                }
            },
            None => {},
        }
    }
}

/// The scan lists shortcuts by name, Unicode case ignored.
pub proof fn lemma_scan_sorted<F: Fn(&str) -> Option<(Option<String>, Option<String>, Option<String>)>>(
    chosen: Seq<(Seq<char>, Seq<char>)>,
    p: Seq<usize>,
    out: Seq<ShortcutEntry>,
    read_link: F,
)
    requires
        is_stable_order(shortcut_keys(chosen), p),
        listed_in_order(chosen, p, out, read_link),
    ensures
        forall|i: int, j: int|
            0 <= i < j < out.len() ==> !key_lt(
                (str_lowercase((#[trigger] out[j]).name@), 0u64),
                (str_lowercase((#[trigger] out[i]).name@), 0u64),
            ),
{
    lemma_stable_order_sorted(shortcut_keys(chosen), p);
    assert forall|i: int, j: int| 0 <= i < j < out.len() implies !key_lt(
        (str_lowercase((#[trigger] out[j]).name@), 0u64),
        (str_lowercase((#[trigger] out[i]).name@), 0u64),
    ) by {
        assert(out[i].name@ == chosen[p[i] as int].0);
        assert(out[j].name@ == chosen[p[j] as int].0);
        assert(shortcut_keys(chosen)[p[i] as int] == (str_lowercase(chosen[p[i] as int].0), 0u64));
        assert(shortcut_keys(chosen)[p[j] as int] == (str_lowercase(chosen[p[j] as int].0), 0u64));
    }
}

} // verus!
