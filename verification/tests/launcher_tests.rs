use loft::launcher::{choose_shortcuts, resolve_shortcut, scan_start_menu, shortcut_details, start_menu_roots};

fn files(list: &[&str]) -> Vec<String> {
    list.iter().map(|s| s.to_string()).collect()
}

type Details = (Option<String>, Option<String>, Option<String>);

fn fake_link(path: &str) -> Option<Details> {
    if path.contains("broken") {
        None
    } else {
        Some((Some(format!("{}.target", path)), Some("icon.ico".into()), None))
    }
}

#[test]
fn start_menu_folders() {
    let r = start_menu_roots(Some("/pd".into()), Some("/ad".into()));
    assert_eq!(
        r,
        vec![
            "/pd/Microsoft/Windows/Start Menu/Programs".to_string(),
            "/ad/Microsoft/Windows/Start Menu/Programs".to_string(),
        ]
    );
    let d = start_menu_roots(None, None);
    assert_eq!(d, vec!["C:/ProgramData/Microsoft/Windows/Start Menu/Programs".to_string()]);
}

#[test]
fn shortcuts_chosen_once_per_name() {
    let f = files(&[
        "/a/Foo.lnk",
        "/a/readme.txt",
        "/b/foo.LNK",
        "/b/Bar.url",
        "/c/.lnk",
        "/c/noext",
        "/c/Baz.Url",
    ]);
    let c = choose_shortcuts(&f);
    assert_eq!(
        c,
        vec![
            ("Foo".to_string(), "/a/Foo.lnk".to_string()),
            ("Bar".to_string(), "/b/Bar.url".to_string()),
            ("Baz".to_string(), "/c/Baz.Url".to_string()),
        ]
    );
}

#[test]
fn shortcuts_dedup_ignores_unicode_case() {
    let c = choose_shortcuts(&files(&["/x/Éclair.lnk", "/y/éclair.lnk"]));
    assert_eq!(c.len(), 1);
    assert_eq!(c[0].1, "/x/Éclair.lnk");
}

#[test]
fn scan_sorts_by_name_and_reads_links() {
    let f = files(&["/a/zeta.lnk", "/a/Alpha.url", "/b/beta.lnk", "/b/broken.lnk"]);
    let out = scan_start_menu(&f, &fake_link).unwrap();
    let names: Vec<&str> = out.iter().map(|e| e.name.as_str()).collect();
    assert_eq!(names, vec!["Alpha", "beta", "broken", "zeta"]);
    assert_eq!(out[0].target, None);
    assert_eq!(out[1].target.as_deref(), Some("/b/beta.lnk.target"));
    assert_eq!(out[1].icon_path.as_deref(), Some("icon.ico"));
    assert_eq!(out[1].working_dir, None);
    assert_eq!(out[2].target, None);
    assert_eq!(out[3].path, "/a/zeta.lnk");
}

#[test]
fn details_only_for_lnk_files() {
    assert_eq!(shortcut_details("/a/x.url", &fake_link), (None, None, None));
    assert_eq!(shortcut_details("/a/x.LNK", &fake_link).0.as_deref(), Some("/a/x.LNK.target"));
    assert_eq!(shortcut_details("/a/broken.lnk", &fake_link), (None, None, None));
}

#[test]
fn resolve_shortcut_names() {
    let e = resolve_shortcut("/x/App.lnk".to_string(), &fake_link).unwrap();
    assert_eq!(e.name, "App");
    assert_eq!(e.path, "/x/App.lnk");
    assert_eq!(e.target.as_deref(), Some("/x/App.lnk.target"));
    let u = resolve_shortcut("/".to_string(), &fake_link).unwrap();
    assert_eq!(u.name, "(未知)");
    assert_eq!(u.target, None);
}
