use loft::path_resolve::{
    check_paths, compute_rel_path, effective_path_candidates, pick_effective_path, resolve_effective_path, slashify_str,
    PathCheckItem, ResolveEffectivePathResult,
};

fn roots(list: &[&str]) -> Vec<String> {
    list.iter().map(|s| s.to_string()).collect()
}

#[test]
fn rel_path_under_longest_root() {
    let r = compute_rel_path(
        r"D:\Portable\Apps\Foo\Foo.exe",
        &roots(&[r"D:\Portable", r"D:\Portable\Apps"]),
    );
    assert_eq!(r.rel_path.as_deref(), Some(r"Foo\Foo.exe"));
    assert_eq!(r.root_hint.as_deref(), Some(r"D:\Portable\Apps"));
}

#[test]
fn rel_path_outside_roots_is_null() {
    let r = compute_rel_path(r"C:\Windows\notepad.exe", &roots(&[r"D:\Portable"]));
    assert!(r.rel_path.is_none());
    assert!(r.root_hint.is_none());
}

#[test]
fn rel_path_rejects_dotdot() {
    let r = compute_rel_path(r"D:\Portable\..\Secret\a.exe", &roots(&[r"D:\Portable"]));
    assert!(r.rel_path.is_none());
}

#[test]
fn rel_path_case_and_slash_insensitive() {
    let r = compute_rel_path(r"d:/portable/apps/foo.exe", &roots(&[r"D:\Portable\"]));
    assert_eq!(r.rel_path.as_deref(), Some(r"apps\foo.exe"));
    assert_eq!(r.root_hint.as_deref(), Some(r"D:\Portable"));
}

#[test]
fn rel_path_skips_url() {
    let r = compute_rel_path("https://example.com", &roots(&[r"D:\Portable"]));
    assert!(r.rel_path.is_none());
}

#[test]
fn resolve_prefers_existing_absolute() {
    let path = "/";
    let r = resolve_effective_path(path, Some(r"nope\nope.exe"), None, &roots(&[r"D:\Nope"]));
    match r {
        ResolveEffectivePathResult::Found { used_relative: false, .. } => {}
        _ => panic!("expected absolute ok"),
    }
}

#[test]
fn resolve_falls_back_to_relative() {
    let missing_abs = r"Z:\definitely\missing\sample.txt";
    let r = resolve_effective_path(missing_abs, Some("usr"), Some("/"), &roots(&["/"]));
    match r {
        ResolveEffectivePathResult::Found { path, used_relative: true } => {
            assert_eq!(path, "/usr");
        }
        _ => panic!("expected relative fallback"),
    }
}

#[test]
fn check_skips_url_and_flags_missing() {
    let items = vec![
        PathCheckItem {
            id: "u1".into(),
            kind: "url".into(),
            path: "https://example.com".into(),
            rel_path: None,
            root_hint: None,
        },
        PathCheckItem {
            id: "m1".into(),
            kind: "file".into(),
            path: r"Z:\no\such\file.exe".into(),
            rel_path: None,
            root_hint: None,
        },
    ];
    let out = check_paths(&items, &roots(&[]));
    assert_eq!(out[0].status, "skipped");
    assert_eq!(out[1].status, "missing");
}

#[test]
fn check_reports_ok_and_recoverable() {
    let items = vec![
        PathCheckItem {
            id: "a".into(),
            kind: "URL".into(),
            path: "/".into(),
            rel_path: None,
            root_hint: None,
        },
        PathCheckItem {
            id: "b".into(),
            kind: "folder".into(),
            path: "/".into(),
            rel_path: None,
            root_hint: None,
        },
        PathCheckItem {
            id: "c".into(),
            kind: "folder".into(),
            path: "/no/such/dir".into(),
            rel_path: Some("usr".into()),
            root_hint: None,
        },
    ];
    let out = check_paths(&items, &roots(&["/nothing-here", " / "]));
    assert_eq!(out[0].status, "skipped");
    assert_eq!(out[1].status, "ok");
    assert_eq!(out[1].resolved.as_deref(), Some("/"));
    assert_eq!(out[2].status, "recoverable");
    assert_eq!(out[2].resolved.as_deref(), Some("/usr"));
    assert_eq!(out[2].id, "c");
}

#[test]
fn rel_path_first_of_equal_roots_and_blank_roots() {
    let r = compute_rel_path(r"E:\Tools\x.exe", &roots(&["", r"\\", r"e:\tools", r"E:\TOOLS"]));
    assert_eq!(r.rel_path.as_deref(), Some("x.exe"));
    assert_eq!(r.root_hint.as_deref(), Some(r"e:\tools"));
}

#[test]
fn rel_path_needs_something_below_root() {
    let r = compute_rel_path(r"D:\Portable\", &roots(&[r"D:\Portable"]));
    assert!(r.rel_path.is_none());
    let r = compute_rel_path(r"D:\PortableX\a", &roots(&[r"D:\Portable"]));
    assert!(r.rel_path.is_none());
    let r = compute_rel_path("   ", &roots(&[r"D:\Portable"]));
    assert!(r.rel_path.is_none());
    let r = compute_rel_path("FILE://D:/Portable/a", &roots(&["file:"]));
    assert!(r.rel_path.is_none());
    let r = compute_rel_path(r"D:\Portable\a..b\..x", &roots(&[r"D:\Portable"]));
    assert_eq!(r.rel_path.as_deref(), Some(r"a..b\..x"));
}

#[test]
fn candidates_dedup_and_reject_dotdot() {
    let c = effective_path_candidates(Some(" a/b "), Some(" /r "), &roots(&["/r", "", "/s"])).unwrap();
    assert_eq!(c, vec!["/r/a/b".to_string(), "/s/a/b".to_string()]);
    assert!(effective_path_candidates(Some("../x"), None, &roots(&["/r"])).is_none());
    assert!(effective_path_candidates(Some("  "), None, &roots(&["/r"])).is_none());
    assert!(effective_path_candidates(None, Some("/r"), &roots(&["/r"])).is_none());
    assert_eq!(slashify_str("a/b\\c"), "a\\b\\c");
}

#[test]
fn pick_prefers_absolute_then_first_existing_candidate() {
    let cands = Some(vec!["/h/a".to_string(), "/r/a".to_string(), "/s/a".to_string()]);
    match pick_effective_path("  /abs/a  ", true, &cands, &vec![true, true, true]) {
        ResolveEffectivePathResult::Found { path, used_relative: false } => assert_eq!(path, "/abs/a"),
        _ => panic!("expected absolute"),
    }
    match pick_effective_path("/abs/a", false, &cands, &vec![false, true, true]) {
        ResolveEffectivePathResult::Found { path, used_relative: true } => assert_eq!(path, "/r/a"),
        _ => panic!("expected second candidate"),
    }
    // a blank absolute path never counts, even if reported as existing
    match pick_effective_path("   ", true, &cands, &vec![false, false, true]) {
        ResolveEffectivePathResult::Found { path, used_relative: true } => assert_eq!(path, "/s/a"),
        _ => panic!("expected third candidate"),
    }
    assert!(matches!(
        pick_effective_path("/abs/a", false, &cands, &vec![false, false, false]),
        ResolveEffectivePathResult::Missing
    ));
    assert!(matches!(pick_effective_path("/abs/a", false, &None, &vec![true]), ResolveEffectivePathResult::Missing));
}

#[test]
fn rel_path_cut_after_lowercased_root() {
    let kelvin = format!("C:\\{}", '\u{212A}');
    let r = compute_rel_path(r"c:\k\a.exe", &roots(&[kelvin.as_str()]));
    assert_eq!(r.rel_path.as_deref(), Some("a.exe"));
    assert_eq!(r.root_hint.as_deref(), Some(kelvin.as_str()));
}
