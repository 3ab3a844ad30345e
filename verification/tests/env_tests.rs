use loft::env::{
    delete_scope, env_name_eq, get_env_value, join_path_value, list_env_vars, list_process_scope,
    looks_expand, parse_scope, read_process_value, read_registry_value, scope_rank, sort_env_rows,
    split_path_value, validate_env_name, validate_value, write_scope, EnvScope, EnvVarRow,
};
use loft::env::{delete_env_var, upsert_env_var};

#[test]
fn rejects_bad_names() {
    assert!(validate_env_name("").is_err());
    assert!(validate_env_name("FOO=BAR").is_err());
    assert!(validate_env_name("OK").is_ok());
}

#[test]
fn path_roundtrip() {
    let v = "C:\\Windows;C:\\Tools;; ;D:\\bin";
    let parts = split_path_value(v);
    assert_eq!(parts, vec!["C:\\Windows", "C:\\Tools", "D:\\bin"]);
    assert_eq!(join_path_value(&parts), "C:\\Windows;C:\\Tools;D:\\bin");
}

#[test]
fn expand_detection() {
    assert!(looks_expand("%SystemRoot%\\system32"));
    assert!(!looks_expand("C:\\Windows"));
    assert!(!looks_expand("100%"));
}

#[test]
fn name_error_messages() {
    assert_eq!(validate_env_name("   ").unwrap_err(), "变量名不能为空");
    assert_eq!(validate_env_name(&"A".repeat(256)).unwrap_err(), "变量名不能超过 255 个字符");
    assert!(validate_env_name(&"A".repeat(255)).is_ok());
    assert_eq!(validate_env_name("A\nB").unwrap_err(), "变量名不能包含 = 或换行");
    assert_eq!(validate_env_name("A\0").unwrap_err(), "变量名不能包含 = 或换行");
    assert!(validate_env_name("  PATH  ").is_ok());
}

#[test]
fn value_error_messages() {
    assert!(validate_value("").is_ok());
    assert!(validate_value(&"x".repeat(32767)).is_ok());
    assert_eq!(validate_value(&"x".repeat(32768)).unwrap_err(), "变量值不能超过 32767 个字符");
    assert_eq!(validate_value("a\0b").unwrap_err(), "变量值不能包含空字符");
}

#[test]
fn split_edge_cases() {
    assert!(split_path_value("").is_empty());
    assert!(split_path_value(" ; ;;").is_empty());
    assert_eq!(split_path_value("  a  "), vec!["a"]);
    assert_eq!(join_path_value(&[]), "");
    assert_eq!(
        join_path_value(&[" x ".to_string(), "".to_string(), "y".to_string()]),
        "x;y"
    );
}

#[test]
fn split_join_split_is_split() {
    let v = " a ;b;;\u{3000}c\t; d";
    let once = split_path_value(v);
    let again = split_path_value(&join_path_value(&once));
    assert_eq!(once, again);
    assert_eq!(once, vec!["a", "b", "c", "d"]);
}

#[test]
fn scope_ranks_and_names() {
    assert_eq!(scope_rank("user"), 0);
    assert_eq!(scope_rank("machine"), 1);
    assert_eq!(scope_rank("process"), 2);
    assert_eq!(scope_rank("other"), 9);
    assert_eq!(parse_scope("machine"), Some(EnvScope::Machine));
    assert_eq!(parse_scope("Machine"), None);
    assert!(env_name_eq("Path", "PATH"));
    assert!(!env_name_eq("Path", "PATHS"));
}

#[test]
fn write_scope_checks_then_returns_change() {
    let c = write_scope("user", "  FOO ", "bar").unwrap();
    assert_eq!((c.scope, c.name.as_str(), c.value.as_deref()), (EnvScope::User, "FOO", Some("bar")));
    assert_eq!(write_scope("nowhere", "FOO", "bar").unwrap_err(), "未知范围: nowhere");
    assert_eq!(write_scope("user", "", "bar").unwrap_err(), "变量名不能为空");
    assert_eq!(write_scope("user", "A=B", "bar").unwrap_err(), "变量名不能包含 = 或换行");
    assert_eq!(write_scope("user", "A", "x\0").unwrap_err(), "变量值不能包含空字符");
    assert_eq!(write_scope("nowhere", "", "x\0").unwrap_err(), "变量名不能为空");
    let long = "x".repeat(32768);
    assert_eq!(write_scope("user", "A", &long).unwrap_err(), "变量值不能超过 32767 个字符");
    let c = upsert_env_var(" P ".to_string(), "process".to_string(), "v".to_string()).unwrap();
    assert_eq!((c.scope, c.name.as_str(), c.value.as_deref()), (EnvScope::Process, "P", Some("v")));
}

#[test]
fn delete_scope_returns_removal() {
    let c = delete_scope("machine", " X").unwrap();
    assert_eq!((c.scope, c.name.as_str(), c.value), (EnvScope::Machine, "X", None));
    assert_eq!(delete_scope("machine", "").unwrap_err(), "变量名不能为空");
    assert_eq!(delete_env_var("X".to_string(), "elsewhere".to_string()).unwrap_err(), "未知范围: elsewhere");
}

#[test]
fn get_value_checks_name_and_scope() {
    let r = get_env_value("".to_string(), "user".to_string(), |_, _| Ok("v".to_string()));
    assert_eq!(r.unwrap_err(), "变量名不能为空");
    let r = get_env_value("A".to_string(), "x".to_string(), |_, _| Ok("v".to_string()));
    assert_eq!(r.unwrap_err(), "未知范围: x");
    let r = get_env_value(" A".to_string(), "process".to_string(), |sc, n| {
        assert_eq!(sc, EnvScope::Process);
        Ok(n)
    });
    assert_eq!(r.unwrap(), " A");
}

#[test]
fn lookup_ignores_ascii_case() {
    let vars = vec![
        ("Path".to_string(), "p1".to_string()),
        ("PATH".to_string(), "p2".to_string()),
    ];
    assert_eq!(read_process_value(&vars, "PATH").unwrap(), "p1");
    assert_eq!(read_process_value(&vars, "home").unwrap_err(), "变量不存在: home");
    let entries = vec![("TEMP".to_string(), "t".to_string(), "sz".to_string())];
    assert_eq!(read_registry_value(&entries, "temp").unwrap(), "t");
}

fn row(name: &str, scope: &str) -> EnvVarRow {
    EnvVarRow { name: name.to_string(), scope: scope.to_string(), kind: "sz".to_string() }
}

#[test]
fn rows_sort_by_name_then_scope() {
    let rows = vec![
        row("b", "process"),
        row("A", "process"),
        row("a", "user"),
        row("B", "machine"),
        row("a", "process"),
    ];
    let sorted = sort_env_rows(&rows);
    let got: Vec<(String, String)> =
        sorted.iter().map(|r| (r.name.clone(), r.scope.clone())).collect();
    assert_eq!(
        got,
        vec![
            ("a".to_string(), "user".to_string()),
            ("A".to_string(), "process".to_string()),
            ("a".to_string(), "process".to_string()),
            ("B".to_string(), "machine".to_string()),
            ("b".to_string(), "process".to_string()),
        ]
    );
}

#[test]
fn list_rejects_unknown_scope_and_sorts() {
    let r = list_env_vars(&vec!["user".to_string(), "bogus".to_string()], |_| Ok(vec![]));
    assert_eq!(r.unwrap_err(), "未知范围: bogus");
    let r = list_env_vars(&vec!["process".to_string(), "user".to_string()], |sc| match sc {
        EnvScope::Process => Ok(vec![row("Z", "process")]),
        _ => Ok(vec![row("y", "user")]),
    })
    .unwrap();
    assert_eq!(r[0].name, "y");
    assert_eq!(r[1].name, "Z");
}

#[test]
fn list_labels_rows_with_their_scope() {
    let r = list_env_vars(&vec!["machine".to_string()], |_| Ok(vec![row("Q", "bogus")])).unwrap();
    assert_eq!(r[0].scope, "machine");
    assert_eq!(r[0].kind, "sz");
}

#[test]
fn process_rows_skip_hidden() {
    let rows = list_process_scope(&vec!["=C:".to_string(), "".to_string(), "HOME".to_string()]);
    assert_eq!(rows.len(), 1);
    assert_eq!(rows[0].name, "HOME");
    assert_eq!(rows[0].scope, "process");
    assert_eq!(rows[0].kind, "process");
}
