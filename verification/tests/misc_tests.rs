use loft::settings::load_env_notes;
use loft::registry::{registry_target, typed_registry_entry, RegRoot, REG_EXPAND_SZ, REG_SZ};
use loft::elevate::{elevate_result, run_elevate_helper, ElevatePayload};
use loft::env::EnvScope;
use loft::elevate::launch_failure_message;
use loft::icons::{icon_script, ps_quote_str};
use loft::icons::{extract_icon, icon_from_output, icon_result};
use loft::diag::{is_known_lnk_panic, log_file_path};
use loft::elevate::{
    elevate_outcome, elevate_payload_arg, is_allowed_payload_name, is_allowed_payload_path, is_uac_cancelled,
    payload_file_name, result_path,
};
use loft::files::reveal_target;
use loft::monitor::{
    cached_cpu_meta, display_adapter_names, gpu_list_fresh, is_fresh, wchar_to_string, CpuMeta, MemSnapshot,
};
use loft::numfmt::{decimal_chars, i64_decimal_chars};
use loft::registry::{from_reg_bytes, registry_entry, registry_value_type, utf16_bytes, RegValueType};
use loft::settings::read_json;

fn wide(s: &str) -> Vec<u16> {
    s.encode_utf16().collect()
}

#[test]
fn payload_path_must_be_named_json() {
    let good = "/tmp/loft-env-elevate-unit.json";
    assert!(is_allowed_payload_path(good, Some((true, 2))));
    assert!(!is_allowed_payload_path("loft-env-elevate-x.json", Some((true, 2))));
    assert!(!is_allowed_payload_path("/tmp/other.json", Some((true, 2))));
}

#[test]
fn payload_path_size_and_kind() {
    let good = "/tmp/loft-env-elevate-1.json";
    assert!(is_allowed_payload_path(good, Some((true, 65536))));
    assert!(!is_allowed_payload_path(good, Some((true, 65537))));
    assert!(!is_allowed_payload_path(good, Some((false, 2))));
    assert!(!is_allowed_payload_path(good, None));
}

#[test]
fn payload_names() {
    assert!(is_allowed_payload_name("loft-env-elevate-12-34.json"));
    assert!(!is_allowed_payload_name("loft-env-elevate-12.txt"));
    assert!(!is_allowed_payload_name("env-elevate-12.json"));
    let n = payload_file_name(1234, -5);
    assert_eq!(n, "loft-env-elevate-1234--5.json");
    assert!(is_allowed_payload_name(&n));
    assert_eq!(payload_file_name(0, 1700000000000), "loft-env-elevate-0-1700000000000.json");
}

#[test]
fn payload_argument() {
    let args = |v: &[&str]| v.iter().map(|s| s.to_string()).collect::<Vec<String>>();
    assert_eq!(elevate_payload_arg(&args(&["loft.exe", "--elevate-env-write", "/tmp/p.json"])), Some("/tmp/p.json".into()));
    assert_eq!(elevate_payload_arg(&args(&["loft.exe", "--elevate-env-write"])), Some(String::new()));
    assert_eq!(elevate_payload_arg(&args(&["loft.exe"])), None);
    assert_eq!(elevate_payload_arg(&args(&["loft.exe", "--other", "x"])), None);
    assert_eq!(result_path("/tmp/loft-env-elevate-1.json"), "/tmp/loft-env-elevate-1.result.json");
}

#[test]
fn elevation_outcomes() {
    assert_eq!(elevate_outcome(None), Err("提权进程未返回结果".to_string()));
    assert_eq!(elevate_outcome(Some(r#"{"ok":true}"#.into())), Ok(()));
    assert_eq!(elevate_outcome(Some(r#"{"ok":false,"error":"denied"}"#.into())), Err("denied".to_string()));
    assert_eq!(elevate_outcome(Some(r#"{"ok":false}"#.into())), Err("提权写入失败".to_string()));
    let bad = elevate_outcome(Some("{".into())).unwrap_err();
    assert!(bad.starts_with("解析提权结果失败: "));
    assert!(is_uac_cancelled(1223));
    assert!(is_uac_cancelled(0x800704C7u32 as i32));
    assert!(!is_uac_cancelled(5));
}

#[test]
fn registry_text_roundtrip() {
    for s in ["C:\\Windows;D:\\bin", "", "日本語 %PATH% 😀"] {
        let bytes = utf16_bytes(s);
        assert_eq!(bytes[bytes.len() - 2..], [0, 0]);
        assert_eq!(from_reg_bytes(&bytes), s);
    }
    assert_eq!(utf16_bytes("A"), vec![0x41, 0, 0, 0]);
}

#[test]
fn registry_bytes_decoding() {
    // trailing NULs dropped, odd byte ignored, lone surrogate replaced
    assert_eq!(from_reg_bytes(&[0x41, 0, 0x42, 0, 0, 0, 0, 0, 7]), "AB");
    assert_eq!(from_reg_bytes(&[0x00, 0xD8, 0x41, 0]), "\u{FFFD}A");
    assert_eq!(registry_value_type("%A%\\b"), RegValueType::ExpandSz);
    assert_eq!(registry_value_type("100%"), RegValueType::Sz);
    let e = registry_entry(&wide("Path"), &utf16_bytes("C:\\x"), true).unwrap();
    assert_eq!(e, ("Path".to_string(), "C:\\x".to_string(), "expand_sz".to_string()));
    assert!(registry_entry(&vec![], &[], false).is_none());
}

#[test]
fn decimal_text() {
    assert_eq!(decimal_chars(0).into_iter().collect::<String>(), "0");
    assert_eq!(decimal_chars(18446744073709551615).into_iter().collect::<String>(), "18446744073709551615");
    assert_eq!(i64_decimal_chars(-9223372036854775808).into_iter().collect::<String>(), "-9223372036854775808");
    assert_eq!(i64_decimal_chars(42).into_iter().collect::<String>(), "42");
}

#[test]
fn wide_buffers() {
    let mut buf = wide(" NVIDIA GeForce ");
    buf.push(0);
    buf.extend(wide("junk"));
    assert_eq!(wchar_to_string(&buf), "NVIDIA GeForce");
    assert_eq!(wchar_to_string(&wide("no nul")), "no nul");
    assert_eq!(wchar_to_string(&[0, 65]), "");
    let devices = vec![wide("Intel UHD\0\0"), vec![0u16; 4], wide("  \0"), wide("AMD Radeon")];
    assert_eq!(display_adapter_names(&devices), vec!["Intel UHD".to_string(), "AMD Radeon".to_string()]);
}

#[test]
fn cache_freshness() {
    assert!(is_fresh(1000, 1000, 30000));
    assert!(is_fresh(1000, 30999, 30000));
    assert!(!is_fresh(1000, 31000, 30000));
    assert!(is_fresh(1000, 5, 30000));
    assert!(!gpu_list_fresh(None, 0));
    assert!(gpu_list_fresh(Some(0), 59999));
    assert!(!gpu_list_fresh(Some(0), 60000));
    let meta = CpuMeta { brand: "Ryzen".into(), frequency_mhz: 3600, cores: 16, collected_at_ms: 100 };
    let hit = cached_cpu_meta(&Some(meta.clone()), 30099).unwrap();
    assert_eq!((hit.brand.as_str(), hit.frequency_mhz, hit.cores), ("Ryzen", 3600, 16));
    assert!(cached_cpu_meta(&Some(meta), 30100).is_none());
    assert!(cached_cpu_meta(&None, 0).is_none());
    let m = MemSnapshot { used: 1, total: 2, swap_used: 0, swap_total: 0 };
    assert_eq!(m.total, 2);
}

#[test]
fn reveal_targets() {
    assert_eq!(reveal_target("/a/b.txt", true), "/a");
    assert_eq!(reveal_target("/a/b", false), "/a/b");
    assert_eq!(reveal_target("/", true), "/");
}

#[test]
fn boot_log_location() {
    assert_eq!(log_file_path(Some("/home/u/AppData".into())), Some("/home/u/AppData/com.loft.app/boot.log".into()));
    assert_eq!(log_file_path(None), None);
    assert!(is_known_lnk_panic("/home/u/.cargo/registry/src/lnk-0.5.1/src/lib.rs"));
    assert!(!is_known_lnk_panic("src/main.rs"));
    assert!(!is_known_lnk_panic("lnk-0.4"));
}

#[test]
fn settings_reading() {
    let default = serde_json::Value::Bool(true);
    assert_eq!(read_json("config.json", Ok(None), default.clone()), Ok(default.clone()));
    assert_eq!(read_json("config.json", Ok(Some(" \n ".into())), default.clone()), Ok(default.clone()));
    let v = read_json("config.json", Ok(Some(r#"{"theme":"aurora"}"#.into())), default.clone()).unwrap();
    assert_eq!(v["theme"], serde_json::Value::String("aurora".into()));
    let e = read_json("items.json", Ok(Some("{".into())), default.clone()).unwrap_err();
    assert!(e.starts_with("解析 items.json 失败: "));
    assert_eq!(read_json("config.json", Err("denied".into()), default), Err("读取 config.json 失败: denied".to_string()));
}

#[test]
fn notes_reading() {
    let default = serde_json::Value::Null;
    assert_eq!(load_env_notes(Ok(None), default.clone()), Ok(default.clone()));
    assert_eq!(load_env_notes(Ok(Some("".into())), default.clone()), Ok(default.clone()));
    assert_eq!(load_env_notes(Err("gone".into()), default.clone()), Err("读取备注失败: gone".to_string()));
    assert!(load_env_notes(Ok(Some("[1,".into())), default.clone()).unwrap_err().starts_with("解析备注失败: "));
    let v = load_env_notes(Ok(Some(r#"{"version":1,"notes":{}}"#.into())), default).unwrap();
    assert_eq!(v["version"], serde_json::Value::from(1));
}

#[test]
fn registry_keys_for_scopes() {
    assert_eq!(registry_target("user"), Ok((RegRoot::CurrentUser, "Environment".to_string())));
    assert_eq!(
        registry_target("machine"),
        Ok((
            RegRoot::LocalMachine,
            "SYSTEM\\CurrentControlSet\\Control\\Session Manager\\Environment".to_string()
        ))
    );
    assert_eq!(registry_target("process"), Err("未知范围: process".to_string()));
}

#[test]
fn elevation_launch_failures() {
    assert_eq!(launch_failure_message(1223, "x"), "已取消提权");
    assert_eq!(launch_failure_message(5, "拒绝访问"), "无法拉起提权进程: 拒绝访问");
}

#[test]
fn icon_script_quotes_path() {
    assert_eq!(ps_quote_str("C:\\it's\\a'b.exe"), "C:\\it''s\\a''b.exe");
    let s = icon_script("C:\\o'k.lnk");
    assert!(s.starts_with("\n$ErrorActionPreference = 'SilentlyContinue'\n"));
    assert!(s.contains("    $p = 'C:\\o''k.lnk'\n"));
    assert!(s.ends_with("} catch { }\n"));
}

#[test]
fn icon_extraction_outcomes() {
    assert_eq!(icon_from_output(false, b"abc"), None);
    assert_eq!(icon_from_output(true, b" \r\n"), None);
    assert_eq!(icon_from_output(true, b"iVBOR\r\n"), Some("data:image/png;base64,iVBOR".to_string()));
    assert_eq!(extract_icon(String::new()), None);
    let script = extract_icon("a.exe".into()).unwrap();
    assert!(script.contains("$p = 'a.exe'"));
    assert_eq!(icon_result(Err("not found".to_string())), Err("PowerShell 启动失败: not found".to_string()));
    assert_eq!(icon_result(Ok((true, b"QUJD\n".to_vec()))), Ok(Some("data:image/png;base64,QUJD".to_string())));
    assert_eq!(icon_result(Ok((false, b"QUJD".to_vec()))), Ok(None));
}

#[test]
fn registry_type_filter() {
    let name: Vec<u16> = "Path".encode_utf16().collect();
    let data = utf16_bytes("x");
    assert_eq!(typed_registry_entry(&name, &data, REG_SZ).unwrap().2, "sz");
    assert_eq!(typed_registry_entry(&name, &data, REG_EXPAND_SZ).unwrap().2, "expand_sz");
    assert!(typed_registry_entry(&name, &data, 4).is_none());
    assert!(typed_registry_entry(&name, &data, 3).is_none());
}

#[test]
fn elevated_helper_decisions() {
    let ok_meta = Some((true, 10u64));
    let good = "/tmp/loft-env-elevate-1-2.json";
    let parse = |t: String| -> Result<ElevatePayload, String> {
        let mut it = t.split('|');
        Ok(ElevatePayload {
            op: it.next().unwrap_or("").to_string(),
            scope: it.next().unwrap_or("").to_string(),
            name: it.next().unwrap_or("").to_string(),
            value: it.next().unwrap_or("").to_string(),
        })
    };
    assert_eq!(run_elevate_helper("", ok_meta, || Ok(String::new()), parse).unwrap_err(), "缺少提权载荷路径");
    assert_eq!(run_elevate_helper("/tmp/x.json", ok_meta, || Ok(String::new()), parse).unwrap_err(), "提权载荷路径不合法");
    assert_eq!(
        run_elevate_helper(good, ok_meta, || Err("gone".into()), parse).unwrap_err(),
        "读取提权载荷失败: gone"
    );
    assert_eq!(
        run_elevate_helper(good, ok_meta, || Ok("upsert|user|A|1".into()), parse).unwrap_err(),
        "提权通道只允许修改系统级环境变量"
    );
    assert_eq!(
        run_elevate_helper(good, ok_meta, || Ok("rename|machine|A|1".into()), parse).unwrap_err(),
        "不支持的提权操作: rename"
    );
    let c = run_elevate_helper(good, ok_meta, || Ok("upsert|machine| A |1".into()), parse).unwrap();
    assert_eq!((c.scope, c.name.as_str(), c.value.as_deref()), (EnvScope::Machine, "A", Some("1")));
    let d = run_elevate_helper(good, ok_meta, || Ok("delete|machine|A|".into()), parse).unwrap();
    assert_eq!(d.value, None);
    let rec = elevate_result(&Err("x".to_string()));
    assert!(!rec.ok && rec.error.as_deref() == Some("x"));
}
