//! Writing system-wide variables from an unelevated process: the main
//! process writes a request file and starts an elevated copy of itself with
//! `--elevate-env-write <file>`; that copy applies the request and writes the
//! outcome next to it.
use vstd::prelude::*;
use crate::text::{chars_eq, chars_of, concat, seq_starts_with, starts_with_str, string_from_chars};
use crate::env::{change_result_view, delete_change, delete_scope, write_change, write_scope, EnvChange, EnvScope};
use crate::json::{json_field_spec, json_top_field, JsonScalar, JsonScalarView};
use crate::numfmt::{decimal, decimal_chars, i64_decimal_chars, signed_decimal};
use crate::paths::{
    path_file_name, path_file_name_spec, path_is_absolute, path_is_absolute_spec, path_with_extension,
    path_with_extension_spec,
};

verus! {

/// The command-line flag that starts the elevated helper.
pub open spec fn elevate_flag() -> Seq<char> {
    "--elevate-env-write"@
}

/// The request file given on the command line, when the process was started
/// as the elevated helper: `args[1]` is the flag, `args[2]` the file (empty
/// when missing).
pub fn elevate_payload_arg(args: &Vec<String>) -> (res: Option<String>)
    ensures
        match res {
            Some(p) => args.len() > 1 && args@[1]@ == elevate_flag() && p@ == (if args.len() > 2 {
                args@[2]@
            } else {
                Seq::<char>::empty()
            }),
            None => !(args.len() > 1 && args@[1]@ == elevate_flag()),
        },
{
    if args.len() > 1 && chars_eq(&chars_of(args[1].as_str()), &chars_of("--elevate-env-write")) {
        if args.len() > 2 {
            Some(args[2].clone())
        } else {
            Some(String::new())
        }
    } else {
        None
    }
}

/// Whether `s` ends with `p`.
pub open spec fn seq_ends_with(s: Seq<char>, p: Seq<char>) -> bool {
    p.len() <= s.len() && s.subrange(s.len() - p.len(), s.len() as int) == p
}

/// Request files are named `loft-env-elevate-*.json`.
pub open spec fn payload_name_ok(name: Seq<char>) -> bool {
    seq_starts_with(name, "loft-env-elevate-"@) && seq_ends_with(name, ".json"@)
}

fn ends_with_str(v: &Vec<char>, p: &str) -> (res: bool)
    ensures
        res == seq_ends_with(v@, p@),
{
    let pv = chars_of(p);
    if pv.len() > v.len() {
        return false;
    }
    let off = v.len() - pv.len();
    let mut i: usize = 0;
    while i < pv.len()
        invariant
            pv@ == p@,
            off + pv.len() == v.len(),
            i <= pv.len(),
            forall|k: int| 0 <= k < i ==> v@[off + k] == pv@[k],
        decreases pv.len() - i,
    {
        if v[off + i] != pv[i] {
            assert(v@.subrange(off as int, v.len() as int)[i as int] != pv@[i as int]);
            assert(v@.subrange(v@.len() - p@.len(), v@.len() as int) != p@);
            return false;
        }
        i += 1;
    }
    assert(v@.subrange(off as int, v.len() as int) =~= pv@);
    true
}

/// Whether a file name is that of a request file.
pub fn is_allowed_payload_name(name: &str) -> (res: bool)
    ensures
        res == payload_name_ok(name@),
{
    let v = chars_of(name);
    starts_with_str(&v, "loft-env-elevate-") && ends_with_str(&v, ".json")
}

/// The largest request file accepted, in bytes.
pub const MAX_PAYLOAD_BYTES: u64 = 65536;

/// A request file is accepted when its path is absolute, its name is that of
/// a request file, and it is a regular file of at most 64 KiB (`meta`: is it
/// a file, its length; `None` when it cannot be inspected).
pub open spec fn payload_path_ok(path: Seq<char>, meta: Option<(bool, u64)>) -> bool {
    &&& path_is_absolute_spec(path)
    &&& match path_file_name_spec(path) {
        Some(n) => payload_name_ok(n),
        None => false,
    }
    &&& match meta {
        Some((is_file, len)) => is_file && len <= MAX_PAYLOAD_BYTES,
        None => false,
    }
}

pub fn is_allowed_payload_path(path: &str, meta: Option<(bool, u64)>) -> (res: bool)
    ensures
        res == payload_path_ok(path@, meta),
{
    if !path_is_absolute(path) {
        return false;
    }
    let name_ok = match path_file_name(path) {
        Some(n) => is_allowed_payload_name(n.as_str()),
        None => false,
    };
    if !name_ok {
        return false;
    }
    match meta {
        Some((is_file, len)) => is_file && len <= MAX_PAYLOAD_BYTES,
        None => false,
    }
}

/// The file the helper writes its outcome to: the request file with its
/// extension replaced by `result.json`.
pub fn result_path(payload: &str) -> (res: String)
    ensures
        res@ == path_with_extension_spec(payload@, "result.json"@),
{
    proof {
        reveal_strlit("result.json");
    }
    path_with_extension(payload, "result.json")
}

/// The name of a request file: `loft-env-elevate-<pid>-<millis>.json`.
pub open spec fn payload_file_name_spec(pid: u32, millis: i64) -> Seq<char> {
    "loft-env-elevate-"@ + decimal(pid as nat) + seq!['-'] + signed_decimal(millis as int) + ".json"@
}

fn push_str(v: &mut Vec<char>, s: &str)
    ensures
        final(v)@ == old(v)@ + s@,
{
    let c = chars_of(s);
    let mut i: usize = 0;
    while i < c.len()
        invariant
            i <= c.len(),
            v@ == old(v)@ + c@.take(i as int),
        decreases c.len() - i,
    {
        v.push(c[i]);
        i += 1;
        assert(c@.take(i as int) == c@.take(i - 1 as int).push(c@[i - 1]));
    }
    assert(c@.take(c.len() as int) == c@);
}

fn push_chars(v: &mut Vec<char>, c: &Vec<char>)
    ensures
        final(v)@ == old(v)@ + c@,
{
    let mut i: usize = 0;
    while i < c.len()
        invariant
            i <= c.len(),
            v@ == old(v)@ + c@.take(i as int),
        decreases c.len() - i,
    {
        v.push(c[i]);
        i += 1;
        assert(c@.take(i as int) == c@.take(i - 1 as int).push(c@[i - 1]));
    }
    assert(c@.take(c.len() as int) == c@);
}

/// The name of the request file for process `pid` at time `millis`.
pub fn payload_file_name(pid: u32, millis: i64) -> (res: String)
    ensures
        res@ == payload_file_name_spec(pid, millis),
{
    let mut v: Vec<char> = Vec::new();
    push_str(&mut v, "loft-env-elevate-");
    push_chars(&mut v, &decimal_chars(pid as u64));
    v.push('-');
    push_chars(&mut v, &i64_decimal_chars(millis));
    push_str(&mut v, ".json");
    assert(v@ =~= payload_file_name_spec(pid, millis));
    string_from_chars(v.as_slice())
}

/// The names of request files are the names the helper accepts.
pub proof fn lemma_payload_file_name_accepted(pid: u32, millis: i64)
    ensures
        payload_name_ok(payload_file_name_spec(pid, millis)),
{
    let pre = "loft-env-elevate-"@;
    let mid = decimal(pid as nat) + seq!['-'] + signed_decimal(millis as int);
    let suf = ".json"@;
    let n = payload_file_name_spec(pid, millis);
    assert(n == pre + mid + suf);
    assert(n.subrange(0, pre.len() as int) =~= pre);
    assert(n.subrange(n.len() - suf.len(), n.len() as int) =~= suf);
}

/// A request as the helper reads it.
pub struct ElevatePayload {
    /// `upsert` or `delete`.
    pub op: String,
    pub scope: String,
    pub name: String,
    pub value: String,
}

/// The outcome the helper writes back.
pub struct ElevateResult {
    pub ok: bool,
    pub error: Option<String>,
}

/// The helper only ever changes system-wide variables.
pub open spec fn wrong_scope_msg() -> Seq<char> {
    "提权通道只允许修改系统级环境变量"@
}

/// The change the helper makes for a request: its scope must be `machine`;
/// `upsert` is `write_change("machine", name, value)`, `delete` is
/// `delete_change("machine", name)`, other operations are refused.
pub open spec fn request_outcome(p: ElevatePayload) -> Result<(EnvScope, Seq<char>, Option<Seq<char>>), Seq<char>> {
    if p.scope@ != "machine"@ {
        Err(wrong_scope_msg())
    } else if p.op@ == "upsert"@ {
        write_change("machine"@, p.name@, p.value@)
    } else if p.op@ == "delete"@ {
        delete_change("machine"@, p.name@)
    } else {
        Err("不支持的提权操作: "@ + p.op@)
    }
}

/// Checks one request and returns the change it asks for (see
/// `request_outcome`); nothing is changed here.
pub fn apply_elevate_request(p: &ElevatePayload) -> (res: Result<EnvChange, String>)
    ensures
        change_result_view(res) == request_outcome(*p),
{
    if !chars_eq(&chars_of(p.scope.as_str()), &chars_of("machine")) {
        return Err(String::from_str("提权通道只允许修改系统级环境变量"));
    }
    let op = chars_of(p.op.as_str());
    if chars_eq(&op, &chars_of("upsert")) {
        write_scope("machine", p.name.as_str(), p.value.as_str())
    } else if chars_eq(&op, &chars_of("delete")) {
        delete_scope("machine", p.name.as_str())
    } else {
        Err(concat("不支持的提权操作: ", p.op.as_str()))
    }
}

/// The outcome record for an outcome.
pub open spec fn result_record(outcome: Result<(), String>, r: ElevateResult) -> bool {
    match outcome {
        Ok(()) => r.ok && r.error is None,
        Err(e) => !r.ok && r.error == Some(e),
    }
}

/// The outcome record the helper writes.
pub fn elevate_result(outcome: &Result<(), String>) -> (res: ElevateResult)
    ensures
        result_record(*outcome, res),
{
    match outcome {
        Ok(()) => ElevateResult { ok: true, error: None },
        Err(e) => ElevateResult { ok: false, error: Some(e.clone()) },
    }
}

/// What the helper decides for request file `path`: it must be given and
/// accepted (`payload_path_ok`); then it is read (`read`) and parsed
/// (`parse`), failures prefixed with what failed; then the request is
/// checked (`request_outcome`).
pub open spec fn helper_outcome(
    path: Seq<char>,
    meta: Option<(bool, u64)>,
    read: impl FnOnce() -> Result<String, String>,
    parse: impl FnOnce(String) -> Result<ElevatePayload, String>,
    res: Result<EnvChange, String>,
) -> bool {
    if path.len() == 0 {
        res matches Err(e) && e@ == "缺少提权载荷路径"@
    } else if !payload_path_ok(path, meta) {
        res matches Err(e) && e@ == "提权载荷路径不合法"@
    } else {
        ||| exists|err: String|
            #[trigger] read.ensures((), Err(err)) && (res matches Err(e) && e@ == "读取提权载荷失败: "@ + err@)
        ||| exists|text: String|
            #[trigger] read.ensures((), Ok(text)) && {
                ||| exists|err: String|
                    #[trigger] parse.ensures((text,), Err(err)) && (res matches Err(e) && e@ == "解析提权载荷失败: "@
                        + err@)
                ||| exists|p: ElevatePayload|
                    #[trigger] parse.ensures((text,), Ok(p)) && change_result_view(res) == request_outcome(p)
            }
    }
}

/// The elevated helper's decision for the request file `path` (`meta`
/// describes it): the change to make, or why there is none. The file is
/// read through `read` and parsed through `parse` only once the path is
/// accepted; no variable is changed here.
pub fn run_elevate_helper(
    path: &str,
    meta: Option<(bool, u64)>,
    read: impl FnOnce() -> Result<String, String>,
    parse: impl FnOnce(String) -> Result<ElevatePayload, String>,
) -> (res: Result<EnvChange, String>)
    requires
        read.requires(()),
        forall|t: String| parse.requires((t,)),
    ensures
        helper_outcome(path@, meta, read, parse, res),
{
    if chars_of(path).len() == 0 {
        return Err(String::from_str("缺少提权载荷路径"));
    }
    if !is_allowed_payload_path(path, meta) {
        return Err(String::from_str("提权载荷路径不合法"));
    }
    let text = match read() {
        Err(e) => {
            let m = concat("读取提权载荷失败: ", e.as_str());
            return Err(m);
        },
        Ok(t) => t,
    };
    let payload = match parse(text) {
        Err(e) => {
            let m = concat("解析提权载荷失败: ", e.as_str());
            return Err(m);
        },
        Ok(p) => p,
    };
    apply_elevate_request(&payload)
}

/// The outcome the unelevated side reports, from the text of the result
/// file (`None` when it could not be read): success only when the record's
/// `ok` is `true`; otherwise its `error` text, or a generic failure.
pub open spec fn elevate_outcome_spec(result_text: Option<Seq<char>>) -> Result<(), Seq<char>> {
    match result_text {
        None => Err("提权进程未返回结果"@),
        Some(t) => match json_field_spec(t, "ok"@) {
            Err(e) => Err("解析提权结果失败: "@ + e),
            Ok(JsonScalarView::Bool(true)) => Ok(()),
            Ok(_) => match json_field_spec(t, "error"@) {
                Ok(JsonScalarView::Str(m)) => Err(m),
                _ => Err("提权写入失败"@),
            },
        },
    }
}

pub fn elevate_outcome(result_text: Option<String>) -> (res: Result<(), String>)
    ensures
        match res {
            Ok(()) => elevate_outcome_spec(crate::path_resolve::opt_view(result_text)) == Ok::<(), Seq<char>>(()),
            Err(e) => elevate_outcome_spec(crate::path_resolve::opt_view(result_text)) == Err::<(), Seq<char>>(e@),
        },
{
    match result_text {
        None => Err(String::from_str("提权进程未返回结果")),
        Some(t) => match json_top_field(t.as_str(), "ok") {
            Err(e) => Err(concat("解析提权结果失败: ", e.as_str())),
            Ok(JsonScalar::Bool(true)) => Ok(()),
            Ok(_) => match json_top_field(t.as_str(), "error") {
                Ok(JsonScalar::Str(m)) => Err(m),
                _ => Err(String::from_str("提权写入失败")),
            },
        },
    }
}

/// Why the elevated helper could not be started: `已取消提权` when the user
/// declined (see `is_uac_cancelled`), else `无法拉起提权进程: <message>`.
pub fn launch_failure_message(code: i32, message: &str) -> (res: String)
    ensures
        res@ == if (code as u32) & 0xFFFF == 1223 {
            "已取消提权"@
        } else {
            "无法拉起提权进程: "@ + message@
        },
{
    if is_uac_cancelled(code) {
        String::from_str("已取消提权")
    } else {
        concat("无法拉起提权进程: ", message)
    }
}

/// Whether a Windows error code means the user declined elevation
/// (`ERROR_CANCELLED`, 1223, in the low 16 bits).
pub fn is_uac_cancelled(code: i32) -> (res: bool)
    ensures
        res == ((code as u32) & 0xFFFF == 1223),
{
    (code as u32) & 0xFFFF == 1223
}

} // verus!
