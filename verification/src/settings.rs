//! Settings files: a JSON document per file, with a default where the file
//! is missing or blank.
use vstd::prelude::*;
use crate::json::{json_parsed, parse_json_value};
use crate::text::{concat, trim, trimmed};

verus! {

/// What reading a JSON document gives, from the outcome of reading its
/// file (`Ok(None)` where it does not exist): `None` (the default) where it
/// is missing or blank; otherwise the document it parses to, or the reason
/// it could not be read or parsed, after the given prefix.
pub open spec fn document_outcome(
    read: Result<Option<Seq<char>>, Seq<char>>,
    read_prefix: Seq<char>,
    parse_prefix: Seq<char>,
) -> Option<Result<serde_json::Value, Seq<char>>> {
    match read {
        Err(e) => Some(Err(read_prefix + e)),
        Ok(None) => None,
        Ok(Some(t)) => if trim(t).len() == 0 {
            None
        } else {
            match json_parsed(t) {
                Err(e) => Some(Err(parse_prefix + e)),
                Ok(v) => Some(Ok(v)),
            }
        },
    }
}

pub open spec fn read_view(read: Result<Option<String>, String>) -> Result<Option<Seq<char>>, Seq<char>> {
    match read {
        Err(e) => Err(e@),
        Ok(None) => Ok(None),
        Ok(Some(t)) => Ok(Some(t@)),
    }
}

/// The outcome in `document_outcome` holds of `res`: `default` where it is
/// `None`, the parsed document where it is `Ok`, the message where it
/// fails.
pub open spec fn document_result(
    outcome: Option<Result<serde_json::Value, Seq<char>>>,
    default: serde_json::Value,
    res: Result<serde_json::Value, String>,
) -> bool {
    match outcome {
        None => res == Ok::<serde_json::Value, String>(default),
        Some(Ok(v)) => res == Ok::<serde_json::Value, String>(v),
        Some(Err(m)) => res matches Err(e) && e@ == m,
    }
}

fn read_document(
    read: Result<Option<String>, String>,
    default: serde_json::Value,
    read_prefix: &str,
    parse_prefix: &str,
) -> (res: Result<serde_json::Value, String>)
    ensures
        document_result(document_outcome(read_view(read), read_prefix@, parse_prefix@), default, res),
{
    match read {
        Err(e) => Err(concat(read_prefix, e.as_str())),
        Ok(None) => Ok(default),
        Ok(Some(t)) => {
            if trimmed(t.as_str()).len() == 0 {
                Ok(default)
            } else {
                match parse_json_value(t.as_str()) {
                    Ok(v) => Ok(v),
                    Err(e) => Err(concat(parse_prefix, e.as_str())),
                }
            }
        },
    }
}

/// The settings document of `file` (`config.json`, `items.json`), from the
/// outcome of reading it: `default` where it is missing or blank, failures
/// as `读取 <file> 失败: <e>` and `解析 <file> 失败: <e>`.
pub fn read_json(file: &str, read: Result<Option<String>, String>, default: serde_json::Value) -> (res: Result<
    serde_json::Value,
    String,
>)
    ensures
        document_result(
            document_outcome(read_view(read), "读取 "@ + file@ + " 失败: "@, "解析 "@ + file@ + " 失败: "@),
            default,
            res,
        ),
{
    let a = concat("读取 ", file);
    let read_prefix = concat(a.as_str(), " 失败: ");
    let b = concat("解析 ", file);
    let parse_prefix = concat(b.as_str(), " 失败: ");
    read_document(read, default, read_prefix.as_str(), parse_prefix.as_str())
}

/// The notes kept on variables (`env-notes.json`), from the outcome of
/// reading the file: `default` where it is missing or blank, failures as
/// `读取备注失败: <e>` and `解析备注失败: <e>`.
pub fn load_env_notes(read: Result<Option<String>, String>, default: serde_json::Value) -> (res: Result<
    serde_json::Value,
    String,
>)
    ensures
        document_result(document_outcome(read_view(read), "读取备注失败: "@, "解析备注失败: "@), default, res),
{
    read_document(read, default, "读取备注失败: ", "解析备注失败: ")
}

} // verus!
