//! Icons of files and shortcuts: a PowerShell script extracts the icon
//! associated with a file (or with a shortcut's target) as a base64 PNG.
use vstd::prelude::*;
use crate::text::{chars_of, concat, string_from_chars, trim, trimmed};

verus! {

/// `s` inside a single-quoted PowerShell string: each `'` doubled.
pub open spec fn ps_quote(s: Seq<char>) -> Seq<char>
    decreases s.len(),
{
    if s.len() == 0 {
        Seq::empty()
    } else {
        ps_quote(s.drop_last()) + if s.last() == '\'' {
            seq!['\'', '\'']
        } else {
            seq![s.last()]
        }
    }
}

/// `str::replace('\'', "''")`: the text quoted for PowerShell.
pub fn ps_quote_str(s: &str) -> (res: String)
    ensures
        res@ == ps_quote(s@),
{
    let v = chars_of(s);
    let mut out: Vec<char> = Vec::new();
    let mut i: usize = 0;
    while i < v.len()
        invariant
            i <= v.len(),
            v@ == s@,
            out@ == ps_quote(v@.take(i as int)),
        decreases v.len() - i,
    {
        assert(v@.take(i + 1).drop_last() =~= v@.take(i as int));
        if v[i] == '\'' {
            out.push('\'');
            out.push('\'');
        } else {
            out.push(v[i]);
        }
        i += 1;
        assert(out@ =~= ps_quote(v@.take(i as int)));
    }
    assert(v@.take(v.len() as int) =~= v@);
    string_from_chars(out.as_slice())
}

/// The script that prints the base64 PNG of the icon of `path`: for a
/// `.lnk` the icon of its target where that exists, else the icon of the
/// file itself; nothing where there is none.
pub open spec fn icon_script_spec(path: Seq<char>) -> Seq<char> {
    "\n$ErrorActionPreference = 'SilentlyContinue'\nAdd-Type -AssemblyName System.Drawing | Out-Null\ntry {\n    $p = '"@ + ps_quote(path) + "'\n    $icon = $null\n    if ([System.IO.Path]::GetExtension($p).ToLower() -eq '.lnk') {\n        $shell = New-Object -ComObject WScript.Shell\n        $link = $shell.CreateShortcut($p)\n        $t = $link.TargetPath\n        if ($t -and (Test-Path -LiteralPath $t)) {\n            $icon = [System.Drawing.Icon]::ExtractAssociatedIcon($t)\n        }\n    }\n    if (-not $icon) {\n        if (Test-Path -LiteralPath $p) {\n            $icon = [System.Drawing.Icon]::ExtractAssociatedIcon($p)\n        }\n    }\n    if ($icon) {\n        $bmp = $icon.ToBitmap()\n        $ms = New-Object System.IO.MemoryStream\n        $bmp.Save($ms, [System.Drawing.Imaging.ImageFormat]::Png)\n        [Convert]::ToBase64String($ms.ToArray())\n        $bmp.Dispose()\n        $icon.Dispose()\n        $ms.Dispose()\n    }\n} catch { }\n"@
}

/// The script for `path` (see `icon_script_spec`).
pub fn icon_script(path: &str) -> (res: String)
    ensures
        res@ == icon_script_spec(path@),
{
    let q = ps_quote_str(path);
    let head = concat("\n$ErrorActionPreference = 'SilentlyContinue'\nAdd-Type -AssemblyName System.Drawing | Out-Null\ntry {\n    $p = '", q.as_str());
    concat(head.as_str(), "'\n    $icon = $null\n    if ([System.IO.Path]::GetExtension($p).ToLower() -eq '.lnk') {\n        $shell = New-Object -ComObject WScript.Shell\n        $link = $shell.CreateShortcut($p)\n        $t = $link.TargetPath\n        if ($t -and (Test-Path -LiteralPath $t)) {\n            $icon = [System.Drawing.Icon]::ExtractAssociatedIcon($t)\n        }\n    }\n    if (-not $icon) {\n        if (Test-Path -LiteralPath $p) {\n            $icon = [System.Drawing.Icon]::ExtractAssociatedIcon($p)\n        }\n    }\n    if ($icon) {\n        $bmp = $icon.ToBitmap()\n        $ms = New-Object System.IO.MemoryStream\n        $bmp.Save($ms, [System.Drawing.Imaging.ImageFormat]::Png)\n        [Convert]::ToBase64String($ms.ToArray())\n        $bmp.Dispose()\n        $icon.Dispose()\n        $ms.Dispose()\n    }\n} catch { }\n")
}

/// The text `String::from_utf8_lossy` makes of `bytes`: UTF-8 decoded,
/// each invalid sequence replaced by U+FFFD.
pub uninterp spec fn utf8_lossy(bytes: Seq<u8>) -> Seq<char>;

/// `String::from_utf8_lossy`: the result is named `utf8_lossy` of the bytes.
#[verifier::external_body]
fn utf8_lossy_text(bytes: &[u8]) -> (res: String)
    ensures
        res@ == utf8_lossy(bytes@),
{
    String::from_utf8_lossy(bytes).into_owned()
}

/// The icon from the script's run: nothing when it failed or printed only
/// blanks, else a `data:` URL of the PNG it printed.
pub open spec fn icon_outcome(success: bool, stdout: Seq<u8>) -> Option<Seq<char>> {
    let s = trim(utf8_lossy(stdout));
    if !success || s.len() == 0 {
        None
    } else {
        Some("data:image/png;base64,"@ + s)
    }
}

/// The icon (see `icon_outcome`) from whether the script succeeded and what
/// it printed.
pub fn icon_from_output(success: bool, stdout: &[u8]) -> (res: Option<String>)
    ensures
        match res {
            Some(u) => icon_outcome(success, stdout@) == Some(u@),
            None => icon_outcome(success, stdout@) is None,
        },
{
    if !success {
        return None;
    }
    let text = utf8_lossy_text(stdout);
    let t = trimmed(text.as_str());
    if t.len() == 0 {
        return None;
    }
    let s = string_from_chars(t.as_slice());
    Some(concat("data:image/png;base64,", s.as_str()))
}

pub open spec fn opt_view(o: Option<String>) -> Option<Seq<char>> {
    match o {
        Some(s) => Some(s@),
        None => None,
    }
}

/// The script to run for the icon of the file at `path`
/// (`icon_script_spec`), or `None` for an empty path, which has no icon.
pub fn extract_icon(path: String) -> (res: Option<String>)
    ensures
        path@.len() == 0 ==> res is None,
        path@.len() > 0 ==> (res matches Some(s) && s@ == icon_script_spec(path@)),
{
    if path.as_str().unicode_len() == 0 {
        return None;
    }
    Some(icon_script(path.as_str()))
}

/// The icon from running the script: whether PowerShell succeeded and what
/// it printed (see `icon_outcome`), or why it did not start, as
/// `PowerShell 启动失败: <e>`.
pub fn icon_result(run: Result<(bool, Vec<u8>), String>) -> (res: Result<Option<String>, String>)
    ensures
        match run {
            Err(e) => res matches Err(m) && m@ == "PowerShell 启动失败: "@ + e@,
            Ok((ok, out)) => res matches Ok(icon) && opt_view(icon) == icon_outcome(ok, out@),
        },
{
    match run {
        Err(e) => Err(concat("PowerShell 启动失败: ", e.as_str())),
        Ok((ok, out)) => Ok(icon_from_output(ok, out.as_slice())),
    }
}

} // verus!
