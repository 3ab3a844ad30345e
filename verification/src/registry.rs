//! How environment values are stored in the registry: UTF-16LE with a
//! terminating NUL, typed `REG_SZ` or `REG_EXPAND_SZ`.
use vstd::prelude::*;
use crate::text::{chars_eq, chars_of, concat, string_from_chars};
use crate::env::looks_expand;
use crate::env::{count_percent, unknown_scope_msg};

verus! {

broadcast use vstd::utf8::char_is_scalar, vstd::utf8::char_u32_cast;

pub open spec fn is_high_surrogate(u: u16) -> bool {
    0xD800 <= u && u <= 0xDBFF
}

pub open spec fn is_low_surrogate(u: u16) -> bool {
    0xDC00 <= u && u <= 0xDFFF
}

pub open spec fn is_surrogate(u: u16) -> bool {
    0xD800 <= u && u <= 0xDFFF
}

/// The scalar a surrogate pair stands for.
pub open spec fn pair_scalar(hi: u16, lo: u16) -> u32 {
    (0x10000 + (hi - 0xD800) * 0x400 + (lo - 0xDC00)) as u32
}

/// UTF-16 decoding where every unpaired surrogate becomes U+FFFD
/// (`String::from_utf16_lossy`).
pub open spec fn decode_utf16_lossy(u: Seq<u16>) -> Seq<char>
    decreases u.len(),
{
    if u.len() == 0 {
        Seq::<char>::empty()
    } else if is_high_surrogate(u[0]) && u.len() >= 2 && is_low_surrogate(u[1]) {
        seq![pair_scalar(u[0], u[1]) as char] + decode_utf16_lossy(u.skip(2))
    } else if is_surrogate(u[0]) {
        seq!['\u{FFFD}'] + decode_utf16_lossy(u.skip(1))
    } else {
        seq![(u[0] as u32) as char] + decode_utf16_lossy(u.skip(1))
    }
}

/// The UTF-16 code units of one character.
pub open spec fn encode_char_utf16(c: char) -> Seq<u16> {
    if (c as u32) < 0x10000 {
        seq![(c as u32) as u16]
    } else {
        seq![
            (0xD800 + ((c as u32) - 0x10000) / 0x400) as u16,
            (0xDC00 + ((c as u32) - 0x10000) % 0x400) as u16,
        ]
    }
}

/// UTF-16 encoding (`str::encode_utf16`).
pub open spec fn encode_utf16(s: Seq<char>) -> Seq<u16>
    decreases s.len(),
{
    if s.len() == 0 {
        Seq::<u16>::empty()
    } else {
        encode_char_utf16(s[0]) + encode_utf16(s.skip(1))
    }
}

/// Little-endian code units of a byte string; a trailing odd byte is ignored.
pub open spec fn le_units(d: Seq<u8>) -> Seq<u16> {
    Seq::new(d.len() / 2, |i: int| (d[2 * i] as int + d[2 * i + 1] as int * 256) as u16)
}

/// Little-endian bytes of code units.
pub open spec fn le_bytes(u: Seq<u16>) -> Seq<u8> {
    Seq::new(
        2 * u.len(),
        |i: int|
            if i % 2 == 0 {
                (u[i / 2] as int % 256) as u8
            } else {
                (u[i / 2] as int / 256) as u8
            },
    )
}

/// `u` without its trailing zero units.
pub open spec fn strip_zero_units(u: Seq<u16>) -> Seq<u16>
    decreases u.len(),
{
    if u.len() > 0 && u.last() == 0 {
        strip_zero_units(u.drop_last())
    } else {
        u
    }
}

/// `s` without its trailing NUL characters.
pub open spec fn strip_nul_chars(s: Seq<char>) -> Seq<char>
    decreases s.len(),
{
    if s.len() > 0 && s.last() == '\0' {
        strip_nul_chars(s.drop_last())
    } else {
        s
    }
}

/// The text a registry string value holds, given its raw bytes.
pub open spec fn reg_text(data: Seq<u8>) -> Seq<char> {
    decode_utf16_lossy(strip_zero_units(le_units(data)))
}

/// The raw bytes stored for a string value: UTF-16LE plus a terminating NUL.
pub open spec fn reg_bytes(s: Seq<char>) -> Seq<u8> {
    le_bytes(encode_utf16(s).push(0u16))
}

/// `char::from_u32`: the character whose scalar value is `v`, or `None`
/// for a surrogate code or a value above `0x10FFFF`.
#[verifier::external_body]
fn scalar_char(v: u32) -> (c: Option<char>)
    ensures
        match c {
            Some(ch) => ch as u32 == v,
            None => !(v < 0xD800 || (0xE000 <= v && v <= 0x10FFFF)),
        },
{
    char::from_u32(v)
}

/// Decodes UTF-16, replacing unpaired surrogates by U+FFFD.
pub fn decode_utf16_units(u: &Vec<u16>) -> (res: Vec<char>)
    ensures
        res@ == decode_utf16_lossy(u@),
{
    let mut out: Vec<char> = Vec::new();
    let mut i: usize = 0;
    assert(u@.skip(0) == u@);
    while i < u.len()
        invariant
            i <= u.len(),
            out@ + decode_utf16_lossy(u@.skip(i as int)) == decode_utf16_lossy(u@),
        decreases u.len() - i,
    {
        let ghost rest = u@.skip(i as int);
        let a = u[i];
        assert(rest[0] == a);
        if 0xD800 <= a && a <= 0xDBFF && i + 1 < u.len() && 0xDC00 <= u[i + 1] && u[i + 1] <= 0xDFFF {
            let b = u[i + 1];
            assert(rest[1] == b);
            let v: u32 = 0x10000 + ((a - 0xD800) as u32) * 0x400 + ((b - 0xDC00) as u32);
            assert(v == pair_scalar(a, b));
            assert(0x10000 <= v <= 0x10FFFF);
            let oc = scalar_char(v);
            assert(oc is Some);
            let c = oc.unwrap();
            proof {
                vstd::utf8::char_u32_cast(c, v);
            }
            assert(rest.skip(2) == u@.skip(i + 2));
            assert(decode_utf16_lossy(rest) == seq![c] + decode_utf16_lossy(u@.skip(i + 2)));
            out.push(c);
            i += 2;
        } else if 0xD800 <= a && a <= 0xDFFF {
            assert(rest.skip(1) == u@.skip(i + 1));
            out.push('\u{FFFD}');
            i += 1;
        } else {
            assert((a as u32) < 0xD800 || (0xE000 <= (a as u32) && (a as u32) <= 0x10FFFF));
            let oc = scalar_char(a as u32);
            assert(oc is Some);
            let c = oc.unwrap();
            proof {
                vstd::utf8::char_u32_cast(c, a as u32);
            }
            assert(rest.skip(1) == u@.skip(i + 1));
            assert(c == (a as u32) as char);
            out.push(c);
            i += 1;
        }
    }
    assert(u@.skip(i as int) =~= Seq::<u16>::empty());
    assert(out@ + Seq::<char>::empty() == out@);
    out
}

/// The text of a registry string value from its raw bytes: little-endian
/// UTF-16 code units, trailing NUL units dropped, unpaired surrogates
/// replaced by U+FFFD.
pub fn from_reg_bytes(data: &[u8]) -> (res: String)
    ensures
        res@ == reg_text(data@),
{
    let n = data.len() / 2;
    let mut units: Vec<u16> = Vec::new();
    let mut i: usize = 0;
    while i < n
        invariant
            n == data.len() / 2,
            i <= n,
            units@ == le_units(data@).take(i as int),
        decreases n - i,
    {
        let lo = data[2 * i];
        let hi = data[2 * i + 1];
        let unit: u16 = (lo as u16) + (hi as u16) * 256;
        units.push(unit);
        i += 1;
        assert(units@ =~= le_units(data@).take(i as int));
    }
    assert(le_units(data@).take(n as int) == le_units(data@));
    let ghost full = units@;
    while units.len() > 0 && units[units.len() - 1] == 0
        invariant
            strip_zero_units(units@) == strip_zero_units(full),
        decreases units.len(),
    {
        assert(units@.last() == 0);
        units.pop();
    }
    assert(strip_zero_units(units@) == units@);
    let chars = decode_utf16_units(&units);
    string_from_chars(chars.as_slice())
}

/// The raw bytes the registry stores for `s`: its UTF-16 code units
/// followed by a NUL unit, each little-endian.
pub fn utf16_bytes(s: &str) -> (res: Vec<u8>)
    ensures
        res@ == reg_bytes(s@),
{
    let v = chars_of(s);
    let mut units: Vec<u16> = Vec::new();
    let mut i: usize = 0;
    proof { lemma_encode_utf16_snoc(v@.take(0), 'a'); }
    while i < v.len()
        invariant
            v@ == s@,
            i <= v.len(),
            units@ == encode_utf16(v@.take(i as int)),
        decreases v.len() - i,
    {
        let c = v[i];
        let x = c as u32;
        let ghost before = units@;
        proof { vstd::utf8::char_is_scalar(c); }
        assert(vstd::utf8::is_scalar(x));
        if x < 0x10000 {
            units.push(x as u16);
            assert(units@ =~= before + encode_char_utf16(c));
        } else {
            let w = x - 0x10000;
            assert(w <= 0xFFFFF);
            assert(w / 0x400 <= 0x3FF);
            assert(w % 0x400 <= 0x3FF);
            units.push((0xD800 + w / 0x400) as u16);
            units.push((0xDC00 + w % 0x400) as u16);
            assert(units@ =~= before + encode_char_utf16(c));
        }
        proof {
            lemma_encode_utf16_snoc(v@.take(i as int), c);
            assert(v@.take(i as int).push(c) == v@.take(i + 1));
        }
        i += 1;
        assert(units@ =~= encode_utf16(v@.take(i as int)));
    }
    assert(v@.take(v.len() as int) == v@);
    units.push(0);
    let mut out: Vec<u8> = Vec::new();
    let mut j: usize = 0;
    while j < units.len()
        invariant
            j <= units.len(),
            units@ == encode_utf16(s@).push(0u16),
            out@ == le_bytes(units@).take(2 * j),
        decreases units.len() - j,
    {
        let u = units[j];
        out.push((u % 256) as u8);
        out.push((u / 256) as u8);
        j += 1;
        assert(out@ =~= le_bytes(units@).take(2 * j));
    }
    assert(le_bytes(units@).take(2 * units.len()) == le_bytes(units@));
    out
}

pub proof fn lemma_encode_utf16_snoc(s: Seq<char>, c: char)
    ensures
        encode_utf16(s.push(c)) == encode_utf16(s) + encode_char_utf16(c),
        encode_utf16(Seq::<char>::empty()) == Seq::<u16>::empty(),
    decreases s.len(),
{
    if s.len() > 0 {
        lemma_encode_utf16_snoc(s.skip(1), c);
        assert(s.push(c).skip(1) == s.skip(1).push(c));
        assert(s.push(c)[0] == s[0]);
        let a = encode_char_utf16(s[0]);
        let b = encode_utf16(s.skip(1));
        let d = encode_char_utf16(c);
        assert((a + b) + d =~= a + (b + d));
    } else {
        assert(s.push(c).skip(1) =~= Seq::<char>::empty());
        assert(s.push(c)[0] == c);
        assert(s == Seq::<char>::empty());
        let d = encode_char_utf16(c);
        assert(encode_utf16(s.push(c)) == d + encode_utf16(s.push(c).skip(1)));
        assert(encode_utf16(s.push(c).skip(1)) == Seq::<u16>::empty());
        assert(d + Seq::<u16>::empty() =~= d);
        assert(Seq::<u16>::empty() + d =~= d);
    }
}


proof fn lemma_le_roundtrip(u: Seq<u16>)
    ensures
        le_units(le_bytes(u)) == u,
{
    let b = le_bytes(u);
    assert forall|i: int| 0 <= i < u.len() implies #[trigger] le_units(b)[i] == u[i] by {
        let x = u[i] as int;
        assert(b[2 * i] == (x % 256) as u8);
        assert(b[2 * i + 1] == (x / 256) as u8);
        assert((x % 256) + (x / 256) * 256 == x) by (nonlinear_arith)
            requires 0 <= x < 65536;
        assert(0 <= x / 256 < 256) by (nonlinear_arith)
            requires 0 <= x < 65536;
    }
    assert(le_units(b) =~= u);
}

proof fn lemma_strip_zero_push(x: Seq<u16>)
    ensures
        strip_zero_units(x.push(0u16)) == strip_zero_units(x),
{
    assert(x.push(0u16).drop_last() == x);
}

proof fn lemma_strip_encoded(s: Seq<char>)
    ensures
        strip_zero_units(encode_utf16(s)) == encode_utf16(strip_nul_chars(s)),
    decreases s.len(),
{
    if s.len() > 0 {
        let s0 = s.drop_last();
        let c = s.last();
        lemma_encode_utf16_snoc(s0, c);
        assert(s0.push(c) == s);
        vstd::utf8::char_is_scalar(c);
        if c == '\0' {
            assert(encode_char_utf16(c) == seq![0u16]);
            assert(encode_utf16(s) == encode_utf16(s0).push(0u16));
            lemma_strip_zero_push(encode_utf16(s0));
            lemma_strip_encoded(s0);
        } else {
            let e = encode_utf16(s);
            let d = encode_char_utf16(c);
            assert(e == encode_utf16(s0) + d);
            assert(e.last() == d.last());
            let x = c as u32;
            vstd::utf8::char_u32_cast(c, x);
            assert(('\0' as u32) == 0);
            vstd::utf8::char_u32_cast('\0', 0u32);
            assert(x != 0);
            if x >= 0x10000 {
                let w = x - 0x10000;
                assert(0 <= w % 0x400 <= 0x3FF) by (nonlinear_arith)
                    requires 0 <= w;
            }
            assert(d.last() != 0);
            assert(strip_nul_chars(s) == s);
        }
    } else {
        lemma_encode_utf16_snoc(s, 'a');
    }
}

proof fn lemma_decode_encode(t: Seq<char>)
    ensures
        decode_utf16_lossy(encode_utf16(t)) == t,
    decreases t.len(),
{
    if t.len() == 0 {
        lemma_encode_utf16_snoc(t, 'a');
        assert(t =~= Seq::<char>::empty());
    } else {
        let c = t[0];
        let rest = encode_utf16(t.skip(1));
        let d = encode_char_utf16(c);
        let e = d + rest;
        assert(encode_utf16(t) == e);
        lemma_decode_encode(t.skip(1));
        vstd::utf8::char_is_scalar(c);
        let x = c as u32;
        if x < 0x10000 {
            let unit = x as u16;
            assert(e[0] == unit);
            assert(unit as u32 == x);
            vstd::utf8::char_u32_cast(c, unit as u32);
            assert(!is_surrogate(unit));
            assert(e.skip(1) =~= rest);
            assert(decode_utf16_lossy(e) == seq![c] + decode_utf16_lossy(rest));
        } else {
            let w = x - 0x10000;
            let hi = (0xD800 + w / 0x400) as u16;
            let lo = (0xDC00 + w % 0x400) as u16;
            assert(0 <= w / 0x400 <= 0x3FF && 0 <= w % 0x400 <= 0x3FF && (w / 0x400) * 0x400 + w % 0x400 == w) by (nonlinear_arith)
                requires 0 <= w <= 0xFFFFF;
            assert(e[0] == hi);
            assert(e[1] == lo);
            assert(is_high_surrogate(hi));
            assert(is_low_surrogate(lo));
            assert(pair_scalar(hi, lo) == x);
            vstd::utf8::char_u32_cast(c, pair_scalar(hi, lo));
            assert(e.skip(2) =~= rest);
            assert(decode_utf16_lossy(e) == seq![c] + decode_utf16_lossy(rest));
        }
        assert(seq![c] + t.skip(1) =~= t);
    }
}

/// Reading back what was written: the text `from_reg_bytes` decodes from the
/// bytes `utf16_bytes` stores for `s` is `s` without its trailing NULs.
pub proof fn lemma_registry_text_roundtrip(s: Seq<char>)
    ensures
        reg_text(reg_bytes(s)) == strip_nul_chars(s),
{
    lemma_le_roundtrip(encode_utf16(s).push(0u16));
    lemma_strip_zero_push(encode_utf16(s));
    lemma_strip_encoded(s);
    lemma_decode_encode(strip_nul_chars(s));
}

/// A value that passes `validate_value` comes back unchanged from the
/// registry encoding.
pub proof fn lemma_valid_value_roundtrip(s: Seq<char>)
    requires
        crate::env::env_value_error(s) is None,
    ensures
        reg_text(reg_bytes(s)) == s,
{
    lemma_registry_text_roundtrip(s);
    if s.len() > 0 && s.last() == '\0' {
        assert(s.contains(s[s.len() - 1]));
    }
}


/// The registry type a string value is stored with.
#[derive(Clone, Copy, Debug, PartialEq, Eq, Structural)]
pub enum RegValueType {
    /// `REG_SZ`: a plain string.
    Sz,
    /// `REG_EXPAND_SZ`: a string with `%NAME%` references.
    ExpandSz,
}

/// Values holding two `%` are stored expandable, others plain.
pub open spec fn value_type_for(value: Seq<char>) -> RegValueType {
    if count_percent(value) >= 2 {
        RegValueType::ExpandSz
    } else {
        RegValueType::Sz
    }
}

pub fn registry_value_type(value: &str) -> (res: RegValueType)
    ensures
        res == value_type_for(value@),
{
    if looks_expand(value) {
        RegValueType::ExpandSz
    } else {
        RegValueType::Sz
    }
}

/// The kind label of a listed registry value.
pub open spec fn kind_label(is_expand: bool) -> Seq<char> {
    if is_expand {
        "expand_sz"@
    } else {
        "sz"@
    }
}

/// A registry string value as listed: `None` when its name is empty,
/// otherwise its name, its text and its kind label.
pub open spec fn registry_entry_spec(name_units: Seq<u16>, data: Seq<u8>, is_expand: bool) -> Option<
    (Seq<char>, Seq<char>, Seq<char>),
> {
    let n = decode_utf16_lossy(name_units);
    if n.len() == 0 {
        None
    } else {
        Some((n, reg_text(data), kind_label(is_expand)))
    }
}

/// One string value read from an environment key: the UTF-16 name, the raw
/// data and whether it is `REG_EXPAND_SZ`.
pub fn registry_entry(name_units: &Vec<u16>, data: &[u8], is_expand: bool) -> (res: Option<
    (String, String, String),
>)
    ensures
        match res {
            Some((n, v, k)) => registry_entry_spec(name_units@, data@, is_expand) == Some((n@, v@, k@)),
            None => registry_entry_spec(name_units@, data@, is_expand) is None,
        },
{
    let n = decode_utf16_units(name_units);
    if n.len() == 0 {
        return None;
    }
    let v = from_reg_bytes(data);
    let k = if is_expand {
        String::from_str("expand_sz")
    } else {
        String::from_str("sz")
    };
    Some((string_from_chars(n.as_slice()), v, k))
}

/// The registry type codes of string values: `REG_SZ` and `REG_EXPAND_SZ`.
pub const REG_SZ: u32 = 1;

pub const REG_EXPAND_SZ: u32 = 2;

/// A value read from an environment key, whatever its registry type `ty`:
/// only string values (`REG_SZ`, `REG_EXPAND_SZ`) are listed, as
/// `registry_entry_spec` gives them.
pub open spec fn typed_entry_spec(name_units: Seq<u16>, data: Seq<u8>, ty: u32) -> Option<
    (Seq<char>, Seq<char>, Seq<char>),
> {
    if ty == REG_SZ || ty == REG_EXPAND_SZ {
        registry_entry_spec(name_units, data, ty == REG_EXPAND_SZ)
    } else {
        None
    }
}

/// The listed entry for a value of registry type `ty` (see
/// `typed_entry_spec`).
pub fn typed_registry_entry(name_units: &Vec<u16>, data: &[u8], ty: u32) -> (res: Option<(String, String, String)>)
    ensures
        match res {
            Some((n, v, k)) => typed_entry_spec(name_units@, data@, ty) == Some((n@, v@, k@)),
            None => typed_entry_spec(name_units@, data@, ty) is None,
        },
{
    if ty == REG_SZ || ty == REG_EXPAND_SZ {
        registry_entry(name_units, data, ty == REG_EXPAND_SZ)
    } else {
        None
    }
}

/// The registry hive that holds a scope's variables.
#[derive(Clone, Copy, Debug, PartialEq, Eq, Structural)]
pub enum RegRoot {
    /// `HKEY_CURRENT_USER`
    CurrentUser,
    /// `HKEY_LOCAL_MACHINE`
    LocalMachine,
}

/// Where a scope's variables are kept: the user's under
/// `HKCU\Environment`, the machine's under
/// `HKLM\SYSTEM\CurrentControlSet\Control\Session Manager\Environment`;
/// other scopes have none.
pub open spec fn registry_target_spec(scope: Seq<char>) -> Result<(RegRoot, Seq<char>), Seq<char>> {
    if scope == "user"@ {
        Ok((RegRoot::CurrentUser, "Environment"@))
    } else if scope == "machine"@ {
        Ok((RegRoot::LocalMachine, "SYSTEM\\CurrentControlSet\\Control\\Session Manager\\Environment"@))
    } else {
        Err(unknown_scope_msg(scope))
    }
}

/// The hive and key of a scope (see `registry_target_spec`).
pub fn registry_target(scope: &str) -> (res: Result<(RegRoot, String), String>)
    ensures
        match res {
            Ok((root, key)) => registry_target_spec(scope@) == Ok::<(RegRoot, Seq<char>), Seq<char>>((root, key@)),
            Err(e) => registry_target_spec(scope@) == Err::<(RegRoot, Seq<char>), Seq<char>>(e@),
        },
{
    let s = chars_of(scope);
    if chars_eq(s.as_slice(), chars_of("user").as_slice()) {
        Ok((RegRoot::CurrentUser, String::from_str("Environment")))
    } else if chars_eq(s.as_slice(), chars_of("machine").as_slice()) {
        Ok((
            RegRoot::LocalMachine,
            String::from_str("SYSTEM\\CurrentControlSet\\Control\\Session Manager\\Environment"),
        ))
    } else {
        Err(concat("未知范围: ", scope))
    }
}

} // verus!
