//! Environment variables: name and value rules, scopes, and listing,
//! reading, writing and deleting variables through the operations each
//! scope provides.
use vstd::prelude::*;
use crate::text::{chars_eq, chars_of, contains_char, string_from_chars, trim, trimmed};
use crate::sorting::{is_stable_order, key_lt, keys_view, lemma_stable_order_sorted, stable_order};
pub use crate::path_list::{join_path_value, split_path_value};

verus! {

/// Longest variable name accepted, in characters.
pub const MAX_NAME_CHARS: usize = 255;

/// Longest variable value accepted, in characters.
pub const MAX_VALUE_CHARS: usize = 32767;

/// One variable as listed to the user.
#[derive(Debug, Clone)]
pub struct EnvVarRow {
    pub name: String,
    /// `user`, `machine` or `process`.
    pub scope: String,
    /// `sz`, `expand_sz` or `process`.
    pub kind: String,
}

/// Characters a name may not hold.
pub open spec fn is_forbidden_name_char(c: char) -> bool {
    c == '=' || c == '\0' || c == '\n' || c == '\r'
}

/// The error `validate_env_name` reports for `name`, if any.
pub open spec fn env_name_error(name: Seq<char>) -> Option<Seq<char>> {
    let t = trim(name);
    if t.len() == 0 {
        Some("变量名不能为空"@)
    } else if t.len() > MAX_NAME_CHARS {
        Some("变量名不能超过 255 个字符"@)
    } else if exists|i: int| 0 <= i < t.len() && is_forbidden_name_char(#[trigger] t[i]) {
        Some("变量名不能包含 = 或换行"@)
    } else {
        None
    }
}

/// The error `validate_value` reports for `value`, if any.
pub open spec fn env_value_error(value: Seq<char>) -> Option<Seq<char>> {
    if value.len() > MAX_VALUE_CHARS {
        Some("变量值不能超过 32767 个字符"@)
    } else if value.contains('\0') {
        Some("变量值不能包含空字符"@)
    } else {
        None
    }
}

/// A value is accepted exactly when it has at most 32767 characters and no
/// NUL; any other character, `;` and `%` among them, is allowed.
pub proof fn lemma_value_rule(value: Seq<char>)
    ensures
        (env_value_error(value) is None) == (value.len() <= 32767 && !value.contains('\0')),
        env_value_error(value) is Some ==> env_value_error(value) == Some("变量值不能超过 32767 个字符"@)
            || env_value_error(value) == Some("变量值不能包含空字符"@),
{
}

/// A write with a valid name to a known scope is refused only for its
/// value, and then exactly when the value is too long or holds a NUL.
pub proof fn lemma_write_accepts_valid_values(scope: Seq<char>, name: Seq<char>, value: Seq<char>)
    requires
        env_name_error(name) is None,
        scope == "user"@ || scope == "machine"@ || scope == "process"@,
    ensures
        (write_change(scope, name, value) is Ok) == (value.len() <= 32767 && !value.contains('\0')),
{
}

/// `Ok` or `Err` with exactly the message `msg` describes.
pub open spec fn matches_error(res: Result<(), String>, msg: Option<Seq<char>>) -> bool {
    match res {
        Ok(()) => msg is None,
        Err(e) => msg == Some(e@),
    }
}

/// Checks a variable name: after trimming it must be non-empty, at most 255
/// characters long and free of `=`, NUL, CR and LF.
pub fn validate_env_name(name: &str) -> (res: Result<(), String>)
    ensures
        matches_error(res, env_name_error(name@)),
{
    let t = trimmed(name);
    if t.len() == 0 {
        return Err(String::from_str("变量名不能为空"));
    }
    if t.len() > MAX_NAME_CHARS {
        return Err(String::from_str("变量名不能超过 255 个字符"));
    }
    let mut i: usize = 0;
    while i < t.len()
        invariant
            t@ == trim(name@),
            0 < t.len() <= MAX_NAME_CHARS,
            i <= t.len(),
            forall|k: int| 0 <= k < i ==> !is_forbidden_name_char(#[trigger] t@[k]),
        decreases t.len() - i,
    {
        let c = t[i];
        if c == '=' || c == '\0' || c == '\n' || c == '\r' {
            assert(is_forbidden_name_char(trim(name@)[i as int]));
            assert(exists|j: int|
                0 <= j < trim(name@).len() && is_forbidden_name_char(#[trigger] trim(name@)[j]));
            return Err(String::from_str("变量名不能包含 = 或换行"));
        }
        i += 1;
    }
    Ok(())
}

/// Checks a variable value: at most 32767 characters and no NUL.
pub fn validate_value(value: &str) -> (res: Result<(), String>)
    ensures
        matches_error(res, env_value_error(value@)),
{
    let v = chars_of(value);
    if v.len() > MAX_VALUE_CHARS {
        return Err(String::from_str("变量值不能超过 32767 个字符"));
    }
    if contains_char(&v, '\0') {
        return Err(String::from_str("变量值不能包含空字符"));
    }
    Ok(())
}

/// Number of `%` signs in `s`.
pub open spec fn count_percent(s: Seq<char>) -> nat
    decreases s.len(),
{
    if s.len() == 0 {
        0
    } else {
        count_percent(s.drop_last()) + if s.last() == '%' { 1nat } else { 0nat }
    }
}

/// A value is stored as an expandable string when it holds two `%` signs
/// (`%NAME%` references).
pub fn looks_expand(value: &str) -> (res: bool)
    ensures
        res == (count_percent(value@) >= 2),
{
    let v = chars_of(value);
    let mut seen: usize = 0;
    let mut i: usize = 0;
    while i < v.len()
        invariant
            v@ == value@,
            i <= v.len(),
            seen <= 1,
            seen == count_percent(v@.take(i as int)),
        decreases v.len() - i,
    {
        assert(v@.take(i as int + 1).drop_last() == v@.take(i as int));
        if v[i] == '%' {
            if seen == 1 {
                proof { lemma_count_percent_prefix(v@, i as int + 1); }
                return true;
            }
            seen = 1;
        }
        i += 1;
    }
    assert(v@.take(v.len() as int) == v@);
    false
}

proof fn lemma_count_percent_prefix(s: Seq<char>, k: int)
    requires
        0 <= k <= s.len(),
    ensures
        count_percent(s.take(k)) <= count_percent(s),
    decreases s.len() - k,
{
    if k < s.len() {
        lemma_count_percent_prefix(s, k + 1);
        assert(s.take(k + 1).drop_last() == s.take(k));
    } else {
        assert(s.take(k) == s);
    }
}

/// Sort rank of a scope when rows share a name: user, machine, process, others.
pub open spec fn scope_rank_of(scope: Seq<char>) -> u8 {
    if scope == "user"@ {
        0
    } else if scope == "machine"@ {
        1
    } else if scope == "process"@ {
        2
    } else {
        9
    }
}

pub fn scope_rank(scope: &str) -> (res: u8)
    ensures
        res == scope_rank_of(scope@),
{
    let s = chars_of(scope);
    let user = chars_of("user");
    let machine = chars_of("machine");
    let process = chars_of("process");
    if chars_eq(&s, &user) {
        0
    } else if chars_eq(&s, &machine) {
        1
    } else if chars_eq(&s, &process) {
        2
    } else {
        9
    }
}

/// ASCII upper case letters become lower case; every other character is kept.
pub open spec fn ascii_lower(c: char) -> char {
    if 'A' <= c && c <= 'Z' {
        ((c as u32) + 32) as char
    } else {
        c
    }
}

pub fn ascii_lower_char(c: char) -> (res: char)
    ensures
        res == ascii_lower(c),
{
    if 'A' <= c && c <= 'Z' {
        ((c as u8) + 32) as char
    } else {
        c
    }
}

/// `s` with ASCII letters lowered (`str::to_ascii_lowercase`).
pub open spec fn ascii_lower_seq(s: Seq<char>) -> Seq<char> {
    s.map_values(|c: char| ascii_lower(c))
}

pub fn ascii_lower_chars(v: &Vec<char>) -> (res: Vec<char>)
    ensures
        res@ == ascii_lower_seq(v@),
{
    let mut out: Vec<char> = Vec::new();
    let mut i: usize = 0;
    while i < v.len()
        invariant
            i <= v.len(),
            out@ == ascii_lower_seq(v@.take(i as int)),
        decreases v.len() - i,
    {
        out.push(ascii_lower_char(v[i]));
        i += 1;
        assert(ascii_lower_seq(v@.take(i as int)) =~= ascii_lower_seq(v@.take(i - 1 as int)).push(
            ascii_lower(v@[i - 1]),
        ));
    }
    assert(v@.take(v.len() as int) == v@);
    out
}

/// Variable names compare as Windows compares them: ASCII letters ignore case.
pub open spec fn env_names_equal(a: Seq<char>, b: Seq<char>) -> bool {
    ascii_lower_seq(a) == ascii_lower_seq(b)
}

pub fn env_name_eq(a: &str, b: &str) -> (res: bool)
    ensures
        res == env_names_equal(a@, b@),
{
    let la = ascii_lower_chars(&chars_of(a));
    let lb = ascii_lower_chars(&chars_of(b));
    chars_eq(&la, &lb)
}


/// Where a variable lives.
#[derive(Clone, Copy, Debug, PartialEq, Eq, Structural)]
pub enum EnvScope {
    /// The current user's variables (`HKCU\Environment`).
    User,
    /// System-wide variables (`HKLM\...\Session Manager\Environment`).
    Machine,
    /// This process's own environment.
    Process,
}

/// The scope a scope name stands for: `user`, `machine` or `process`.
pub open spec fn scope_of(s: Seq<char>) -> Option<EnvScope> {
    if s == "user"@ {
        Some(EnvScope::User)
    } else if s == "machine"@ {
        Some(EnvScope::Machine)
    } else if s == "process"@ {
        Some(EnvScope::Process)
    } else {
        None
    }
}

/// The name of a scope.
pub open spec fn scope_name(sc: EnvScope) -> Seq<char> {
    match sc {
        EnvScope::User => "user"@,
        EnvScope::Machine => "machine"@,
        EnvScope::Process => "process"@,
    }
}

/// The message for a scope name that is none of the three.
pub open spec fn unknown_scope_msg(scope: Seq<char>) -> Seq<char> {
    "未知范围: "@ + scope
}

/// Parses a scope name.
pub fn parse_scope(scope: &str) -> (res: Option<EnvScope>)
    ensures
        res == scope_of(scope@),
{
    let s = chars_of(scope);
    if chars_eq(&s, &chars_of("user")) {
        Some(EnvScope::User)
    } else if chars_eq(&s, &chars_of("machine")) {
        Some(EnvScope::Machine)
    } else if chars_eq(&s, &chars_of("process")) {
        Some(EnvScope::Process)
    } else {
        None
    }
}

/// The name of a scope as a `String`.
pub fn scope_label(sc: EnvScope) -> (res: String)
    ensures
        res@ == scope_name(sc),
{
    match sc {
        EnvScope::User => String::from_str("user"),
        EnvScope::Machine => String::from_str("machine"),
        EnvScope::Process => String::from_str("process"),
    }
}

fn unknown_scope(scope: &str) -> (res: String)
    ensures
        res@ == unknown_scope_msg(scope@),
{
    let mut m = String::from_str("未知范围: ");
    m.append(scope);
    m
}

/// What a write is checked against, in order: the name, the value, the
/// scope. `Ok` holds the scope the write goes to.
pub open spec fn write_check(scope: Seq<char>, name: Seq<char>, value: Seq<char>) -> Result<EnvScope, Seq<char>> {
    match env_name_error(name) {
        Some(m) => Err(m),
        None => match env_value_error(value) {
            Some(m) => Err(m),
            None => match scope_of(scope) {
                None => Err(unknown_scope_msg(scope)),
                Some(sc) => Ok(sc),
            },
        },
    }
}

/// What a deletion is checked against, in order: the name, the scope.
pub open spec fn delete_check(scope: Seq<char>, name: Seq<char>) -> Result<EnvScope, Seq<char>> {
    match env_name_error(name) {
        Some(m) => Err(m),
        None => match scope_of(scope) {
            None => Err(unknown_scope_msg(scope)),
            Some(sc) => Ok(sc),
        },
    }
}

/// A checked change to make to one scope: set `name` to `value`, or remove
/// it where `value` is `None`.
#[derive(Debug)]
pub struct EnvChange {
    pub scope: EnvScope,
    pub name: String,
    pub value: Option<String>,
}

pub open spec fn change_view(c: EnvChange) -> (EnvScope, Seq<char>, Option<Seq<char>>) {
    (
        c.scope,
        c.name@,
        match c.value {
            Some(v) => Some(v@),
            None => None,
        },
    )
}

pub open spec fn change_result_view(r: Result<EnvChange, String>) -> Result<
    (EnvScope, Seq<char>, Option<Seq<char>>),
    Seq<char>,
> {
    match r {
        Ok(c) => Ok(change_view(c)),
        Err(e) => Err(e@),
    }
}

/// The change a write asks for: after `write_check`, set the trimmed name
/// to the value in the checked scope.
pub open spec fn write_change(scope: Seq<char>, name: Seq<char>, value: Seq<char>) -> Result<
    (EnvScope, Seq<char>, Option<Seq<char>>),
    Seq<char>,
> {
    match write_check(scope, name, value) {
        Err(m) => Err(m),
        Ok(sc) => Ok((sc, trim(name), Some(value))),
    }
}

/// The change a deletion asks for: after `delete_check`, remove the
/// trimmed name from the checked scope.
pub open spec fn delete_change(scope: Seq<char>, name: Seq<char>) -> Result<
    (EnvScope, Seq<char>, Option<Seq<char>>),
    Seq<char>,
> {
    match delete_check(scope, name) {
        Err(m) => Err(m),
        Ok(sc) => Ok((sc, trim(name), None)),
    }
}

/// Checks a write of `value` to variable `name` in `scope` and returns the
/// change to make (see `write_change`); nothing is changed here.
pub fn write_scope(scope: &str, name: &str, value: &str) -> (res: Result<EnvChange, String>)
    ensures
        change_result_view(res) == write_change(scope@, name@, value@),
{
    validate_env_name(name)?;
    validate_value(value)?;
    let n = string_from_chars(trimmed(name).as_slice());
    match parse_scope(scope) {
        None => Err(unknown_scope(scope)),
        Some(sc) => Ok(EnvChange { scope: sc, name: n, value: Some(String::from_str(value)) }),
    }
}

/// Checks the deletion of variable `name` from `scope` and returns the
/// change to make (see `delete_change`); nothing is changed here.
pub fn delete_scope(scope: &str, name: &str) -> (res: Result<EnvChange, String>)
    ensures
        change_result_view(res) == delete_change(scope@, name@),
{
    validate_env_name(name)?;
    let n = string_from_chars(trimmed(name).as_slice());
    match parse_scope(scope) {
        None => Err(unknown_scope(scope)),
        Some(sc) => Ok(EnvChange { scope: sc, name: n, value: None }),
    }
}

/// `upsert_env_var` command: `write_scope` with owned arguments.
pub fn upsert_env_var(name: String, scope: String, value: String) -> (res: Result<EnvChange, String>)
    ensures
        change_result_view(res) == write_change(scope@, name@, value@),
{
    write_scope(scope.as_str(), name.as_str(), value.as_str())
}

/// `delete_env_var` command: `delete_scope` with owned arguments.
pub fn delete_env_var(name: String, scope: String) -> (res: Result<EnvChange, String>)
    ensures
        change_result_view(res) == delete_change(scope@, name@),
{
    delete_scope(scope.as_str(), name.as_str())
}

/// The message for a variable that is not there.
pub open spec fn missing_var_msg(name: Seq<char>) -> Seq<char> {
    "变量不存在: "@ + name
}

/// The value of the first pair whose name equals `name` (ignoring ASCII
/// case), or the missing-variable message.
pub open spec fn lookup_spec(pairs: Seq<(Seq<char>, Seq<char>)>, name: Seq<char>) -> Result<Seq<char>, Seq<char>>
    decreases pairs.len(),
{
    if pairs.len() == 0 {
        Err(missing_var_msg(name))
    } else if env_names_equal(pairs[0].0, name) {
        Ok(pairs[0].1)
    } else {
        lookup_spec(pairs.drop_first(), name)
    }
}

/// A process environment after variable `n` is set to `v`: every variable
/// of that name (ASCII case ignored) is replaced by the new one.
pub open spec fn set_env_var(env: Seq<(Seq<char>, Seq<char>)>, n: Seq<char>, v: Seq<char>) -> Seq<(Seq<char>, Seq<char>)> {
    without_var(env, n).push((n, v))
}

/// `env` without the variables named `n` (ASCII case ignored).
pub open spec fn without_var(env: Seq<(Seq<char>, Seq<char>)>, n: Seq<char>) -> Seq<(Seq<char>, Seq<char>)>
    decreases env.len(),
{
    if env.len() == 0 {
        env
    } else {
        let rest = without_var(env.drop_last(), n);
        if env_names_equal(env.last().0, n) {
            rest
        } else {
            rest.push(env.last())
        }
    }
}

proof fn lemma_without_var(env: Seq<(Seq<char>, Seq<char>)>, n: Seq<char>)
    ensures
        forall|i: int| 0 <= i < without_var(env, n).len() ==> !env_names_equal(#[trigger] without_var(env, n)[i].0, n),
    decreases env.len(),
{
    if env.len() > 0 {
        lemma_without_var(env.drop_last(), n);
        let rest = without_var(env.drop_last(), n);
        if !env_names_equal(env.last().0, n) {
            assert forall|i: int| 0 <= i < rest.push(env.last()).len() implies !env_names_equal(
                #[trigger] rest.push(env.last())[i].0,
                n,
            ) by {
                if i < rest.len() {
                    assert(rest.push(env.last())[i] == rest[i]);
                }
            }
        }
    }
}

proof fn lemma_lookup_last(s: Seq<(Seq<char>, Seq<char>)>, n: Seq<char>, v: Seq<char>)
    requires
        forall|i: int| 0 <= i < s.len() ==> !env_names_equal(#[trigger] s[i].0, n),
    ensures
        lookup_spec(s.push((n, v)), n) == Ok::<Seq<char>, Seq<char>>(v),
    decreases s.len(),
{
    if s.len() > 0 {
        assert(s.push((n, v)).drop_first() == s.drop_first().push((n, v)));
        assert forall|i: int| 0 <= i < s.drop_first().len() implies !env_names_equal(#[trigger] s.drop_first()[i].0, n) by {
            assert(s.drop_first()[i] == s[i + 1]);
        }
        lemma_lookup_last(s.drop_first(), n, v);
        assert(!env_names_equal(s[0].0, n));
    }
}

/// A value written to the process scope reads back: the change a valid
/// write to `process` asks for sets the trimmed name to the value, and once
/// it is made to the process environment, looking that name up gives the
/// value.
pub proof fn lemma_process_write_reads_back(
    env: Seq<(Seq<char>, Seq<char>)>,
    scope: Seq<char>,
    name: Seq<char>,
    value: Seq<char>,
)
    requires
        write_check(scope, name, value) == Ok::<EnvScope, Seq<char>>(EnvScope::Process),
    ensures
        write_change(scope, name, value) == Ok::<(EnvScope, Seq<char>, Option<Seq<char>>), Seq<char>>(
            (EnvScope::Process, trim(name), Some(value)),
        ),
        lookup_spec(set_env_var(env, trim(name), value), trim(name)) == Ok::<Seq<char>, Seq<char>>(value),
{
    lemma_without_var(env, trim(name));
    lemma_lookup_last(without_var(env, trim(name)), trim(name), value);
}

pub open spec fn pair_views(v: Seq<(String, String)>) -> Seq<(Seq<char>, Seq<char>)> {
    v.map_values(|p: (String, String)| (p.0@, p.1@))
}

pub open spec fn result_view(r: Result<String, String>) -> Result<Seq<char>, Seq<char>> {
    match r {
        Ok(s) => Ok(s@),
        Err(e) => Err(e@),
    }
}

/// Finds variable `name` among `(name, value)` pairs.
pub fn find_env_value(pairs: &Vec<(String, String)>, name: &str) -> (res: Result<String, String>)
    ensures
        result_view(res) == lookup_spec(pair_views(pairs@), name@),
{
    let ghost pv = pair_views(pairs@);
    let mut i: usize = 0;
    assert(pv.skip(0) == pv);
    while i < pairs.len()
        invariant
            i <= pairs.len(),
            pv == pair_views(pairs@),
            lookup_spec(pv.skip(i as int), name@) == lookup_spec(pv, name@),
        decreases pairs.len() - i,
    {
        let ghost rest = pv.skip(i as int);
        assert(rest[0] == (pairs@[i as int].0@, pairs@[i as int].1@));
        if env_name_eq(pairs[i].0.as_str(), name) {
            return Ok(pairs[i].1.clone());
        }
        assert(rest.drop_first() == pv.skip(i + 1));
        i += 1;
    }
    assert(pv.skip(i as int) =~= Seq::<(Seq<char>, Seq<char>)>::empty());
    let mut m = String::from_str("变量不存在: ");
    m.append(name);
    Err(m)
}

/// The process variable `name`, from the process environment `vars`.
pub fn read_process_value(vars: &Vec<(String, String)>, name: &str) -> (res: Result<String, String>)
    ensures
        result_view(res) == lookup_spec(pair_views(vars@), name@),
{
    find_env_value(vars, name)
}

/// The `(name, value)` pairs of registry entries `(name, value, kind)`.
pub open spec fn entry_pairs(entries: Seq<(String, String, String)>) -> Seq<(Seq<char>, Seq<char>)> {
    entries.map_values(|e: (String, String, String)| (e.0@, e.1@))
}

/// The registry variable `name`, from the `(name, value, kind)` entries of
/// its key.
pub fn read_registry_value(entries: &Vec<(String, String, String)>, name: &str) -> (res: Result<String, String>)
    ensures
        result_view(res) == lookup_spec(entry_pairs(entries@), name@),
{
    let mut pairs: Vec<(String, String)> = Vec::new();
    let mut i: usize = 0;
    while i < entries.len()
        invariant
            i <= entries.len(),
            pair_views(pairs@) == entry_pairs(entries@.take(i as int)),
        decreases entries.len() - i,
    {
        let a = entries[i].0.clone();
        let b = entries[i].1.clone();
        let ghost before = pairs@;
        pairs.push((a, b));
        assert(pairs@ == before.push((a, b)));
        assert(pair_views(pairs@) =~= pair_views(before).push((a@, b@)));
        assert(entries@.take(i + 1) == entries@.take(i as int).push(entries@[i as int]));
        assert(entry_pairs(entries@.take(i + 1)) =~= entry_pairs(entries@.take(i as int)).push((entries@[i as int].0@, entries@[i as int].1@)));
        i += 1;
        assert(pair_views(pairs@) =~= entry_pairs(entries@.take(i as int)));
    }
    assert(entries@.take(entries.len() as int) == entries@);
    find_env_value(&pairs, name)
}

/// What `get_env_value` checks before reading: the name, then the scope.
pub open spec fn read_check(scope: Seq<char>, name: Seq<char>) -> Result<EnvScope, Seq<char>> {
    delete_check(scope, name)
}

/// Reads variable `name` from `scope` after checking the name; the read
/// itself is `read`, called with the scope and the name as given.
pub fn get_env_value(
    name: String,
    scope: String,
    read: impl FnOnce(EnvScope, String) -> Result<String, String>,
) -> (res: Result<String, String>)
    requires
        forall|sc: EnvScope, n: String| read.requires((sc, n)),
    ensures
        match read_check(scope@, name@) {
            Err(m) => res matches Err(e) && e@ == m,
            Ok(sc) => read.ensures((sc, name), res),
        },
{
    validate_env_name(name.as_str())?;
    match parse_scope(scope.as_str()) {
        None => Err(unknown_scope(scope.as_str())),
        Some(sc) => read(sc, name),
    }
}


pub fn clone_row(r: &EnvVarRow) -> (res: EnvVarRow)
    ensures
        res == *r,
{
    EnvVarRow { name: r.name.clone(), scope: r.scope.clone(), kind: r.kind.clone() }
}

/// The sort key of a row: its name with ASCII letters lowered, then the rank
/// of its scope.
pub open spec fn row_key(r: EnvVarRow) -> (Seq<char>, u64) {
    (ascii_lower_seq(r.name@), scope_rank_of(r.scope@) as u64)
}

pub open spec fn row_keys(rows: Seq<EnvVarRow>) -> Seq<(Seq<char>, u64)> {
    rows.map_values(|r: EnvVarRow| row_key(r))
}

/// `out` is `rows` stably sorted by `row_key`.
pub open spec fn rows_sorted_from(rows: Seq<EnvVarRow>, out: Seq<EnvVarRow>) -> bool {
    exists|p: Seq<usize>|
        #[trigger] is_stable_order(row_keys(rows), p) && out.len() == rows.len() && forall|i: int|
            0 <= i < out.len() ==> out[i] == rows[#[trigger] p[i] as int]
}

/// Sorts rows by name (ASCII case ignored), rows of one name by scope (user,
/// machine, process); otherwise keeps their order.
pub fn sort_env_rows(rows: &Vec<EnvVarRow>) -> (res: Vec<EnvVarRow>)
    ensures
        rows_sorted_from(rows@, res@),
{
    let mut keys: Vec<(Vec<char>, u64)> = Vec::new();
    let mut i: usize = 0;
    while i < rows.len()
        invariant
            i <= rows.len(),
            keys_view(keys@) == row_keys(rows@.take(i as int)),
        decreases rows.len() - i,
    {
        let name = ascii_lower_chars(&chars_of(rows[i].name.as_str()));
        let rank = scope_rank(rows[i].scope.as_str()) as u64;
        let ghost before = keys@;
        keys.push((name, rank));
        assert(keys_view(keys@) =~= keys_view(before).push((name@, rank)));
        assert(rows@.take(i + 1) == rows@.take(i as int).push(rows@[i as int]));
        assert(row_keys(rows@.take(i + 1)) =~= row_keys(rows@.take(i as int)).push(row_key(rows@[i as int])));
        i += 1;
    }
    assert(rows@.take(rows.len() as int) == rows@);
    let p = stable_order(&keys);
    let mut out: Vec<EnvVarRow> = Vec::new();
    let mut j: usize = 0;
    while j < p.len()
        invariant
            j <= p.len(),
            is_stable_order(row_keys(rows@), p@),
            rows.len() == p.len(),
            out.len() == j,
            forall|k: int| 0 <= k < j ==> out@[k] == rows@[p@[k] as int],
        decreases p.len() - j,
    {
        assert(p@[j as int] < rows.len());
        out.push(clone_row(&rows[p[j]]));
        j += 1;
    }
    assert(is_stable_order(row_keys(rows@), p@));
    out
}

/// Sorted rows come by name (ASCII case ignored), then scope; rows that
/// tie keep their order.
pub proof fn lemma_env_rows_sorted(rows: Seq<EnvVarRow>, out: Seq<EnvVarRow>)
    requires
        rows_sorted_from(rows, out),
    ensures
        forall|i: int, j: int| 0 <= i < j < out.len() ==> !key_lt(row_key(#[trigger] out[j]), row_key(#[trigger] out[i])),
{
    let p = choose|p: Seq<usize>|
        #[trigger] is_stable_order(row_keys(rows), p) && out.len() == rows.len() && forall|i: int|
            0 <= i < out.len() ==> out[i] == rows[#[trigger] p[i] as int];
    lemma_stable_order_sorted(row_keys(rows), p);
    assert forall|i: int, j: int| 0 <= i < j < out.len() implies !key_lt(row_key(#[trigger] out[j]), row_key(#[trigger] out[i])) by {
        assert(out[i] == rows[p[i] as int]);
        assert(out[j] == rows[p[j] as int]);
        assert(row_keys(rows)[p[i] as int] == row_key(rows[p[i] as int]));
        assert(row_keys(rows)[p[j] as int] == row_key(rows[p[j] as int]));
    }
}

/// The rows of a registry scope from its string values (name, text, kind
/// label), in the order read.
pub fn list_registry_scope(scope: &str, entries: &Vec<(String, String, String)>) -> (res: Vec<EnvVarRow>)
    ensures
        res.len() == entries.len(),
        forall|i: int|
            0 <= i < entries.len() ==> (#[trigger] res@[i]).name@ == entries@[i].0@ && res@[i].scope@ == scope@
                && res@[i].kind@ == entries@[i].2@,
{
    let mut out: Vec<EnvVarRow> = Vec::new();
    let mut i: usize = 0;
    while i < entries.len()
        invariant
            i <= entries.len(),
            out.len() == i,
            forall|j: int|
                0 <= j < i ==> (#[trigger] out@[j]).name@ == entries@[j].0@ && out@[j].scope@ == scope@
                    && out@[j].kind@ == entries@[j].2@,
        decreases entries.len() - i,
    {
        out.push(
            EnvVarRow {
                name: entries[i].0.clone(),
                scope: String::from_str(scope),
                kind: entries[i].2.clone(),
            },
        );
        i += 1;
    }
    out
}

/// All rows of `batches`, in order.
pub open spec fn flatten_rows(batches: Seq<Vec<EnvVarRow>>) -> Seq<EnvVarRow>
    decreases batches.len(),
{
    if batches.len() == 0 {
        Seq::<EnvVarRow>::empty()
    } else {
        flatten_rows(batches.drop_last()) + batches.last()@
    }
}

/// How `list_env_vars` may fail: at some position `k` every earlier scope
/// name is known, and position `k` holds an unknown name or a listing that
/// failed with `e`.
pub open spec fn list_failure(
    scopes: Seq<String>,
    list: impl Fn(EnvScope) -> Result<Vec<EnvVarRow>, String>,
    e: Seq<char>,
) -> bool {
    exists|k: int|
        0 <= k < scopes.len() && (forall|j: int| 0 <= j < k ==> (#[trigger] scope_of(scopes[j]@)) is Some)
            && match scope_of(#[trigger] scopes[k]@) {
            None => e == unknown_scope_msg(scopes[k]@),
            Some(sc) => exists|err: String| err@ == e && #[trigger] list.ensures((sc,), Err(err)),
        }
}

/// `out` is `raw` with every row's scope set to the name of `sc`.
pub open spec fn relabeled(raw: Seq<EnvVarRow>, out: Seq<EnvVarRow>, sc: EnvScope) -> bool {
    &&& out.len() == raw.len()
    &&& forall|i: int|
        0 <= i < out.len() ==> (#[trigger] out[i]).name == raw[i].name && out[i].kind == raw[i].kind
            && out[i].scope@ == scope_name(sc)
}

/// The row's scope is one of `scopes`.
pub open spec fn scope_listed(scopes: Seq<String>, r: EnvVarRow) -> bool {
    exists|k: int| 0 <= k < scopes.len() && r.scope@ == (#[trigger] scopes[k])@
}

fn relabel(batch: Vec<EnvVarRow>, sc: EnvScope) -> (res: Vec<EnvVarRow>)
    ensures
        relabeled(batch@, res@, sc),
{
    let mut out: Vec<EnvVarRow> = Vec::new();
    let mut i: usize = 0;
    while i < batch.len()
        invariant
            i <= batch.len(),
            relabeled(batch@.take(i as int), out@, sc),
        decreases batch.len() - i,
    {
        let r = &batch[i];
        out.push(EnvVarRow { name: r.name.clone(), scope: scope_label(sc), kind: r.kind.clone() });
        i += 1;
    }
    assert(batch@.take(batch.len() as int) =~= batch@);
    out
}

/// Lists the variables of each scope named in `scopes` (`user`, `machine`,
/// `process`; any other name is an error), each row labelled with the scope
/// it was listed for, then sorts all rows with `sort_env_rows`. The listing
/// of one scope is `list`.
pub fn list_env_vars(
    scopes: &Vec<String>,
    list: impl Fn(EnvScope) -> Result<Vec<EnvVarRow>, String>,
) -> (res: Result<Vec<EnvVarRow>, String>)
    requires
        forall|sc: EnvScope| list.requires((sc,)),
    ensures
        match res {
            Ok(rows) => (exists|raws: Seq<Vec<EnvVarRow>>, batches: Seq<Vec<EnvVarRow>>|
                #![trigger raws.len(), batches.len()]
                raws.len() == batches.len() && batches.len() == scopes.len() && (forall|k: int|
                    0 <= k < scopes.len() ==> (#[trigger] scope_of(scopes@[k]@)) is Some && list.ensures(
                        (scope_of(scopes@[k]@)->Some_0,),
                        Ok(raws[k]),
                    ) && relabeled(raws[k]@, batches[k]@, scope_of(scopes@[k]@)->Some_0)) && rows_sorted_from(
                    flatten_rows(batches),
                    rows@,
                )) && forall|i: int| 0 <= i < rows.len() ==> scope_listed(scopes@, #[trigger] rows@[i]),
            Err(e) => list_failure(scopes@, list, e@),
        },
{
    let mut rows: Vec<EnvVarRow> = Vec::new();
    let ghost mut raws: Seq<Vec<EnvVarRow>> = Seq::empty();
    let ghost mut batches: Seq<Vec<EnvVarRow>> = Seq::empty();
    let mut k: usize = 0;
    while k < scopes.len()
        invariant
            k <= scopes.len(),
            forall|sc: EnvScope| list.requires((sc,)),
            batches.len() == k,
            raws.len() == k,
            forall|j: int|
                0 <= j < k ==> (#[trigger] scope_of(scopes@[j]@)) is Some && list.ensures(
                    (scope_of(scopes@[j]@)->Some_0,),
                    Ok(raws[j]),
                ) && relabeled(raws[j]@, batches[j]@, scope_of(scopes@[j]@)->Some_0),
            rows@ == flatten_rows(batches),
            forall|i: int| 0 <= i < rows.len() ==> scope_listed(scopes@, #[trigger] rows@[i]),
        decreases scopes.len() - k,
    {
        match parse_scope(scopes[k].as_str()) {
            None => {
                let e = unknown_scope(scopes[k].as_str());
                assert(list_failure(scopes@, list, e@)) by {
                    assert(scope_of(scopes@[k as int]@) is None);
                }
                return Err(e);
            },
            Some(sc) => {
                match list(sc) {
                    Err(e) => {
                        assert(list_failure(scopes@, list, e@)) by {
                            assert(scope_of(scopes@[k as int]@) == Some(sc));
                        }
                        return Err(e);
                    },
                    Ok(raw) => {
                        let ghost r0 = raw;
                        let mut batch = relabel(raw, sc);
                        let ghost b = batch;
                        let ghost before = rows@;
                        assert(scope_name(sc) == scopes@[k as int]@);
                        rows.append(&mut batch);
                        proof {
                            assert forall|i: int| 0 <= i < rows.len() implies scope_listed(scopes@, #[trigger] rows@[i]) by {
                                if i >= before.len() {
                                    assert(rows@[i] == b@[i - before.len()]);
                                    assert(scopes@[k as int]@ == rows@[i].scope@);
                                } else {
                                    assert(rows@[i] == before[i]);
                                }
                            }
                            let nb = batches.push(b);
                            assert(nb.drop_last() == batches);
                            batches = nb;
                            raws = raws.push(r0);
                        }
                    },
                }
            },
        }
        k += 1;
    }
    let sorted = sort_env_rows(&rows);
    proof {
        let p = choose|p: Seq<usize>|
            #[trigger] is_stable_order(row_keys(rows@), p) && sorted@.len() == rows@.len() && forall|i: int|
                0 <= i < sorted@.len() ==> sorted@[i] == rows@[#[trigger] p[i] as int];
        assert forall|i: int| 0 <= i < sorted.len() implies scope_listed(scopes@, #[trigger] sorted@[i]) by {
            assert(sorted@[i] == rows@[p[i] as int]);
        }
    }
    Ok(sorted)
}

/// Whether a process variable name is listed: it is not empty and does not
/// start with `=` (the hidden per-drive directory entries on Windows).
pub open spec fn listed_process_name(n: Seq<char>) -> bool {
    n.len() > 0 && n[0] != '='
}

/// The rows of the process scope, for the names of the process environment.
pub open spec fn process_rows_spec(names: Seq<Seq<char>>) -> Seq<Seq<char>>
    decreases names.len(),
{
    if names.len() == 0 {
        Seq::<Seq<char>>::empty()
    } else {
        let r = process_rows_spec(names.drop_last());
        if listed_process_name(names.last()) {
            r.push(names.last())
        } else {
            r
        }
    }
}

/// The names of rows.
pub open spec fn row_names(rows: Seq<EnvVarRow>) -> Seq<Seq<char>> {
    rows.map_values(|r: EnvVarRow| r.name@)
}

/// One row per listed process variable name, with scope and kind `process`.
pub fn list_process_scope(names: &Vec<String>) -> (res: Vec<EnvVarRow>)
    ensures
        row_names(res@) == process_rows_spec(crate::path_list::views(names@)),
        forall|i: int| 0 <= i < res.len() ==> (#[trigger] res@[i]).scope@ == "process"@ && res@[i].kind@ == "process"@,
{
    let mut out: Vec<EnvVarRow> = Vec::new();
    let mut i: usize = 0;
    while i < names.len()
        invariant
            i <= names.len(),
            row_names(out@) == process_rows_spec(crate::path_list::views(names@.take(i as int))),
            forall|j: int| 0 <= j < out.len() ==> (#[trigger] out@[j]).scope@ == "process"@ && out@[j].kind@ == "process"@,
        decreases names.len() - i,
    {
        let n = chars_of(names[i].as_str());
        let ghost before = out@;
        let ghost vs = crate::path_list::views(names@.take(i + 1));
        assert(names@.take(i + 1) == names@.take(i as int).push(names@[i as int]));
        assert(vs =~= crate::path_list::views(names@.take(i as int)).push(names@[i as int]@));
        assert(vs.drop_last() == crate::path_list::views(names@.take(i as int)));
        assert(vs.last() == n@);
        if n.len() > 0 && n[0] != '=' {
            let row = EnvVarRow {
                name: names[i].clone(),
                scope: String::from_str("process"),
                kind: String::from_str("process"),
            };
            out.push(row);
            assert(row_names(out@) =~= row_names(before).push(n@));
        }
        assert(row_names(out@) =~= process_rows_spec(vs));
        i += 1;
    }
    assert(names@.take(names.len() as int) == names@);
    out
}

} // verus!
