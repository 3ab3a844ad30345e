//! Portable paths: an item stored with an absolute path can also remember
//! where it sits below one of the configured root folders, so it can still be
//! found after the roots move (for example a USB drive with another letter).
use vstd::prelude::*;
use crate::text::{
    chars_eq, chars_of, lower_chars, seq_starts_with, slice_chars, starts_with_chars, starts_with_str, str_lowercase,
    string_from_chars, to_lowercase, trim, trimmed, utf8_len, utf8_len_of,
};
use crate::path_list::views;
use crate::paths::{path_eq_spec, path_exists, path_join, path_join_spec, paths_equal};

verus! {

/// Where an absolute path lies below one of the roots.
#[derive(Debug, Clone)]
pub struct RelPathResult {
    pub rel_path: Option<String>,
    pub root_hint: Option<String>,
}

/// The path an item resolves to, if any.
#[derive(Debug, Clone)]
pub enum ResolveEffectivePathResult {
    Found { path: String, used_relative: bool },
    Missing,
}

/// One stored item to check.
#[derive(Debug, Clone)]
pub struct PathCheckItem {
    pub id: String,
    /// `launcher`, `file`, `folder` or `url`.
    pub kind: String,
    pub path: String,
    pub rel_path: Option<String>,
    pub root_hint: Option<String>,
}

/// The outcome of checking one item.
#[derive(Debug, Clone)]
pub struct PathCheckResult {
    pub id: String,
    /// `ok`, `recoverable`, `missing` or `skipped`.
    pub status: String,
    pub resolved: Option<String>,
}

pub open spec fn opt_view(o: Option<String>) -> Option<Seq<char>> {
    match o {
        Some(s) => Some(s@),
        None => None,
    }
}

pub open spec fn is_sep(c: char) -> bool {
    c == '\\' || c == '/'
}

/// `s` with every `/` turned into `\`.
pub open spec fn slashify(s: Seq<char>) -> Seq<char> {
    s.map_values(|c: char| if c == '/' { '\\' } else { c })
}

/// `s` without its trailing backslashes.
pub open spec fn strip_trailing_backslashes(s: Seq<char>) -> Seq<char>
    decreases s.len(),
{
    if s.len() > 0 && s.last() == '\\' {
        strip_trailing_backslashes(s.drop_last())
    } else {
        s
    }
}

/// Whether one of the segments of `s` between `\` or `/` is `..`.
pub open spec fn has_dotdot_segment(s: Seq<char>) -> bool {
    exists|i: int|
        0 <= i && i + 1 < s.len() && #[trigger] s[i] == '.' && s[i + 1] == '.' && (i == 0 || is_sep(
            s[i - 1],
        )) && (i + 2 == s.len() || is_sep(s[i + 2]))
}

/// Where a root ends in the slashified path `a`: the first index from `j`
/// on that holds a `\` and whose text before it lower-cases to `key`.
pub open spec fn root_end(a: Seq<char>, key: Seq<char>, j: int) -> Option<int>
    decreases a.len() - j,
{
    if j < 0 || j >= a.len() {
        None
    } else if a[j] == '\\' && str_lowercase(a.take(j)) == key {
        Some(j)
    } else {
        root_end(a, key, j + 1)
    }
}

proof fn lemma_root_end(a: Seq<char>, key: Seq<char>, j: int)
    requires
        root_end(a, key, j) is Some,
    ensures
        j <= root_end(a, key, j)->Some_0 < a.len(),
        a[root_end(a, key, j)->Some_0] == '\\',
        str_lowercase(a.take(root_end(a, key, j)->Some_0)) == key,
    decreases a.len() - j,
{
    if !(a[j] == '\\' && str_lowercase(a.take(j)) == key) {
        lemma_root_end(a, key, j + 1);
    }
}

/// A root as it is matched: separators as `\`, trailing `\` removed.
pub open spec fn root_core(root: Seq<char>) -> Seq<char> {
    strip_trailing_backslashes(slashify(root))
}

/// When the slashified path `a` lies strictly below `root` (comparing lower
/// case), the relative part, the root as matched, and the byte length of the
/// lower-cased root (the longer the root, the better the match). The
/// relative part is what follows the `\` where the root ends in `a`
/// (`root_end`), so that `a` is the root's text as `a` spells it, `\`, and
/// the relative part.
pub open spec fn rel_candidate(a: Seq<char>, root: Seq<char>) -> Option<(Seq<char>, Seq<char>, nat)> {
    let core = root_core(root);
    let key = str_lowercase(core);
    let prefix = key.push('\\');
    let abs_key = str_lowercase(a);
    if core.len() == 0 {
        None
    } else if !(utf8_len(abs_key) > utf8_len(prefix) && seq_starts_with(abs_key, prefix)) {
        None
    } else {
        match root_end(a, key, 0) {
            None => None,
            Some(i) => {
                let rel = a.skip(i + 1);
                if rel.len() == 0 || has_dotdot_segment(rel) {
                    None
                } else {
                    Some((rel, core, utf8_len(key)))
                }
            },
        }
    }
}

/// Paths that never get a relative form: blank ones, and web or file URLs
/// as written (before separators are turned into backslashes).
pub open spec fn rel_path_excluded(a: Seq<char>) -> bool {
    let l = str_lowercase(a);
    trim(a).len() == 0 || seq_starts_with(l, "http://"@) || seq_starts_with(l, "https://"@)
        || seq_starts_with(l, "file://"@)
}

/// Among the first `k` roots, root `i` matches `a` with the greatest score,
/// and no earlier root matches with the same score.
pub open spec fn is_best_root(a: Seq<char>, roots: Seq<Seq<char>>, i: int, k: int) -> bool {
    &&& 0 <= i < k <= roots.len()
    &&& rel_candidate(a, roots[i]) is Some
    &&& forall|j: int|
        0 <= j < i && (#[trigger] rel_candidate(a, roots[j])) is Some ==> rel_candidate(
            a,
            roots[j],
        )->Some_0.2 < rel_candidate(a, roots[i])->Some_0.2
    &&& forall|j: int|
        i < j < k && (#[trigger] rel_candidate(a, roots[j])) is Some ==> rel_candidate(
            a,
            roots[j],
        )->Some_0.2 <= rel_candidate(a, roots[i])->Some_0.2
}

/// The relative path and root hint for `abs` among `roots`.
pub open spec fn rel_path_spec(abs: Seq<char>, roots: Seq<Seq<char>>) -> (
    Option<Seq<char>>,
    Option<Seq<char>>,
) {
    let a = slashify(abs);
    if rel_path_excluded(abs) || !(exists|i: int| is_best_root(a, roots, i, roots.len() as int)) {
        (None, None)
    } else {
        let i = choose|i: int| is_best_root(a, roots, i, roots.len() as int);
        let c = rel_candidate(a, roots[i])->Some_0;
        (Some(c.0), Some(c.1))
    }
}

/// A relative form, when there is one, is not empty, has no `..` segment,
/// and comes from the root whose key is longest among those that match
/// (the first of equally long ones); the path (with `/` as `\`) is a text
/// that lower-cases to the root hint's lower-case form, then `\`, then the
/// relative part; URLs and blank paths get none.
pub proof fn lemma_rel_path_from_longest_root(abs: Seq<char>, roots: Seq<Seq<char>>)
    ensures
        rel_path_excluded(abs) ==> rel_path_spec(abs, roots) == (None::<Seq<char>>, None::<Seq<char>>),
        rel_path_spec(abs, roots).0 is Some <==> rel_path_spec(abs, roots).1 is Some,
        rel_path_spec(abs, roots).0 is Some ==> {
            let rel = rel_path_spec(abs, roots).0.unwrap();
            let hint = rel_path_spec(abs, roots).1.unwrap();
            &&& rel.len() > 0
            &&& !has_dotdot_segment(rel)
            &&& exists|head: Seq<char>|
                slashify(abs) == #[trigger] head.push('\\') + rel && str_lowercase(head) == str_lowercase(hint)
            &&& exists|i: int|
                0 <= i < roots.len() && (#[trigger] rel_candidate(slashify(abs), roots[i])) is Some
                    && rel_candidate(slashify(abs), roots[i])->Some_0.0 == rel && rel_candidate(
                    slashify(abs),
                    roots[i],
                )->Some_0.1 == hint && forall|j: int|
                    0 <= j < roots.len() && (#[trigger] rel_candidate(slashify(abs), roots[j])) is Some
                        ==> rel_candidate(slashify(abs), roots[j])->Some_0.2 <= rel_candidate(
                        slashify(abs),
                        roots[i],
                    )->Some_0.2
        },
{
    let a = slashify(abs);
    if !rel_path_excluded(abs) && exists|i: int| is_best_root(a, roots, i, roots.len() as int) {
        let i = choose|i: int| is_best_root(a, roots, i, roots.len() as int);
        let c = rel_candidate(a, roots[i])->Some_0;
        let key = str_lowercase(root_core(roots[i]));
        lemma_root_end(a, key, 0);
        let e = root_end(a, key, 0)->Some_0;
        let head = a.take(e);
        assert(a == head.push('\\') + a.skip(e + 1));
        assert(str_lowercase(head) == str_lowercase(c.1));
        assert forall|j: int|
            0 <= j < roots.len() && (#[trigger] rel_candidate(a, roots[j])) is Some implies rel_candidate(
                a,
                roots[j],
            )->Some_0.2 <= c.2 by {
            if j < i {
                assert(rel_candidate(a, roots[j])->Some_0.2 < c.2);
            } else if j > i {
                assert(rel_candidate(a, roots[j])->Some_0.2 <= c.2);
            }
        }
    }
}

proof fn lemma_root_end_at(a: Seq<char>, key: Seq<char>, j: int, i: int)
    requires
        0 <= j <= i < a.len(),
        a[i] == '\\',
        str_lowercase(a.take(i)) == key,
        forall|m: int| j <= m < i ==> !(a[m] == '\\' && str_lowercase(#[trigger] a.take(m)) == key),
    ensures
        root_end(a, key, j) == Some(i),
    decreases i - j,
{
    if j < i {
        assert(!(a[j] == '\\' && str_lowercase(a.take(j)) == key));
        lemma_root_end_at(a, key, j + 1, i);
    }
}

/// Among the first `k` roots, if any yields a candidate, one is the best.
proof fn lemma_best_root_exists(a: Seq<char>, roots: Seq<Seq<char>>, k: int, w: int)
    requires
        0 <= w < k <= roots.len(),
        rel_candidate(a, roots[w]) is Some,
    ensures
        exists|i: int| is_best_root(a, roots, i, k),
    decreases k,
{
    let last = k - 1;
    let has_earlier = exists|j: int| 0 <= j < last && (#[trigger] rel_candidate(a, roots[j])) is Some;
    if has_earlier {
        let j0 = choose|j: int| 0 <= j < last && (#[trigger] rel_candidate(a, roots[j])) is Some;
        lemma_best_root_exists(a, roots, last, j0);
        let i = choose|i: int| is_best_root(a, roots, i, last);
        if rel_candidate(a, roots[last]) is Some && rel_candidate(a, roots[last])->Some_0.2 > rel_candidate(
            a,
            roots[i],
        )->Some_0.2 {
            assert(is_best_root(a, roots, last, k));
        } else {
            assert(is_best_root(a, roots, i, k));
        }
    } else {
        assert(w == last);
        assert(is_best_root(a, roots, last, k));
    }
}

/// Every root that matches counts. Say the path (with `/` as `\`)
/// lower-cases to a text that starts with the root's lower-cased core and a
/// `\`, the path's own text for the root ends at its first `\` at index
/// `i` that lower-cases to that core, and the rest after it is not empty and
/// has no `..` segment. Then the root yields that rest and its core, and a
/// path that is no URL and not blank gets a relative form.
pub proof fn lemma_matching_root_counts(abs: Seq<char>, roots: Seq<Seq<char>>, k: int, i: int)
    requires
        0 <= k < roots.len(),
        root_core(roots[k]).len() > 0,
        utf8_len(str_lowercase(slashify(abs))) > utf8_len(str_lowercase(root_core(roots[k])).push('\\')),
        seq_starts_with(str_lowercase(slashify(abs)), str_lowercase(root_core(roots[k])).push('\\')),
        0 <= i < slashify(abs).len(),
        slashify(abs)[i] == '\\',
        str_lowercase(slashify(abs).take(i)) == str_lowercase(root_core(roots[k])),
        forall|m: int|
            0 <= m < i ==> !(slashify(abs)[m] == '\\' && str_lowercase(#[trigger] slashify(abs).take(m))
                == str_lowercase(root_core(roots[k]))),
        slashify(abs).skip(i + 1).len() > 0,
        !has_dotdot_segment(slashify(abs).skip(i + 1)),
    ensures
        rel_candidate(slashify(abs), roots[k]) == Some(
            (
                slashify(abs).skip(i + 1),
                root_core(roots[k]),
                utf8_len(str_lowercase(root_core(roots[k]))),
            ),
        ),
        !rel_path_excluded(abs) ==> rel_path_spec(abs, roots).0 is Some,
{
    let a = slashify(abs);
    lemma_root_end_at(a, str_lowercase(root_core(roots[k])), 0, i);
    lemma_best_root_exists(a, roots, roots.len() as int, k);
}

proof fn lemma_best_root_unique(a: Seq<char>, roots: Seq<Seq<char>>, i: int, i2: int, k: int)
    requires
        is_best_root(a, roots, i, k),
        is_best_root(a, roots, i2, k),
    ensures
        i == i2,
{
    if i < i2 {
        assert(rel_candidate(a, roots[i]) is Some);
        assert(rel_candidate(a, roots[i2]) is Some);
    } else if i2 < i {
        assert(rel_candidate(a, roots[i2]) is Some);
    }
}

pub fn slashify_chars(v: &Vec<char>) -> (res: Vec<char>)
    ensures
        res@ == slashify(v@),
{
    let mut out: Vec<char> = Vec::new();
    let mut i: usize = 0;
    while i < v.len()
        invariant
            i <= v.len(),
            out@ == slashify(v@.take(i as int)),
        decreases v.len() - i,
    {
        let c = v[i];
        if c == '/' {
            out.push('\\');
        } else {
            out.push(c);
        }
        i += 1;
        assert(out@ =~= slashify(v@.take(i as int)));
    }
    assert(v@.take(v.len() as int) == v@);
    out
}

/// `p` with every `/` replaced by `\`.
pub fn slashify_str(p: &str) -> (res: String)
    ensures
        res@ == slashify(p@),
{
    let v = slashify_chars(&chars_of(p));
    string_from_chars(v.as_slice())
}

fn strip_trailing_backslashes_chars(v: &Vec<char>) -> (res: Vec<char>)
    ensures
        res@ == strip_trailing_backslashes(v@),
{
    let mut end = v.len();
    assert(v@.take(v.len() as int) == v@);
    while end > 0 && v[end - 1] == '\\'
        invariant
            end <= v.len(),
            strip_trailing_backslashes(v@.take(end as int)) == strip_trailing_backslashes(v@),
        decreases end,
    {
        assert(v@.take(end as int).drop_last() == v@.take(end - 1 as int));
        end -= 1;
    }
    assert(v@.take(v.len() as int) == v@);
    let mut out: Vec<char> = Vec::new();
    let mut i: usize = 0;
    while i < end
        invariant
            i <= end <= v.len(),
            out@ == v@.take(i as int),
        decreases end - i,
    {
        out.push(v[i]);
        i += 1;
        assert(out@ =~= v@.take(i as int));
    }
    out
}

pub fn has_dotdot(v: &Vec<char>) -> (res: bool)
    ensures
        res == has_dotdot_segment(v@),
{
    let n = v.len();
    let mut i: usize = 0;
    while n > 0 && i < n - 1
        invariant
            n == v.len(),
            forall|j: int|
                0 <= j < i && j + 1 < n ==> !(#[trigger] v@[j] == '.' && v@[j + 1] == '.' && (j == 0
                    || is_sep(v@[j - 1])) && (j + 2 == n || is_sep(v@[j + 2]))),
        decreases n - i,
    {
        if v[i] == '.' && v[i + 1] == '.' && (i == 0 || v[i - 1] == '\\' || v[i - 1] == '/') && (i
            + 2 == n || v[i + 2] == '\\' || v[i + 2] == '/') {
            return true;
        }
        i += 1;
    }
    false
}

/// The text after the `\` where `key` ends in `a` (see `root_end`).
fn after_root(a: &Vec<char>, key: &Vec<char>) -> (res: Option<Vec<char>>)
    ensures
        match res {
            Some(x) => root_end(a@, key@, 0) matches Some(i) && x@ == a@.skip(i + 1),
            None => root_end(a@, key@, 0) is None,
        },
{
    let mut j: usize = 0;
    while j < a.len()
        invariant
            j <= a.len(),
            root_end(a@, key@, 0) == root_end(a@, key@, j as int),
        decreases a.len() - j,
    {
        if a[j] == '\\' {
            let head = lower_chars(&slice_chars(a, 0, j));
            assert(a@.subrange(0, j as int) == a@.take(j as int));
            if chars_eq(head.as_slice(), key.as_slice()) {
                let rest = slice_chars(a, j + 1, a.len());
                assert(rest@ == a@.skip(j + 1));
                return Some(rest);
            }
        }
        j += 1;
    }
    None
}

fn rel_candidate_for(a: &Vec<char>, abs_key: &Vec<char>, root: &str) -> (res: Option<
    (Vec<char>, Vec<char>, u128),
>)
    requires
        abs_key@ == str_lowercase(a@),
    ensures
        match res {
            Some((rel, core, score)) => rel_candidate(a@, root@) == Some((rel@, core@, score as nat)),
            None => rel_candidate(a@, root@) is None,
        },
{
    let core = strip_trailing_backslashes_chars(&slashify_chars(&chars_of(root)));
    if core.len() == 0 {
        return None;
    }
    let key = lower_chars(&core);
    let mut prefix = key.clone();
    prefix.push('\\');
    assert(prefix@ == key@.push('\\'));
    let abs_key_len = utf8_len_of(abs_key);
    let prefix_len = utf8_len_of(&prefix);
    if !(abs_key_len > prefix_len && starts_with_chars(abs_key.as_slice(), prefix.as_slice())) {
        return None;
    }
    match after_root(a, &key) {
        None => None,
        Some(rel) => {
            if rel.len() == 0 || has_dotdot(&rel) {
                None
            } else {
                let score = utf8_len_of(&key);
                Some((rel, core, score))
            }
        },
    }
}

/// Where `abs` lies below the configured roots: the part after the root and
/// the root itself (with `/` written as `\` and trailing `\` removed).
/// Comparison ignores case and the kind of slash; when several roots match
/// the longest wins (the first of equally long ones); relative parts that
/// are empty or step up with `..` do not count. Blank paths and `http://`,
/// `https://` or `file://` addresses never match.
pub fn compute_rel_path(abs: &str, roots: &[String]) -> (res: RelPathResult)
    ensures
        (opt_view(res.rel_path), opt_view(res.root_hint)) == rel_path_spec(abs@, views(roots@)),
{
    let ghost rs = views(roots@);
    let raw = chars_of(abs);
    let raw_key = lower_chars(&raw);
    let t = crate::text::trim_chars(&raw);
    if t.len() == 0 || starts_with_str(&raw_key, "http://") || starts_with_str(&raw_key, "https://")
        || starts_with_str(&raw_key, "file://") {
        return RelPathResult { rel_path: None, root_hint: None };
    }
    let a = slashify_chars(&raw);
    let abs_key = lower_chars(&a);
    let mut best: Option<(usize, u128, Vec<char>, Vec<char>)> = None;
    let mut k: usize = 0;
    while k < roots.len()
        invariant
            k <= roots.len(),
            rs == views(roots@),
            a@ == slashify(abs@),
            abs_key@ == str_lowercase(a@),
            match best {
                None => forall|j: int| 0 <= j < k ==> (#[trigger] rel_candidate(a@, rs[j])) is None,
                Some((bi, bs, rel, core)) => is_best_root(a@, rs, bi as int, k as int)
                    && rel_candidate(a@, rs[bi as int]) == Some((rel@, core@, bs as nat)),
            },
        decreases roots.len() - k,
    {
        let cand = rel_candidate_for(&a, &abs_key, roots[k].as_str());
        assert(rs[k as int] == roots@[k as int]@);
        match cand {
            None => {},
            Some((rel, core, score)) => {
                let better = match &best {
                    None => true,
                    Some((_, bs, _, _)) => score > *bs,
                };
                if better {
                    best = Some((k, score, rel, core));
                }
            },
        }
        k += 1;
    }
    match best {
        None => {
            assert(!(exists|i: int| is_best_root(a@, rs, i, rs.len() as int)));
            RelPathResult { rel_path: None, root_hint: None }
        },
        Some((bi, _, rel, core)) => {
            proof {
                let i = choose|i: int| is_best_root(a@, rs, i, rs.len() as int);
                lemma_best_root_unique(a@, rs, i, bi as int, rs.len() as int);
            }
            RelPathResult {
                rel_path: Some(string_from_chars(rel.as_slice())),
                root_hint: Some(string_from_chars(core.as_slice())),
            }
        },
    }
}


pub open spec fn opt_str_view(o: Option<&str>) -> Option<Seq<char>> {
    match o {
        Some(s) => Some(s@),
        None => None,
    }
}

pub open spec fn opt_vec_views(o: Option<Vec<String>>) -> Option<Seq<Seq<char>>> {
    match o {
        Some(v) => Some(views(v@)),
        None => None,
    }
}

/// The candidate for the stored root hint, if it is not blank.
pub open spec fn hint_candidates(root_hint: Option<Seq<char>>, rel: Seq<char>) -> Seq<Seq<char>> {
    match root_hint {
        Some(h) => if trim(h).len() > 0 {
            seq![path_join_spec(trim(h), rel)]
        } else {
            Seq::<Seq<char>>::empty()
        },
        None => Seq::<Seq<char>>::empty(),
    }
}

/// `init` followed by `root.join(rel)` for each of the first `k` non-blank
/// roots (trimmed), leaving out paths equal to one already listed.
pub open spec fn add_root_candidates(
    init: Seq<Seq<char>>,
    rel: Seq<char>,
    roots: Seq<Seq<char>>,
    k: int,
) -> Seq<Seq<char>>
    decreases k,
{
    if k <= 0 {
        init
    } else {
        let l = add_root_candidates(init, rel, roots, k - 1);
        let rt = trim(roots[k - 1]);
        if rt.len() == 0 {
            l
        } else {
            let c = path_join_spec(rt, rel);
            if exists|d: int| 0 <= d < l.len() && path_eq_spec(#[trigger] l[d], c) {
                l
            } else {
                l.push(c)
            }
        }
    }
}

/// The places a relative path is looked for, in order: below the root hint,
/// then below each root. `None` when the relative path is missing, blank or
/// steps up with `..`.
pub open spec fn effective_candidates(
    rel_path: Option<Seq<char>>,
    root_hint: Option<Seq<char>>,
    roots: Seq<Seq<char>>,
) -> Option<Seq<Seq<char>>> {
    match rel_path {
        None => None,
        Some(r) => {
            let rel = trim(r);
            if rel.len() == 0 || has_dotdot_segment(rel) {
                None
            } else {
                Some(add_root_candidates(hint_candidates(root_hint, rel), rel, roots, roots.len() as int))
            }
        },
    }
}

/// The first index from `i` on where `flags` holds.
pub open spec fn first_true_from(flags: Seq<bool>, i: int) -> Option<int>
    decreases flags.len() - i,
{
    if i < 0 || i >= flags.len() {
        None
    } else if flags[i] {
        Some(i)
    } else {
        first_true_from(flags, i + 1)
    }
}

/// The resolved path given which paths exist: the trimmed absolute path if it
/// is there, otherwise the first existing candidate (`true`: found through
/// the relative path), otherwise nothing.
pub open spec fn pick_effective(
    path_trim: Seq<char>,
    abs_exists: bool,
    cands: Option<Seq<Seq<char>>>,
    flags: Seq<bool>,
) -> Option<(Seq<char>, bool)> {
    if path_trim.len() > 0 && abs_exists {
        Some((path_trim, false))
    } else {
        match cands {
            None => None,
            Some(cs) => match first_true_from(flags, 0) {
                Some(i) => if i < cs.len() {
                    Some((cs[i], true))
                } else {
                    None
                },
                None => None,
            },
        }
    }
}

pub open spec fn resolved_view(r: ResolveEffectivePathResult) -> Option<(Seq<char>, bool)> {
    match r {
        ResolveEffectivePathResult::Found { path, used_relative } => Some((path@, used_relative)),
        ResolveEffectivePathResult::Missing => None,
    }
}

/// `out` is what `resolve_effective_path` gives for some state of the disk.
pub open spec fn resolve_possible(
    path: Seq<char>,
    rel_path: Option<Seq<char>>,
    root_hint: Option<Seq<char>>,
    roots: Seq<Seq<char>>,
    out: Option<(Seq<char>, bool)>,
) -> bool {
    let cands = effective_candidates(rel_path, root_hint, roots);
    exists|abs_exists: bool, flags: Seq<bool>|
        (cands matches Some(cs) ==> flags.len() == cs.len()) && out == #[trigger] pick_effective(
            trim(path),
            abs_exists,
            cands,
            flags,
        )
}

fn opt_trimmed(o: Option<&str>) -> (res: Option<Vec<char>>)
    ensures
        match o {
            Some(s) => res matches Some(t) && t@ == trim(s@),
            None => res is None,
        },
{
    match o {
        Some(s) => Some(trimmed(s)),
        None => None,
    }
}

/// The places where a relative path is looked for (see
/// `effective_candidates`).
pub fn effective_path_candidates(rel_path: Option<&str>, root_hint: Option<&str>, roots: &[String]) -> (res:
    Option<Vec<String>>)
    ensures
        opt_vec_views(res) == effective_candidates(
            opt_str_view(rel_path),
            opt_str_view(root_hint),
            views(roots@),
        ),
{
    let ghost rs = views(roots@);
    let rel = match opt_trimmed(rel_path) {
        None => return None,
        Some(r) => r,
    };
    if rel.len() == 0 || has_dotdot(&rel) {
        return None;
    }
    let rel_s = string_from_chars(rel.as_slice());
    let mut out: Vec<String> = Vec::new();
    match opt_trimmed(root_hint) {
        Some(h) => {
            if h.len() > 0 {
                let hs = string_from_chars(h.as_slice());
                out.push(path_join(hs.as_str(), rel_s.as_str()));
            }
        },
        None => {},
    }
    assert(views(out@) =~= hint_candidates(opt_str_view(root_hint), rel@));
    let mut k: usize = 0;
    while k < roots.len()
        invariant
            k <= roots.len(),
            rs == views(roots@),
            rel_s@ == rel@,
            views(out@) == add_root_candidates(
                hint_candidates(opt_str_view(root_hint), rel@),
                rel@,
                rs,
                k as int,
            ),
        decreases roots.len() - k,
    {
        let ghost l = views(out@);
        let rt = trimmed(roots[k].as_str());
        assert(rs[k as int] == roots@[k as int]@);
        if rt.len() > 0 {
            let rts = string_from_chars(rt.as_slice());
            let c = path_join(rts.as_str(), rel_s.as_str());
            let mut dup = false;
            let mut d: usize = 0;
            while d < out.len()
                invariant
                    d <= out.len(),
                    l == views(out@),
                    !dup ==> forall|e: int| 0 <= e < d ==> !path_eq_spec(#[trigger] l[e], c@),
                    dup ==> exists|e: int| 0 <= e < l.len() && path_eq_spec(#[trigger] l[e], c@),
                decreases out.len() - d,
            {
                if !dup && paths_equal(out[d].as_str(), c.as_str()) {
                    assert(l[d as int] == out@[d as int]@);
                    dup = true;
                }
                if !dup {
                    assert(l[d as int] == out@[d as int]@);
                }
                d += 1;
            }
            if !dup {
                out.push(c);
                assert(views(out@) =~= l.push(c@));
            }
        }
        k += 1;
    }
    Some(out)
}

/// The result from what exists (see `pick_effective`): `abs_exists` tells
/// whether the trimmed absolute path exists, `exists[i]` whether candidate
/// `i` does.
pub fn pick_effective_path(
    path: &str,
    abs_exists: bool,
    candidates: &Option<Vec<String>>,
    exists: &Vec<bool>,
) -> (res: ResolveEffectivePathResult)
    ensures
        resolved_view(res) == pick_effective(trim(path@), abs_exists, opt_vec_views(*candidates), exists@),
{
    let t = trimmed(path);
    if t.len() > 0 && abs_exists {
        return ResolveEffectivePathResult::Found { path: string_from_chars(t.as_slice()), used_relative: false };
    }
    match candidates {
        None => ResolveEffectivePathResult::Missing,
        Some(cs) => {
            let mut i: usize = 0;
            while i < exists.len()
                invariant
                    i <= exists.len(),
                    first_true_from(exists@, 0) == first_true_from(exists@, i as int),
                    !(trim(path@).len() > 0 && abs_exists),
                    opt_vec_views(*candidates) == Some(views(cs@)),
                decreases exists.len() - i,
            {
                if exists[i] {
                    if i < cs.len() {
                        assert(views(cs@)[i as int] == cs@[i as int]@);
                        return ResolveEffectivePathResult::Found { path: cs[i].clone(), used_relative: true };
                    } else {
                        return ResolveEffectivePathResult::Missing;
                    }
                }
                proof {
                    lemma_first_true_step(exists@, 0, i as int);
                }
                i += 1;
            }
            ResolveEffectivePathResult::Missing
        },
    }
}

/// `check` answered `r` when asked about the path `p`.
pub open spec fn observed<F: Fn(&str) -> bool>(check: F, p: Seq<char>, r: bool) -> bool {
    exists|u: &str| u@ == p && #[trigger] check.ensures((u,), r)
}

/// `check` gives one answer per path.
pub open spec fn answers_consistently<F: Fn(&str) -> bool>(check: F) -> bool {
    forall|u: &str, v: &str, r1: bool, r2: bool|
        u@ == v@ && #[trigger] check.ensures((u,), r1) && #[trigger] check.ensures((v,), r2) ==> r1 == r2
}

/// `out` is what resolving gives from the answers `check` gave: `a` for the
/// trimmed absolute path (asked when it is not blank), and `flags` for the
/// candidates in order, asked up to the first that exists, or all of them
/// when none does.
pub open spec fn resolve_observed<F: Fn(&str) -> bool>(
    check: F,
    path: Seq<char>,
    rel_path: Option<Seq<char>>,
    root_hint: Option<Seq<char>>,
    roots: Seq<Seq<char>>,
    out: Option<(Seq<char>, bool)>,
) -> bool {
    let t = trim(path);
    let cands = effective_candidates(rel_path, root_hint, roots);
    exists|a: bool, flags: Seq<bool>| #[trigger] resolve_witness(check, t, cands, a, flags, out)
}

/// The answers `a` (for the trimmed path `t`) and `flags` (for the
/// candidates) were received from `check`, asked in order, and `out` is what
/// they give.
pub open spec fn resolve_witness<F: Fn(&str) -> bool>(
    check: F,
    t: Seq<char>,
    cands: Option<Seq<Seq<char>>>,
    a: bool,
    flags: Seq<bool>,
    out: Option<(Seq<char>, bool)>,
) -> bool {
        &&& (t.len() > 0 ==> observed(check, t, a))
        &&& !(t.len() > 0 && a) ==> match cands {
            Some(cs) => flags.len() <= cs.len() && (forall|i: int|
                0 <= i < flags.len() ==> observed(check, cs[i], #[trigger] flags[i])) && (first_true_from(flags, 0) is None
                ==> flags.len() == cs.len()),
            None => true,
        }
        &&& out == pick_effective(t, a, cands, flags)
}

/// Resolves an item (see `resolve_effective_path`), asking `check` whether
/// each path exists: first the trimmed absolute path, then the candidates in
/// order until one exists. The result is `pick_effective` of the answers
/// received (`resolve_observed`).
pub fn resolve_with(
    path: &str,
    rel_path: Option<&str>,
    root_hint: Option<&str>,
    roots: &[String],
    check: &impl Fn(&str) -> bool,
) -> (res: ResolveEffectivePathResult)
    requires
        forall|u: &str| check.requires((u,)),
    ensures
        resolve_observed(*check, path@, opt_str_view(rel_path), opt_str_view(root_hint), views(roots@), resolved_view(res)),
{
    let ghost cands = effective_candidates(opt_str_view(rel_path), opt_str_view(root_hint), views(roots@));
    let ghost tv = trim(path@);
    let t = string_from_chars(trimmed(path).as_slice());
    let t_len = chars_of(t.as_str()).len();
    if t_len > 0 {
        let abs_exists = check(t.as_str());
        if abs_exists {
            let res = pick_effective_path(path, true, &None, &Vec::new());
            proof {
                let flags = Seq::<bool>::empty();
                assert(observed(*check, tv, true));
                assert(resolved_view(res) == pick_effective(tv, true, cands, flags));
                assert(resolve_witness(*check, tv, cands, true, flags, resolved_view(res)));
            }
            return res;
        }
        proof {
            assert(observed(*check, tv, false));
        }
    }
    let ghost a = false;
    let found = effective_path_candidates(rel_path, root_hint, roots);
    let mut flags: Vec<bool> = Vec::new();
    match &found {
        None => {},
        Some(cs) => {
            let ghost csv = views(cs@);
            let mut i: usize = 0;
            let mut hit = false;
            while i < cs.len() && !hit
                invariant
                    i <= cs.len(),
                    csv == views(cs@),
                    flags.len() == i,
                    forall|u: &str| check.requires((u,)),
                    forall|j: int| 0 <= j < i - 1 ==> !flags@[j],
                    !hit ==> forall|j: int| 0 <= j < i ==> !flags@[j],
                    hit ==> i > 0 && flags@[i - 1],
                    forall|j: int| 0 <= j < i ==> observed(*check, csv[j], #[trigger] flags@[j]),
                decreases cs.len() - i,
            {
                let e = check(cs[i].as_str());
                proof {
                    assert(csv[i as int] == cs@[i as int]@);
                    assert(observed(*check, csv[i as int], e));
                }
                flags.push(e);
                hit = e;
                i += 1;
            }
            proof {
                if first_true_from(flags@, 0) is None && flags.len() < cs.len() {
                    assert(hit);
                    lemma_first_true_hit(flags@, (flags.len() - 1) as int);
                }
            }
        },
    }
    let res = pick_effective_path(path, false, &found, &flags);
    proof {
        assert(resolved_view(res) == pick_effective(tv, a, cands, flags@));
        assert(resolve_witness(*check, tv, cands, a, flags@, resolved_view(res)));
    }
    res
}

proof fn lemma_first_true_hit(flags: Seq<bool>, k: int)
    requires
        0 <= k < flags.len(),
        flags[k],
    ensures
        first_true_from(flags, 0) is Some,
    decreases k,
{
    lemma_first_true_some_from(flags, 0, k);
}

proof fn lemma_first_true_some_from(flags: Seq<bool>, j: int, k: int)
    requires
        0 <= j <= k < flags.len(),
        flags[k],
    ensures
        first_true_from(flags, j) is Some,
    decreases k - j,
{
    if j < k && !flags[j] {
        lemma_first_true_some_from(flags, j + 1, k);
    }
}

/// The absolute path comes first: when the checker answers consistently and
/// says the trimmed (non-blank) absolute path exists, the result is that
/// path, not found through the relative path.
pub proof fn lemma_absolute_first<F: Fn(&str) -> bool>(
    check: F,
    path: Seq<char>,
    rel_path: Option<Seq<char>>,
    root_hint: Option<Seq<char>>,
    roots: Seq<Seq<char>>,
    out: Option<(Seq<char>, bool)>,
)
    requires
        resolve_observed(check, path, rel_path, root_hint, roots, out),
        answers_consistently(check),
        trim(path).len() > 0,
        observed(check, trim(path), true),
    ensures
        out == Some((trim(path), false)),
{
    let t = trim(path);
    let cands = effective_candidates(rel_path, root_hint, roots);
    let (a, flags) = choose|a: bool, flags: Seq<bool>| #[trigger] resolve_witness(check, t, cands, a, flags, out);
    let u = choose|u: &str| u@ == t && #[trigger] check.ensures((u,), true);
    let v = choose|v: &str| v@ == t && #[trigger] check.ensures((v,), a);
    assert(a);
}

/// Otherwise the first place that exists wins: when the checker answers
/// consistently, the absolute path is blank or does not exist, and candidate
/// `k` is the first of the candidates it says exists, the result is that
/// candidate, found through the relative path; when it says none exists,
/// the result is `Missing`.
pub proof fn lemma_relative_fallback<F: Fn(&str) -> bool>(
    check: F,
    path: Seq<char>,
    rel_path: Option<Seq<char>>,
    root_hint: Option<Seq<char>>,
    roots: Seq<Seq<char>>,
    out: Option<(Seq<char>, bool)>,
    k: int,
)
    requires
        resolve_observed(check, path, rel_path, root_hint, roots, out),
        answers_consistently(check),
        trim(path).len() == 0 || observed(check, trim(path), false),
        effective_candidates(rel_path, root_hint, roots) is Some,
        0 <= k <= effective_candidates(rel_path, root_hint, roots)->Some_0.len(),
        forall|j: int|
            0 <= j < k ==> observed(check, #[trigger] effective_candidates(rel_path, root_hint, roots)->Some_0[j], false),
        k < effective_candidates(rel_path, root_hint, roots)->Some_0.len() ==> observed(
            check,
            effective_candidates(rel_path, root_hint, roots)->Some_0[k],
            true,
        ),
    ensures
        k < effective_candidates(rel_path, root_hint, roots)->Some_0.len() ==> out == Some(
            (effective_candidates(rel_path, root_hint, roots)->Some_0[k], true),
        ),
        k == effective_candidates(rel_path, root_hint, roots)->Some_0.len() ==> out is None,
{
    let t = trim(path);
    let cands = effective_candidates(rel_path, root_hint, roots);
    let cs = cands->Some_0;
    let (a, flags) = choose|a: bool, flags: Seq<bool>| #[trigger] resolve_witness(check, t, cands, a, flags, out);
    if t.len() > 0 {
        let u = choose|u: &str| u@ == t && #[trigger] check.ensures((u,), false);
        let v = choose|v: &str| v@ == t && #[trigger] check.ensures((v,), a);
        assert(!a);
    }
    // every answer before k is `false`, the one at k (if asked) `true`
    assert forall|j: int| 0 <= j < flags.len() && j < k implies !flags[j] by {
        assert(observed(check, cs[j], flags[j]));
        assert(observed(check, cs[j], false));
        let u = choose|u: &str| u@ == cs[j] && #[trigger] check.ensures((u,), false);
        let v = choose|v: &str| v@ == cs[j] && #[trigger] check.ensures((v,), flags[j]);
    }
    if k < flags.len() {
        assert(observed(check, cs[k], flags[k]));
        let u = choose|u: &str| u@ == cs[k] && #[trigger] check.ensures((u,), true);
        let v = choose|v: &str| v@ == cs[k] && #[trigger] check.ensures((v,), flags[k]);
        assert(flags[k]);
        lemma_first_true_prefix(flags, 0, k);
    } else {
        lemma_first_true_none_below(flags, 0, k);
    }
}

proof fn lemma_first_true_prefix(flags: Seq<bool>, j: int, k: int)
    requires
        0 <= j <= k < flags.len(),
        flags[k],
        forall|m: int| 0 <= m < flags.len() && m < k ==> !flags[m],
    ensures
        first_true_from(flags, j) == Some(k),
    decreases k - j,
{
    if j < k {
        lemma_first_true_prefix(flags, j + 1, k);
    }
}

proof fn lemma_first_true_none_below(flags: Seq<bool>, j: int, k: int)
    requires
        0 <= j,
        flags.len() <= k,
        forall|m: int| 0 <= m < flags.len() && m < k ==> !flags[m],
    ensures
        first_true_from(flags, j) is None,
    decreases flags.len() - j,
{
    if j < flags.len() {
        lemma_first_true_none_below(flags, j + 1, k);
    }
}

/// Whether something is at `p` on the disk right now (`Path::exists`). The
/// answer is the disk's, so nothing is stated of it.
pub fn exists_on_disk(p: &str) -> bool {
    path_exists(p)
}

/// The path an item resolves to: its trimmed absolute path when that exists,
/// otherwise the first existing place found through its relative path (below
/// the root hint, then below each root), otherwise `Missing`. What exists is
/// up to the disk, asked through `exists_on_disk`; the result is `pick_effective`
/// of the answers received (`resolve_observed`), and so also what it gives for
/// some answer to each existence check (`resolve_possible`).
pub fn resolve_effective_path(
    path: &str,
    rel_path: Option<&str>,
    root_hint: Option<&str>,
    roots: &[String],
) -> (res: ResolveEffectivePathResult)
    ensures
        resolve_possible(
            path@,
            opt_str_view(rel_path),
            opt_str_view(root_hint),
            views(roots@),
            resolved_view(res),
        ),
        resolve_observed(
            exists_on_disk,
            path@,
            opt_str_view(rel_path),
            opt_str_view(root_hint),
            views(roots@),
            resolved_view(res),
        ),
{
    let res = resolve_with(path, rel_path, root_hint, roots, &exists_on_disk);
    proof {
        lemma_observed_possible(
            exists_on_disk,
            path@,
            opt_str_view(rel_path),
            opt_str_view(root_hint),
            views(roots@),
            resolved_view(res),
        );
    }
    res
}

proof fn lemma_observed_possible<F: Fn(&str) -> bool>(
    check: F,
    path: Seq<char>,
    rel_path: Option<Seq<char>>,
    root_hint: Option<Seq<char>>,
    roots: Seq<Seq<char>>,
    out: Option<(Seq<char>, bool)>,
)
    requires
        resolve_observed(check, path, rel_path, root_hint, roots, out),
    ensures
        resolve_possible(path, rel_path, root_hint, roots, out),
{
    let t = trim(path);
    let cands = effective_candidates(rel_path, root_hint, roots);
    let (a, flags) = choose|a: bool, flags: Seq<bool>| #[trigger] resolve_witness(check, t, cands, a, flags, out);
    match cands {
        Some(cs) => {
            if t.len() > 0 && a {
                let full = Seq::new(cs.len(), |i: int| false);
                assert(pick_effective(t, a, cands, full) == out);
            } else {
                let full = flags + Seq::new((cs.len() - flags.len()) as nat, |j: int| false);
                lemma_first_true_padded(flags, cs.len() as int);
                assert(pick_effective(t, a, cands, full) == out);
            }
        },
        None => {
            assert(pick_effective(t, a, cands, flags) == out);
        },
    }
}

proof fn lemma_first_true_step(flags: Seq<bool>, j: int, i: int)
    requires
        0 <= j <= i < flags.len(),
        !flags[i],
        first_true_from(flags, j) == first_true_from(flags, i),
    ensures
        first_true_from(flags, j) == first_true_from(flags, i + 1),
{
}

/// Padding existence flags with `false` up to `n` keeps the first `true`.
proof fn lemma_first_true_padded(flags: Seq<bool>, n: int)
    requires
        flags.len() <= n,
    ensures
        first_true_from(flags + Seq::new((n - flags.len()) as nat, |j: int| false), 0) == first_true_from(flags, 0),
{
    lemma_first_true_padded_from(flags, n, 0);
}

proof fn lemma_first_true_padded_from(flags: Seq<bool>, n: int, k: int)
    requires
        0 <= k <= flags.len() <= n,
    ensures
        first_true_from(flags + Seq::new((n - flags.len()) as nat, |j: int| false), k) == first_true_from(flags, k),
    decreases flags.len() - k,
{
    let full = flags + Seq::new((n - flags.len()) as nat, |j: int| false);
    if k == flags.len() {
        lemma_first_true_none_from(full, k);
    } else {
        assert(full[k] == flags[k]);
        if !flags[k] {
            lemma_first_true_padded_from(flags, n, k + 1);
        }
    }
}

proof fn lemma_first_true_none_from(flags: Seq<bool>, k: int)
    requires
        0 <= k <= flags.len(),
        forall|j: int| k <= j < flags.len() ==> !flags[j],
    ensures
        first_true_from(flags, k) is None,
    decreases flags.len() - k,
{
    if k < flags.len() {
        lemma_first_true_none_from(flags, k + 1);
    }
}

/// A check result as plain values: id, status, resolved path.
pub open spec fn check_view(r: PathCheckResult) -> (Seq<char>, Seq<char>, Option<Seq<char>>) {
    (r.id@, r.status@, opt_view(r.resolved))
}

/// The check result for an item that is not a URL, given how it resolved.
pub open spec fn check_result_spec(id: Seq<char>, outcome: Option<(Seq<char>, bool)>) -> (
    Seq<char>,
    Seq<char>,
    Option<Seq<char>>,
) {
    match outcome {
        Some((p, false)) => (id, "ok"@, Some(p)),
        Some((p, true)) => (id, "recoverable"@, Some(p)),
        None => (id, "missing"@, None),
    }
}

/// What `check_paths` may report for `item`.
pub open spec fn check_item_possible(item: PathCheckItem, roots: Seq<Seq<char>>, r: PathCheckResult) -> bool {
    if str_lowercase(item.kind@) == "url"@ {
        check_view(r) == (item.id@, "skipped"@, None::<Seq<char>>)
    } else {
        exists|o: Option<(Seq<char>, bool)>|
            #[trigger] resolve_possible(item.path@, opt_view(item.rel_path), opt_view(item.root_hint), roots, o)
                && check_view(r) == check_result_spec(item.id@, o)
    }
}

/// What `check_paths` reports for `item`, from the answers the disk gave:
/// URLs are `skipped`; other items get the status of how they resolved
/// (`resolve_observed` with `exists_on_disk`).
pub open spec fn check_item_observed(item: PathCheckItem, roots: Seq<Seq<char>>, r: PathCheckResult) -> bool {
    if str_lowercase(item.kind@) == "url"@ {
        check_view(r) == (item.id@, "skipped"@, None::<Seq<char>>)
    } else {
        exists|o: Option<(Seq<char>, bool)>|
            #[trigger] resolve_observed(
                exists_on_disk,
                item.path@,
                opt_view(item.rel_path),
                opt_view(item.root_hint),
                roots,
                o,
            ) && check_view(r) == check_result_spec(item.id@, o)
    }
}

/// An item that is where it was stored is `ok`: when the disk answers
/// consistently and says the item's trimmed (non-blank) absolute path
/// exists, its check reports `ok` with that path.
pub proof fn lemma_check_ok_when_present(item: PathCheckItem, roots: Seq<Seq<char>>, r: PathCheckResult)
    requires
        check_item_observed(item, roots, r),
        str_lowercase(item.kind@) != "url"@,
        answers_consistently(exists_on_disk),
        trim(item.path@).len() > 0,
        observed(exists_on_disk, trim(item.path@), true),
    ensures
        check_view(r) == (item.id@, "ok"@, Some(trim(item.path@))),
{
    let o = choose|o: Option<(Seq<char>, bool)>|
        #[trigger] resolve_observed(
            exists_on_disk,
            item.path@,
            opt_view(item.rel_path),
            opt_view(item.root_hint),
            roots,
            o,
        ) && check_view(r) == check_result_spec(item.id@, o);
    lemma_absolute_first(exists_on_disk, item.path@, opt_view(item.rel_path), opt_view(item.root_hint), roots, o);
}

/// The check result for an item that is not a URL, from how it resolved.
pub fn check_result_for(id: &String, outcome: ResolveEffectivePathResult) -> (res: PathCheckResult)
    ensures
        check_view(res) == check_result_spec(id@, resolved_view(outcome)),
{
    match outcome {
        ResolveEffectivePathResult::Found { path, used_relative } => {
            if used_relative {
                PathCheckResult { id: id.clone(), status: String::from_str("recoverable"), resolved: Some(path) }
            } else {
                PathCheckResult { id: id.clone(), status: String::from_str("ok"), resolved: Some(path) }
            }
        },
        ResolveEffectivePathResult::Missing => {
            PathCheckResult { id: id.clone(), status: String::from_str("missing"), resolved: None }
        },
    }
}

fn opt_as_str(o: &Option<String>) -> (res: Option<&str>)
    ensures
        opt_str_view(res) == opt_view(*o),
{
    match o {
        Some(s) => Some(s.as_str()),
        None => None,
    }
}

/// Checks each stored item: URLs are `skipped`; other items are `ok` when
/// their absolute path exists, `recoverable` when found through their
/// relative path, `missing` otherwise.
pub fn check_paths(items: &[PathCheckItem], roots: &[String]) -> (res: Vec<PathCheckResult>)
    ensures
        res.len() == items.len(),
        forall|i: int| 0 <= i < items.len() ==> check_item_possible(#[trigger] items@[i], views(roots@), res@[i]),
        forall|i: int| 0 <= i < items.len() ==> check_item_observed(#[trigger] items@[i], views(roots@), res@[i]),
{
    let mut out: Vec<PathCheckResult> = Vec::new();
    let mut i: usize = 0;
    while i < items.len()
        invariant
            i <= items.len(),
            out.len() == i,
            forall|j: int| 0 <= j < i ==> check_item_possible(#[trigger] items@[j], views(roots@), out@[j]),
            forall|j: int| 0 <= j < i ==> check_item_observed(#[trigger] items@[j], views(roots@), out@[j]),
        decreases items.len() - i,
    {
        let item = &items[i];
        let kind = to_lowercase(item.kind.as_str());
        let kv = chars_of(kind.as_str());
        let url = chars_of("url");
        let r = if crate::text::chars_eq(kv.as_slice(), url.as_slice()) {
            PathCheckResult { id: item.id.clone(), status: String::from_str("skipped"), resolved: None }
        } else {
            let outcome = resolve_effective_path(
                item.path.as_str(),
                opt_as_str(&item.rel_path),
                opt_as_str(&item.root_hint),
                roots,
            );
            let ghost o = resolved_view(outcome);
            let r = check_result_for(&item.id, outcome);
            assert(resolve_possible(item.path@, opt_view(item.rel_path), opt_view(item.root_hint), views(roots@), o));
            assert(resolve_observed(
                exists_on_disk,
                item.path@,
                opt_view(item.rel_path),
                opt_view(item.root_hint),
                views(roots@),
                o,
            ));
            r
        };
        out.push(r);
        assert(out@[i as int] == r);
        i += 1;
    }
    out
}

/// `compute_rel_path` for owned arguments.
pub fn compute_rel_path_cmd(path: String, roots: Vec<String>) -> (res: RelPathResult)
    ensures
        (opt_view(res.rel_path), opt_view(res.root_hint)) == rel_path_spec(path@, views(roots@)),
{
    compute_rel_path(path.as_str(), roots.as_slice())
}

/// `resolve_effective_path` for owned arguments.
pub fn resolve_effective_path_cmd(
    path: String,
    rel_path: Option<String>,
    root_hint: Option<String>,
    roots: Vec<String>,
) -> (res: ResolveEffectivePathResult)
    ensures
        resolve_possible(path@, opt_view(rel_path), opt_view(root_hint), views(roots@), resolved_view(res)),
        resolve_observed(
            exists_on_disk,
            path@,
            opt_view(rel_path),
            opt_view(root_hint),
            views(roots@),
            resolved_view(res),
        ),
{
    resolve_effective_path(path.as_str(), opt_as_str(&rel_path), opt_as_str(&root_hint), roots.as_slice())
}

/// `check_paths` for owned arguments.
pub fn check_paths_cmd(items: Vec<PathCheckItem>, roots: Vec<String>) -> (res: Vec<PathCheckResult>)
    ensures
        res.len() == items.len(),
        forall|i: int| 0 <= i < items.len() ==> check_item_possible(#[trigger] items@[i], views(roots@), res@[i]),
        forall|i: int| 0 <= i < items.len() ==> check_item_observed(#[trigger] items@[i], views(roots@), res@[i]),
{
    check_paths(items.as_slice(), roots.as_slice())
}

} // verus!
