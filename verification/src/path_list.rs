//! `PATH`-style values: `;`-separated lists of entries.
use vstd::prelude::*;
use crate::text::{chars_of, string_from_chars, trim, trim_chars, trim_lo, trim_hi, lemma_trim_bounds, is_ws};

verus! {

/// The views of a sequence of strings.
pub open spec fn views(v: Seq<String>) -> Seq<Seq<char>> {
    v.map_values(|s: String| s@)
}

/// The pieces of `s` between occurrences of `sep` (`str::split`), always at
/// least one.
pub open spec fn split_on(s: Seq<char>, sep: char) -> Seq<Seq<char>>
    decreases s.len(),
{
    if s.len() == 0 {
        seq![Seq::<char>::empty()]
    } else {
        let p = split_on(s.drop_last(), sep);
        if s.last() == sep {
            p.push(Seq::<char>::empty())
        } else {
            p.update(p.len() - 1, p[p.len() - 1].push(s.last()))
        }
    }
}

/// The trimmed pieces, with the empty ones dropped.
pub open spec fn keep_entries(pieces: Seq<Seq<char>>) -> Seq<Seq<char>>
    decreases pieces.len(),
{
    if pieces.len() == 0 {
        Seq::<Seq<char>>::empty()
    } else {
        let r = keep_entries(pieces.drop_last());
        let t = trim(pieces.last());
        if t.len() > 0 {
            r.push(t)
        } else {
            r
        }
    }
}

/// The parts joined with `sep` between neighbours (`[T]::join`).
pub open spec fn join_with(parts: Seq<Seq<char>>, sep: char) -> Seq<char>
    decreases parts.len(),
{
    if parts.len() == 0 {
        Seq::<char>::empty()
    } else if parts.len() == 1 {
        parts[0]
    } else {
        join_with(parts.drop_last(), sep) + seq![sep] + parts.last()
    }
}

/// The entries of a `;`-separated value: trimmed, empty ones dropped.
pub open spec fn path_entries(value: Seq<char>) -> Seq<Seq<char>> {
    keep_entries(split_on(value, ';'))
}

/// The value holding `entries`: each trimmed, empty ones dropped, joined by `;`.
pub open spec fn joined_path(entries: Seq<Seq<char>>) -> Seq<char> {
    join_with(keep_entries(entries), ';')
}

proof fn lemma_split_nonempty(s: Seq<char>, sep: char)
    ensures
        split_on(s, sep).len() >= 1,
    decreases s.len(),
{
    if s.len() > 0 {
        lemma_split_nonempty(s.drop_last(), sep);
    }
}

fn push_all(acc: &mut Vec<char>, t: &Vec<char>)
    ensures
        final(acc)@ == old(acc)@ + t@,
{
    let mut i: usize = 0;
    while i < t.len()
        invariant
            i <= t.len(),
            acc@ == old(acc)@ + t@.take(i as int),
        decreases t.len() - i,
    {
        acc.push(t[i]);
        i += 1;
        assert(t@.take(i as int) == t@.take(i - 1 as int).push(t@[i - 1]));
    }
    assert(t@.take(t.len() as int) == t@);
}

/// Splits a `PATH`-style value into its entries: pieces between `;`, each
/// trimmed, empty ones dropped.
pub fn split_path_value(value: &str) -> (res: Vec<String>)
    ensures
        views(res@) == path_entries(value@),
{
    let v = chars_of(value);
    let mut out: Vec<String> = Vec::new();
    let mut cur: Vec<char> = Vec::new();
    let mut i: usize = 0;
    proof { lemma_split_nonempty(v@.take(0), ';'); assert(v@.take(0) =~= Seq::<char>::empty()); }
    while i < v.len()
        invariant
            v@ == value@,
            i <= v.len(),
            split_on(v@.take(i as int), ';').len() >= 1,
            views(out@) == keep_entries(split_on(v@.take(i as int), ';').drop_last()),
            cur@ == split_on(v@.take(i as int), ';').last(),
        decreases v.len() - i,
    {
        let ghost p = split_on(v@.take(i as int), ';');
        let c = v[i];
        i += 1;
        assert(v@.take(i as int).drop_last() == v@.take(i - 1 as int));
        assert(v@.take(i as int).last() == c);
        if c == ';' {
            let t = trim_chars(&cur);
            if t.len() > 0 {
                out.push(string_from_chars(t.as_slice()));
            }
            cur = Vec::new();
            assert(split_on(v@.take(i as int), ';') == p.push(Seq::<char>::empty()));
            assert(p.push(Seq::<char>::empty()).drop_last() == p);
            assert(p.drop_last().push(p.last()) == p);
            assert(views(out@) =~= keep_entries(p));
        } else {
            cur.push(c);
            let ghost q = p.update(p.len() - 1, p[p.len() - 1].push(c));
            assert(split_on(v@.take(i as int), ';') == q);
            assert(q.drop_last() =~= p.drop_last());
        }
    }
    let t = trim_chars(&cur);
    let ghost p = split_on(v@.take(i as int), ';');
    if t.len() > 0 {
        out.push(string_from_chars(t.as_slice()));
    }
    assert(v@.take(v.len() as int) == v@);
    assert(p.drop_last().push(p.last()) == p);
    assert(views(out@) =~= keep_entries(p));
    out
}

/// Joins entries into a `PATH`-style value: each trimmed, empty ones
/// dropped, the rest separated by `;`.
pub fn join_path_value(entries: &[String]) -> (res: String)
    ensures
        res@ == joined_path(views(entries@)),
{
    let mut acc: Vec<char> = Vec::new();
    let mut kept: usize = 0;
    let mut i: usize = 0;
    while i < entries.len()
        invariant
            i <= entries.len(),
            kept == keep_entries(views(entries@.take(i as int))).len(),
            kept <= i,
            acc@ == join_with(keep_entries(views(entries@.take(i as int))), ';'),
        decreases entries.len() - i,
    {
        let ghost k = keep_entries(views(entries@.take(i as int)));
        let t = trim_chars(&chars_of(entries[i].as_str()));
        i += 1;
        assert(views(entries@.take(i as int)).drop_last() =~= views(entries@.take(i - 1 as int)));
        assert(views(entries@.take(i as int)).last() == entries@[i - 1]@);
        if t.len() > 0 {
            if kept > 0 {
                acc.push(';');
                push_all(&mut acc, &t);
            } else {
                acc = t;
            }
            kept += 1;
            assert(k.push(t@).drop_last() == k);
        }
    }
    assert(entries@.take(entries.len() as int) == entries@);
    string_from_chars(acc.as_slice())
}

// ---------------------------------------------------------------------
// Laws
// ---------------------------------------------------------------------

proof fn lemma_split_pieces_sep_free(s: Seq<char>, sep: char)
    ensures
        forall|i: int| 0 <= i < split_on(s, sep).len() ==> !(#[trigger] split_on(s, sep)[i]).contains(sep),
    decreases s.len(),
{
    lemma_split_nonempty(s, sep);
    if s.len() > 0 {
        lemma_split_nonempty(s.drop_last(), sep);
        lemma_split_pieces_sep_free(s.drop_last(), sep);
        let p = split_on(s.drop_last(), sep);
        if s.last() != sep {
            assert forall|i: int| 0 <= i < split_on(s, sep).len() implies !(
            #[trigger] split_on(s, sep)[i]).contains(sep) by {
                if i == p.len() - 1 {
                    let x = p[i];
                    assert(!x.contains(sep));
                    if x.push(s.last()).contains(sep) {
                        let j = choose|j: int| 0 <= j < x.push(s.last()).len() && x.push(s.last())[j] == sep;
                        if j < x.len() {
                            assert(x[j] == sep);
                        }
                    }
                }
            }
        } else {
            assert forall|i: int| 0 <= i < split_on(s, sep).len() implies !(
            #[trigger] split_on(s, sep)[i]).contains(sep) by {
                if i < p.len() {
                    assert(split_on(s, sep)[i] == p[i]);
                }
            }
        }
    }
}

/// A trimmed, non-empty sequence: no whitespace at either end.
pub open spec fn is_clean_entry(e: Seq<char>) -> bool {
    e.len() > 0 && !is_ws(e[0]) && !is_ws(e.last())
}

proof fn lemma_trim_of_clean(e: Seq<char>)
    requires
        is_clean_entry(e),
    ensures
        trim(e) == e,
{
    assert(trim_lo(e) == 0);
    assert(trim_hi(e) == e.len());
    assert(e.subrange(0, e.len() as int) == e);
}

proof fn lemma_trim_clean(s: Seq<char>)
    ensures
        trim(s).len() > 0 ==> is_clean_entry(trim(s)),
        forall|c: char| trim(s).contains(c) ==> s.contains(c),
{
    lemma_trim_bounds(s);
    let t = trim(s);
    if t.len() > 0 {
        assert(t[0] == s[trim_lo(s)]);
        assert(t.last() == s[trim_hi(s) - 1]);
    }
    assert forall|c: char| t.contains(c) implies s.contains(c) by {
        let j = choose|j: int| 0 <= j < t.len() && t[j] == c;
        assert(s[trim_lo(s) + j] == c);
    }
}

proof fn lemma_keep_entries_clean(pieces: Seq<Seq<char>>, sep: char)
    requires
        forall|i: int| 0 <= i < pieces.len() ==> !(#[trigger] pieces[i]).contains(sep),
    ensures
        forall|i: int| 0 <= i < keep_entries(pieces).len() ==> is_clean_entry(#[trigger] keep_entries(pieces)[i]) && !keep_entries(pieces)[i].contains(sep),
    decreases pieces.len(),
{
    if pieces.len() > 0 {
        let p0 = pieces.drop_last();
        assert forall|i: int| 0 <= i < p0.len() implies !(#[trigger] p0[i]).contains(sep) by {
            assert(p0[i] == pieces[i]);
        }
        lemma_keep_entries_clean(p0, sep);
        lemma_trim_clean(pieces.last());
        assert(!pieces[pieces.len() - 1].contains(sep));
        let r = keep_entries(p0);
        let t = trim(pieces.last());
        if t.len() > 0 {
            assert(!t.contains(sep));
            assert forall|i: int| 0 <= i < r.push(t).len() implies is_clean_entry(
            #[trigger] r.push(t)[i]) && !r.push(t)[i].contains(sep) by {
                if i < r.len() {
                    assert(r.push(t)[i] == r[i]);
                }
            }
        }
    }
}

proof fn lemma_keep_of_clean(es: Seq<Seq<char>>)
    requires
        forall|i: int| 0 <= i < es.len() ==> is_clean_entry(#[trigger] es[i]),
    ensures
        keep_entries(es) == es,
    decreases es.len(),
{
    if es.len() > 0 {
        lemma_keep_of_clean(es.drop_last());
        lemma_trim_of_clean(es.last());
        assert(es.drop_last().push(es.last()) == es);
    }
}

proof fn lemma_split_sep_free(b: Seq<char>, sep: char)
    requires
        !b.contains(sep),
    ensures
        split_on(b, sep) == seq![b],
    decreases b.len(),
{
    if b.len() > 0 {
        assert(!b.drop_last().contains(sep)) by {
            if b.drop_last().contains(sep) {
                let j = choose|j: int| 0 <= j < b.drop_last().len() && b.drop_last()[j] == sep;
                assert(b[j] == sep);
            }
        }
        lemma_split_sep_free(b.drop_last(), sep);
        assert(b.last() != sep) by {
            assert(b[b.len() - 1] == b.last());
        }
        assert(b.drop_last().push(b.last()) == b);
    } else {
        assert(b == Seq::<char>::empty());
    }
}

proof fn lemma_split_after_sep(a: Seq<char>, b: Seq<char>, sep: char)
    requires
        !b.contains(sep),
    ensures
        split_on(a + seq![sep] + b, sep) == split_on(a, sep).push(b),
    decreases b.len(),
{
    if b.len() == 0 {
        assert(a + seq![sep] + b == (a + seq![sep]));
        assert((a + seq![sep]).drop_last() == a);
        assert(b == Seq::<char>::empty());
    } else {
        let b0 = b.drop_last();
        assert(!b0.contains(sep)) by {
            if b0.contains(sep) {
                let j = choose|j: int| 0 <= j < b0.len() && b0[j] == sep;
                assert(b[j] == sep);
            }
        }
        lemma_split_after_sep(a, b0, sep);
        let w = a + seq![sep] + b;
        assert(w.drop_last() == a + seq![sep] + b0);
        assert(w.last() == b.last());
        assert(b.last() != sep) by {
            assert(b[b.len() - 1] == b.last());
        }
        assert(b0.push(b.last()) == b);
        assert(split_on(a, sep).push(b0).update(split_on(a, sep).len() as int, b0.push(b.last()))
            == split_on(a, sep).push(b));
    }
}

proof fn lemma_split_join(ks: Seq<Seq<char>>, sep: char)
    requires
        ks.len() >= 1,
        forall|i: int| 0 <= i < ks.len() ==> !(#[trigger] ks[i]).contains(sep),
    ensures
        split_on(join_with(ks, sep), sep) == ks,
    decreases ks.len(),
{
    if ks.len() == 1 {
        assert(!ks[0].contains(sep));
        lemma_split_sep_free(ks[0], sep);
        assert(ks == seq![ks[0]]);
    } else {
        let k0 = ks.drop_last();
        lemma_split_join(k0, sep);
        assert(!ks[ks.len() - 1].contains(sep));
        lemma_split_after_sep(join_with(k0, sep), ks.last(), sep);
        assert(k0.push(ks.last()) == ks);
    }
}

/// Every entry `split_path_value` gives is non-empty, has no whitespace at
/// either end and holds no `;`.
pub proof fn lemma_path_entries_clean(value: Seq<char>)
    ensures
        forall|i: int| 0 <= i < path_entries(value).len() ==>
            is_clean_entry(#[trigger] path_entries(value)[i]) && !path_entries(value)[i].contains(';'),
{
    lemma_split_pieces_sep_free(value, ';');
    lemma_keep_entries_clean(split_on(value, ';'), ';');
}

/// Splitting what `join_path_value` wrote gives back the entries it kept
/// (each trimmed, empty ones dropped), as long as no entry holds a `;`.
pub proof fn lemma_path_join_split_roundtrip(entries: Seq<Seq<char>>)
    requires
        forall|i: int| 0 <= i < entries.len() ==> !(#[trigger] entries[i]).contains(';'),
    ensures
        path_entries(joined_path(entries)) == keep_entries(entries),
{
    lemma_keep_entries_clean(entries, ';');
    let ks = keep_entries(entries);
    if ks.len() == 0 {
        assert(joined_path(entries) == Seq::<char>::empty());
        assert(split_on(Seq::<char>::empty(), ';') == seq![Seq::<char>::empty()]);
        assert(seq![Seq::<char>::empty()].drop_last() == Seq::<Seq<char>>::empty());
        assert(trim(Seq::<char>::empty()) =~= Seq::<char>::empty());
        let e = seq![Seq::<char>::empty()];
        lemma_trim_bounds(Seq::<char>::empty());
        assert(e.drop_last() =~= Seq::<Seq<char>>::empty());
        assert(e.last() == Seq::<char>::empty());
        assert(trim(e.last()).len() == 0);
        assert(keep_entries(e) == keep_entries(e.drop_last()));
        assert(keep_entries(e) =~= Seq::<Seq<char>>::empty());
        assert(ks =~= Seq::<Seq<char>>::empty());
    } else {
        lemma_split_join(ks, ';');
        lemma_keep_of_clean(ks);
    }
}

/// Normalising twice changes nothing: splitting the joined entries of a
/// value gives the same entries as splitting the value.
pub proof fn lemma_path_value_normalized(value: Seq<char>)
    ensures
        path_entries(joined_path(path_entries(value))) == path_entries(value),
{
    let es = path_entries(value);
    lemma_path_entries_clean(value);
    lemma_path_join_split_roundtrip(es);
    lemma_keep_of_clean(es);
}

} // verus!
