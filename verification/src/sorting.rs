//! Stable sorting by a text key and a number, as `sort_by` does with
//! `String` comparison followed by a numeric tie-break.
use vstd::prelude::*;

verus! {

/// Lexicographic order of character sequences by code point; this is the
/// order `String`'s `cmp` gives, since UTF-8 keeps code point order.
pub open spec fn seq_lt(a: Seq<char>, b: Seq<char>) -> bool
    decreases a.len(),
{
    if a.len() == 0 {
        b.len() > 0
    } else if b.len() == 0 {
        false
    } else if a[0] != b[0] {
        (a[0] as u32) < (b[0] as u32)
    } else {
        seq_lt(a.drop_first(), b.drop_first())
    }
}

/// A sort key: text first, then a number.
pub open spec fn key_lt(a: (Seq<char>, u64), b: (Seq<char>, u64)) -> bool {
    seq_lt(a.0, b.0) || (a.0 == b.0 && a.1 < b.1)
}

/// Item `x` comes before item `y` in the stable order of `keys`: smaller key,
/// or equal keys and `x` first.
pub open spec fn pos_lt(keys: Seq<(Seq<char>, u64)>, x: int, y: int) -> bool {
    key_lt(keys[x], keys[y]) || (keys[x] == keys[y] && x < y)
}

/// `p` lists `0..keys.len()` in the stable order of the keys.
pub open spec fn is_stable_order(keys: Seq<(Seq<char>, u64)>, p: Seq<usize>) -> bool {
    &&& p.len() == keys.len()
    &&& forall|i: int| 0 <= i < p.len() ==> #[trigger] p[i] < keys.len()
    &&& forall|i: int, j: int| 0 <= i < j < p.len() ==> pos_lt(keys, #[trigger] p[i] as int, #[trigger] p[j] as int)
}

pub proof fn lemma_seq_lt_irreflexive(a: Seq<char>)
    ensures
        !seq_lt(a, a),
    decreases a.len(),
{
    if a.len() > 0 {
        lemma_seq_lt_irreflexive(a.drop_first());
    }
}

pub proof fn lemma_seq_lt_transitive(a: Seq<char>, b: Seq<char>, c: Seq<char>)
    requires
        seq_lt(a, b),
        seq_lt(b, c),
    ensures
        seq_lt(a, c),
    decreases a.len(),
{
    if a.len() > 0 && b.len() > 0 && c.len() > 0 {
        if a[0] == b[0] && b[0] == c[0] {
            lemma_seq_lt_transitive(a.drop_first(), b.drop_first(), c.drop_first());
        }
    }
}

pub proof fn lemma_seq_lt_total(a: Seq<char>, b: Seq<char>)
    ensures
        seq_lt(a, b) || seq_lt(b, a) || a == b,
    decreases a.len(),
{
    if a.len() == 0 {
        if b.len() == 0 {
            assert(a =~= b);
        }
    } else if b.len() > 0 {
        if a[0] == b[0] {
            lemma_seq_lt_total(a.drop_first(), b.drop_first());
            if a.drop_first() == b.drop_first() {
                assert(a =~= b) by {
                    assert(a.drop_first().len() == b.drop_first().len());
                    assert(a.len() == b.len());
                    assert forall|i: int| 0 <= i < a.len() implies a[i] == b[i] by {
                        if i > 0 {
                            assert(a[i] == a.drop_first()[i - 1]);
                            assert(b[i] == b.drop_first()[i - 1]);
                        }
                    }
                }
            }
        } else {
            let x = a[0] as u32;
            let y = b[0] as u32;
            vstd::utf8::char_u32_cast(a[0], x);
            vstd::utf8::char_u32_cast(b[0], y);
        }
    }
}

pub proof fn lemma_seq_lt_asymmetric(a: Seq<char>, b: Seq<char>)
    requires
        seq_lt(a, b),
    ensures
        !seq_lt(b, a),
{
    if seq_lt(b, a) {
        lemma_seq_lt_transitive(a, b, a);
        lemma_seq_lt_irreflexive(a);
    }
}

proof fn lemma_key_lt_transitive(a: (Seq<char>, u64), b: (Seq<char>, u64), c: (Seq<char>, u64))
    requires
        key_lt(a, b) || a == b,
        key_lt(b, c),
    ensures
        key_lt(a, c),
{
    if a != b {
        if seq_lt(a.0, b.0) && seq_lt(b.0, c.0) {
            lemma_seq_lt_transitive(a.0, b.0, c.0);
        }
    }
}

proof fn lemma_key_not_lt(a: (Seq<char>, u64), b: (Seq<char>, u64))
    requires
        !key_lt(a, b),
    ensures
        key_lt(b, a) || a == b,
{
    lemma_seq_lt_total(a.0, b.0);
}

pub open spec fn key_view(k: (Vec<char>, u64)) -> (Seq<char>, u64) {
    (k.0@, k.1)
}

pub open spec fn keys_view(keys: Seq<(Vec<char>, u64)>) -> Seq<(Seq<char>, u64)> {
    keys.map_values(|k: (Vec<char>, u64)| key_view(k))
}

/// Whether `a` sorts before `b` as text.
pub fn chars_less(a: &Vec<char>, b: &Vec<char>) -> (res: bool)
    ensures
        res == seq_lt(a@, b@),
{
    let mut i: usize = 0;
    assert(a@.skip(0) == a@);
    assert(b@.skip(0) == b@);
    loop
        invariant
            i <= a.len(),
            i <= b.len(),
            seq_lt(a@, b@) == seq_lt(a@.skip(i as int), b@.skip(i as int)),
        decreases a.len() - i,
    {
        let ghost sa = a@.skip(i as int);
        let ghost sb = b@.skip(i as int);
        if i == a.len() {
            return i < b.len();
        }
        if i == b.len() {
            return false;
        }
        assert(sa[0] == a@[i as int]);
        assert(sb[0] == b@[i as int]);
        if a[i] != b[i] {
            return (a[i] as u32) < (b[i] as u32);
        }
        assert(sa.drop_first() == a@.skip(i + 1));
        assert(sb.drop_first() == b@.skip(i + 1));
        i += 1;
    }
}

/// Whether key `a` sorts before key `b`.
pub fn key_less(a: &(Vec<char>, u64), b: &(Vec<char>, u64)) -> (res: bool)
    ensures
        res == key_lt(key_view(*a), key_view(*b)),
{
    if chars_less(&a.0, &b.0) {
        return true;
    }
    if a.1 < b.1 && crate::text::chars_eq(a.0.as_slice(), b.0.as_slice()) {
        return true;
    }
    false
}

/// The positions `0..keys.len()` in stable sorted order of their keys:
/// smaller keys first, equal keys in their original order.
pub fn stable_order(keys: &Vec<(Vec<char>, u64)>) -> (p: Vec<usize>)
    ensures
        is_stable_order(keys_view(keys@), p@),
{
    let ghost kv = keys_view(keys@);
    let mut p: Vec<usize> = Vec::new();
    let mut i: usize = 0;
    while i < keys.len()
        invariant
            i <= keys.len(),
            kv == keys_view(keys@),
            kv.len() == keys.len(),
            p.len() == i,
            forall|a: int| 0 <= a < p.len() ==> #[trigger] p@[a] < i,
            forall|a: int, b: int| 0 <= a < b < p.len() ==> pos_lt(kv, #[trigger] p@[a] as int, #[trigger] p@[b] as int),
        decreases keys.len() - i,
    {
        let mut pos: usize = 0;
        while pos < p.len() && !key_less(&keys[i], &keys[p[pos]])
            invariant
                pos <= p.len(),
                i < keys.len(),
                kv == keys_view(keys@),
                kv.len() == keys.len(),
                forall|a: int| 0 <= a < p.len() ==> #[trigger] p@[a] < i,
                forall|a: int| 0 <= a < pos ==> !key_lt(kv[i as int], kv[#[trigger] p@[a] as int]),
            decreases p.len() - pos,
        {
            assert(kv[i as int] == key_view(keys@[i as int]));
            assert(kv[p@[pos as int] as int] == key_view(keys@[p@[pos as int] as int]));
            pos += 1;
        }
        if pos < p.len() {
            assert(kv[i as int] == key_view(keys@[i as int]));
            assert(kv[p@[pos as int] as int] == key_view(keys@[p@[pos as int] as int]));
            assert(key_lt(kv[i as int], kv[p@[pos as int] as int]));
        }
        let ghost old_p = p@;
        p.insert(pos, i);
        assert(p@ == old_p.insert(pos as int, i));
        assert forall|a: int, b: int| 0 <= a < b < p.len() implies pos_lt(kv, #[trigger] p@[a] as int, #[trigger] p@[b] as int) by {
            if a < pos && b < pos {
                assert(p@[a] == old_p[a] && p@[b] == old_p[b]);
            } else if a < pos && b == pos {
                assert(p@[a] == old_p[a]);
                lemma_key_not_lt(kv[i as int], kv[old_p[a] as int]);
            } else if a < pos && b > pos {
                assert(p@[a] == old_p[a] && p@[b] == old_p[b - 1]);
            } else if a == pos {
                assert(p@[b] == old_p[b - 1]);
                if b - 1 > pos {
                    assert(pos_lt(kv, old_p[pos as int] as int, old_p[b - 1] as int));
                    lemma_key_transitive_pos(kv, i as int, old_p[pos as int] as int, old_p[b - 1] as int);
                }
            } else {
                assert(p@[a] == old_p[a - 1] && p@[b] == old_p[b - 1]);
            }
        }
        i += 1;
    }
    p
}

proof fn lemma_key_transitive_pos(kv: Seq<(Seq<char>, u64)>, x: int, y: int, z: int)
    requires
        0 <= x < kv.len(),
        0 <= y < kv.len(),
        0 <= z < kv.len(),
        key_lt(kv[x], kv[y]),
        pos_lt(kv, y, z),
    ensures
        key_lt(kv[x], kv[z]),
{
    if kv[y] == kv[z] {
    } else {
        lemma_key_lt_transitive(kv[x], kv[y], kv[z]);
    }
}


proof fn lemma_key_lt_asymmetric(a: (Seq<char>, u64), b: (Seq<char>, u64))
    requires
        key_lt(a, b),
    ensures
        !key_lt(b, a),
{
    if seq_lt(a.0, b.0) {
        lemma_seq_lt_asymmetric(a.0, b.0);
        if b.0 == a.0 {
            lemma_seq_lt_irreflexive(a.0);
        }
    } else {
        lemma_seq_lt_irreflexive(a.0);
    }
}

/// A stable order lists each position once, puts no larger key before a
/// smaller one, and keeps items of equal keys in their original order.
pub proof fn lemma_stable_order_sorted(keys: Seq<(Seq<char>, u64)>, p: Seq<usize>)
    requires
        is_stable_order(keys, p),
    ensures
        forall|i: int, j: int| 0 <= i < j < p.len() ==> p[i] != p[j],
        forall|i: int, j: int| 0 <= i < j < p.len() ==> !key_lt(keys[#[trigger] p[j] as int], keys[#[trigger] p[i] as int]),
        forall|i: int, j: int|
            0 <= i < j < p.len() && keys[p[i] as int] == keys[p[j] as int] ==> #[trigger] p[i] < #[trigger] p[j],
{
    assert forall|i: int, j: int| 0 <= i < j < p.len() implies p[i] != p[j] by {
        assert(pos_lt(keys, p[i] as int, p[j] as int));
        if p[i] == p[j] {
            lemma_seq_lt_irreflexive(keys[p[i] as int].0);
        }
    }
    assert forall|i: int, j: int| 0 <= i < j < p.len() implies !key_lt(keys[#[trigger] p[j] as int], keys[#[trigger] p[i] as int]) by {
        assert(pos_lt(keys, p[i] as int, p[j] as int));
        if key_lt(keys[p[i] as int], keys[p[j] as int]) {
            lemma_key_lt_asymmetric(keys[p[i] as int], keys[p[j] as int]);
        } else {
            lemma_seq_lt_irreflexive(keys[p[i] as int].0);
        }
    }
    assert forall|i: int, j: int|
        0 <= i < j < p.len() && keys[p[i] as int] == keys[p[j] as int] implies #[trigger] p[i] < #[trigger] p[j] by {
        assert(pos_lt(keys, p[i] as int, p[j] as int));
        lemma_seq_lt_irreflexive(keys[p[i] as int].0);
    }
}

} // verus!
