//! Flattening a nested map and unflattening it again: with a separator
//! that has no border (no proper prefix of it is also a suffix) and that
//! no key holds, non-empty keys, nested maps that are not empty and no
//! blocks, unflattening gives back the map that was flattened.
use vstd::prelude::*;
use crate::merge::{flat_key, flatten_entries_spec, flatten_into_spec, flatten_keys_spec, insert_nested_spec, unflatten_fold, unflatten_keys_spec};
use crate::text::{contains_seq, first_occ_from, occurs_at, split_by_spec, split_from};
use crate::value::{Val, obj_find, obj_get, obj_has, obj_insert, obj_keys, obj_keys_unique, lemma_obj_find, lemma_obj_find_at, lemma_obj_find_none};

verus! {

// ── Splitting at a separator without a border ─────────────────────

/// The separator is not empty and no proper prefix of it is also a
/// suffix of it (every one-character separator is such), so two of its
/// occurrences never overlap.
pub open spec fn border_free(sep: Seq<char>) -> bool {
    &&& sep.len() > 0
    &&& forall|k: int| 0 < k < sep.len() ==> #[trigger] sep.subrange(0, k) != sep.subrange(sep.len() - k, sep.len() as int)
}

proof fn lemma_occ_at_shift(pre: Seq<char>, s: Seq<char>, sep: Seq<char>, i: int)
    requires
        0 <= i,
    ensures
        occurs_at(sep, pre + s, pre.len() + i) == occurs_at(sep, s, i),
{
    let x = pre + s;
    if i + sep.len() <= s.len() {
        assert(x.subrange(pre.len() + i, pre.len() + i + sep.len()) =~= s.subrange(i, i + sep.len()));
    }
}

proof fn lemma_occ_shift(pre: Seq<char>, s: Seq<char>, sep: Seq<char>, j: int)
    requires
        0 <= j <= s.len(),
        sep.len() > 0,
    ensures
        first_occ_from(pre + s, sep, pre.len() + j) == (if first_occ_from(s, sep, j) == -1 {
            -1
        } else {
            first_occ_from(s, sep, j) + pre.len()
        }),
    decreases s.len() + 1 - j,
{
    lemma_occ_at_shift(pre, s, sep, j);
    if j + sep.len() <= s.len() && !occurs_at(sep, s, j) {
        lemma_occ_shift(pre, s, sep, j + 1);
    }
}

proof fn lemma_first_occ_in(s: Seq<char>, sep: Seq<char>, j: int)
    ensures
        first_occ_from(s, sep, j) == -1 || (j <= first_occ_from(s, sep, j) && first_occ_from(s, sep, j) + sep.len() <= s.len()
            && occurs_at(sep, s, first_occ_from(s, sep, j))),
    decreases s.len() + 1 - j,
{
    if !(j < 0 || j + sep.len() > s.len()) && !occurs_at(sep, s, j) {
        lemma_first_occ_in(s, sep, j + 1);
    }
}

proof fn lemma_split_shift(pre: Seq<char>, s: Seq<char>, sep: Seq<char>, j: int)
    requires
        0 <= j <= s.len(),
        sep.len() > 0,
    ensures
        split_from(pre + s, sep, pre.len() + j) == split_from(s, sep, j),
    decreases s.len() - j,
{
    let x = pre + s;
    lemma_occ_shift(pre, s, sep, j);
    lemma_first_occ_in(s, sep, j);
    let i = first_occ_from(s, sep, j);
    if j <= i && i + sep.len() <= s.len() {
        assert(x.subrange(pre.len() + j, pre.len() + i) =~= s.subrange(j, i));
        lemma_split_shift(pre, s, sep, i + sep.len());
    } else {
        assert(x.subrange(pre.len() + j, x.len() as int) =~= s.subrange(j, s.len() as int));
    }
}

proof fn lemma_no_occ(s: Seq<char>, sep: Seq<char>, j: int)
    requires
        0 <= j,
        !contains_seq(s, sep),
    ensures
        first_occ_from(s, sep, j) == -1,
    decreases s.len() + 1 - j,
{
    if !(j + sep.len() > s.len()) {
        assert(!occurs_at(sep, s, j));
        lemma_no_occ(s, sep, j + 1);
    }
}

/// A piece without the separator splits into itself.
proof fn lemma_split_plain(s: Seq<char>, sep: Seq<char>)
    requires
        sep.len() > 0,
        !contains_seq(s, sep),
    ensures
        split_by_spec(s, sep) == seq![s],
{
    lemma_no_occ(s, sep, 0);
    assert(s.subrange(0, s.len() as int) =~= s);
}

proof fn lemma_occ_before(k: Seq<char>, rest: Seq<char>, sep: Seq<char>, j: int)
    requires
        0 <= j <= k.len(),
        !contains_seq(k, sep),
        border_free(sep),
        rest.len() >= sep.len(),
        rest.subrange(0, sep.len() as int) == sep,
    ensures
        first_occ_from(k + rest, sep, j) == k.len(),
    decreases k.len() - j,
{
    let x = k + rest;
    let n = sep.len() as int;
    if j < k.len() {
        if occurs_at(sep, x, j) {
            if j + n <= k.len() {
                assert(x.subrange(j, j + n) =~= k.subrange(j, j + n));
                assert(occurs_at(sep, k, j));
            } else {
                let m = k.len() - j;
                let b = n - m;
                assert(0 < b < n);
                assert forall|t: int| 0 <= t < b implies sep.subrange(0, b)[t] == sep.subrange(n - b, n)[t] by {
                    assert(sep[m + t] == x.subrange(j, j + n)[m + t]);
                    assert(x[k.len() + t] == rest[t]);
                    assert(rest[t] == rest.subrange(0, n)[t]);
                }
                assert(sep.subrange(0, b) =~= sep.subrange(n - b, n));
            }
        }
        lemma_occ_before(k, rest, sep, j + 1);
    } else {
        assert(x.subrange(j, j + n) =~= rest.subrange(0, n));
    }
}

/// A first piece without the separator splits off.
proof fn lemma_split_head(k: Seq<char>, sep: Seq<char>, s: Seq<char>)
    requires
        !contains_seq(k, sep),
        border_free(sep),
    ensures
        split_by_spec(k + sep + s, sep) == seq![k] + split_by_spec(s, sep),
{
    let x = k + sep + s;
    let rest = sep + s;
    assert(rest.subrange(0, sep.len() as int) =~= sep);
    assert(x =~= k + rest);
    lemma_occ_before(k, rest, sep, 0);
    assert(x.subrange(0, k.len() as int) =~= k);
    assert(x =~= (k + sep) + s);
    lemma_split_shift(k + sep, s, sep, 0);
}

// ── What flattening lists ──────────────────────────────────────────

/// The flattened entries of the first `n` entries of `m` below the key
/// `p`: a leaf under its joined key, a nested map's entries in turn.
pub open spec fn flat_list(m: Seq<(Seq<char>, Val)>, p: Seq<char>, sep: Seq<char>, n: int) -> Seq<(Seq<char>, Val)>
    decreases m, n,
{
    if n <= 0 || n > m.len() {
        Seq::empty()
    } else {
        flat_list(m, p, sep, n - 1) + match m[n - 1].1 {
            Val::Object(m2) => flat_list(m2, flat_key(p, sep, m[n - 1].0), sep, m2.len() as int),
            Val::Block(_, _, m2) => flat_list(m2, flat_key(p, sep, m[n - 1].0), sep, m2.len() as int),
            v => seq![(flat_key(p, sep, m[n - 1].0), v)],
        }
    }
}

/// No key of `l` is a key of `out`, and no two entries of `l` share a key.
pub open spec fn fresh_keys(out: Seq<(Seq<char>, Val)>, l: Seq<(Seq<char>, Val)>) -> bool {
    &&& forall|i: int, j: int| 0 <= i < l.len() && 0 <= j < out.len() ==> out[j].0 != l[i].0
    &&& obj_keys(l).no_duplicates()
}

proof fn lemma_fresh_parts(out: Seq<(Seq<char>, Val)>, a: Seq<(Seq<char>, Val)>, b: Seq<(Seq<char>, Val)>)
    requires
        fresh_keys(out, a + b),
    ensures
        fresh_keys(out, a),
        fresh_keys(out + a, b),
{
    let l = a + b;
    assert forall|i: int, j: int| 0 <= i < a.len() && 0 <= j < a.len() && i != j implies obj_keys(a)[i] != obj_keys(a)[j] by {
        assert(obj_keys(l)[i] == a[i].0 && obj_keys(l)[j] == a[j].0);
    }
    assert forall|i: int, j: int| 0 <= i < a.len() && 0 <= j < out.len() implies out[j].0 != a[i].0 by {
        assert(l[i] == a[i]);
    }
    assert forall|i: int, j: int| 0 <= i < b.len() && 0 <= j < b.len() && i != j implies obj_keys(b)[i] != obj_keys(b)[j] by {
        assert(obj_keys(l)[a.len() + i] == b[i].0 && obj_keys(l)[a.len() + j] == b[j].0);
    }
    assert forall|i: int, j: int| 0 <= i < b.len() && 0 <= j < (out + a).len() implies (out + a)[j].0 != b[i].0 by {
        assert(l[a.len() + i] == b[i]);
        if j >= out.len() {
            assert((out + a)[j] == a[j - out.len()]);
            assert(obj_keys(l)[j - out.len()] != obj_keys(l)[a.len() + i]);
        }
    }
}

/// Flattening appends the listed entries, when their keys are fresh.
proof fn lemma_flatten_lists(out: Seq<(Seq<char>, Val)>, m: Seq<(Seq<char>, Val)>, p: Seq<char>, sep: Seq<char>, n: int)
    requires
        0 <= n <= m.len(),
        fresh_keys(out, flat_list(m, p, sep, n)),
    ensures
        flatten_entries_spec(out, m, p, sep, n) == out + flat_list(m, p, sep, n),
    decreases m, n,
{
    if n == 0 {
        assert(out + flat_list(m, p, sep, 0) =~= out);
    } else {
        let a = flat_list(m, p, sep, n - 1);
        let k = flat_key(p, sep, m[n - 1].0);
        let b = match m[n - 1].1 {
            Val::Object(m2) => flat_list(m2, k, sep, m2.len() as int),
            Val::Block(_, _, m2) => flat_list(m2, k, sep, m2.len() as int),
            v => seq![(k, v)],
        };
        assert(flat_list(m, p, sep, n) == a + b);
        lemma_fresh_parts(out, a, b);
        lemma_flatten_lists(out, m, p, sep, n - 1);
        let o = out + a;
        assert(flatten_entries_spec(out, m, p, sep, n) == flatten_into_spec(o, m[n - 1].1, k, sep));
        match m[n - 1].1 {
            Val::Object(m2) => {
                assert(decreases_to!(m => m[n - 1]));
                lemma_flatten_lists(o, m2, k, sep, m2.len() as int);
                assert(flatten_into_spec(o, m[n - 1].1, k, sep) == o + b);
            },
            Val::Block(_, _, m2) => {
                assert(decreases_to!(m => m[n - 1]));
                lemma_flatten_lists(o, m2, k, sep, m2.len() as int);
                assert(flatten_into_spec(o, m[n - 1].1, k, sep) == o + b);
            },
            v => {
                assert(b[0] == (k, v));
                assert forall|j: int| 0 <= j < o.len() implies o[j].0 != k by {
                    assert(b[0].0 == k);
                }
                lemma_obj_find_none(o, k);
                assert(obj_insert(o, k, v) =~= o.push((k, v)));
                assert(o.push((k, v)) =~= o + b);
                assert(flatten_into_spec(o, m[n - 1].1, k, sep) == o + b);
            },
        }
        assert(out + flat_list(m, p, sep, n) =~= o + b);
    }
}


// ── Maps that flatten and unflatten back ───────────────────────────

/// The separator has no border; `m` has unique keys, none empty and none
/// holding the separator, and each value is either a leaf (neither a map
/// nor a block) or a non-empty map of the same kind.
pub open spec fn flat_safe(m: Seq<(Seq<char>, Val)>, sep: Seq<char>) -> bool
    decreases m,
{
    &&& border_free(sep)
    &&& obj_keys_unique(m)
    &&& forall|i: int| 0 <= i < m.len() ==> {
        &&& (#[trigger] m[i]).0.len() > 0
        &&& !contains_seq(m[i].0, sep)
        &&& match m[i].1 {
            Val::Object(m2) => m2.len() > 0 && flat_safe(m2, sep),
            Val::Block(_, _, _) => false,
            _ => true,
        }
    }
}

/// The entries of `l`, their keys put after `pre`.
pub open spec fn prefixed(l: Seq<(Seq<char>, Val)>, pre: Seq<char>) -> Seq<(Seq<char>, Val)> {
    Seq::new(l.len(), |i: int| (pre + l[i].0, l[i].1))
}

proof fn lemma_prefixed_concat(a: Seq<(Seq<char>, Val)>, b: Seq<(Seq<char>, Val)>, pre: Seq<char>)
    ensures
        prefixed(a + b, pre) == prefixed(a, pre) + prefixed(b, pre),
{
    assert(prefixed(a + b, pre) =~= prefixed(a, pre) + prefixed(b, pre));
}

proof fn lemma_prefixed_twice(l: Seq<(Seq<char>, Val)>, p: Seq<char>, q: Seq<char>)
    ensures
        prefixed(prefixed(l, q), p) == prefixed(l, p + q),
{
    assert forall|i: int| 0 <= i < l.len() implies (p + (q + l[i].0)) == (p + q) + l[i].0 by {
        assert(p + (q + l[i].0) =~= (p + q) + l[i].0);
    }
    assert(prefixed(prefixed(l, q), p) =~= prefixed(l, p + q));
}

/// Below a non-empty key, the flattened keys are those below no key,
/// each put after that key and the separator.
proof fn lemma_flat_list_prefix(m: Seq<(Seq<char>, Val)>, p: Seq<char>, sep: Seq<char>, n: int)
    requires
        p.len() > 0,
        flat_safe(m, sep),
        0 <= n <= m.len(),
    ensures
        flat_list(m, p, sep, n) == prefixed(flat_list(m, Seq::empty(), sep, n), p + sep),
    decreases m, n,
{
    let e = Seq::<char>::empty();
    if n == 0 {
        assert(prefixed(Seq::<(Seq<char>, Val)>::empty(), p + sep) =~= Seq::<(Seq<char>, Val)>::empty());
    } else {
        lemma_flat_list_prefix(m, p, sep, n - 1);
        let k = m[n - 1].0;
        assert(k.len() > 0);
        assert(flat_key(p, sep, k) == p + sep + k);
        assert(flat_key(e, sep, k) == k);
        let a0 = flat_list(m, e, sep, n - 1);
        match m[n - 1].1 {
            Val::Object(m2) => {
                assert(decreases_to!(m => m[n - 1]));
                lemma_flat_list_prefix(m2, p + sep + k, sep, m2.len() as int);
                lemma_flat_list_prefix(m2, k, sep, m2.len() as int);
                let inner = flat_list(m2, e, sep, m2.len() as int);
                lemma_prefixed_twice(inner, p + sep, k + sep);
                assert((p + sep) + (k + sep) =~= p + sep + k + sep);
                lemma_prefixed_concat(a0, flat_list(m2, k, sep, m2.len() as int), p + sep);
            },
            Val::Block(_, _, _) => {},
            v => {
                lemma_prefixed_concat(a0, seq![(k, v)], p + sep);
                assert(prefixed(seq![(k, v)], p + sep) =~= seq![(p + sep + k, v)]);
            },
        }
    }
}


/// `s` is `k`, or `k` followed by the separator and more.
pub open spec fn head_is(s: Seq<char>, k: Seq<char>, sep: Seq<char>) -> bool {
    s == k || (s.len() >= k.len() + sep.len() && s.subrange(0, k.len() as int) == k
        && s.subrange(k.len() as int, (k.len() + sep.len()) as int) == sep)
}

proof fn lemma_head_distinct(s: Seq<char>, t: Seq<char>, k1: Seq<char>, k2: Seq<char>, sep: Seq<char>)
    requires
        head_is(s, k1, sep),
        head_is(t, k2, sep),
        k1 != k2,
        !contains_seq(k1, sep),
        !contains_seq(k2, sep),
        border_free(sep),
    ensures
        s != t,
{
    if s == t {
        if k1.len() == k2.len() {
            assert(s.subrange(0, k1.len() as int) =~= k1);
            assert(t.subrange(0, k2.len() as int) =~= k2);
        } else if k1.len() < k2.len() {
            lemma_head_overlap(s, k1, k2, sep);
        } else {
            lemma_head_overlap(s, k2, k1, sep);
        }
    }
}

proof fn lemma_head_overlap(s: Seq<char>, k1: Seq<char>, k2: Seq<char>, sep: Seq<char>)
    requires
        k1.len() < k2.len(),
        !contains_seq(k2, sep),
        border_free(sep),
    ensures
        !(head_is(s, k1, sep) && head_is(s, k2, sep)),
{
    if head_is(s, k1, sep) && head_is(s, k2, sep) {
        lemma_head_overlap_both(s, k1, k2, sep);
    }
}

proof fn lemma_head_overlap_both(s: Seq<char>, k1: Seq<char>, k2: Seq<char>, sep: Seq<char>)
    requires
        head_is(s, k1, sep),
        head_is(s, k2, sep),
        k1.len() < k2.len(),
        !contains_seq(k2, sep),
        border_free(sep),
    ensures
        contains_seq(k2, sep),
{
    let n = sep.len() as int;
    let a = k1.len() as int;
    let b = k2.len() as int;
    assert(s.subrange(0, b) == k2 || s == k2);
    if s == k2 {
        assert(s.len() == b);
    }
    assert(s.subrange(0, b as int) =~= k2);
    assert(s.subrange(a as int, a + n) == sep);
    if a + n <= b {
        assert(k2.subrange(a as int, a + n) =~= s.subrange(a as int, a + n));
        assert(occurs_at(sep, k2, a as int));
    } else {
        assert(s != k2);
        assert(s.subrange(b as int, b + n) == sep);
        let d = b - a;
        let w = n - d;
        assert(0 < w < n);
        assert forall|t: int| 0 <= t < w implies sep.subrange(0, w)[t] == sep.subrange(n - w, n)[t] by {
            assert(s.subrange(b as int, b + n)[t] == s[b + t]);
            assert(s.subrange(a as int, a + n)[d + t] == s[a + d + t]);
        }
        assert(sep.subrange(0, w) =~= sep.subrange(n - w, n));
    }
}

/// The entries flattened from the first `n` entries: none share a key,
/// each key starts with one of those entries' keys, and there is one at
/// least when `n` is not zero.
proof fn lemma_flat_list_keys(m: Seq<(Seq<char>, Val)>, sep: Seq<char>, n: int)
    requires
        flat_safe(m, sep),
        0 <= n <= m.len(),
    ensures
        obj_keys(flat_list(m, Seq::empty(), sep, n)).no_duplicates(),
        forall|i: int| 0 <= i < flat_list(m, Seq::empty(), sep, n).len() ==>
            exists|j: int| 0 <= j < n && head_is(#[trigger] flat_list(m, Seq::empty(), sep, n)[i].0, m[j].0, sep),
        n >= 1 ==> flat_list(m, Seq::empty(), sep, n).len() >= 1,
    decreases m, n,
{
    let e = Seq::<char>::empty();
    if n > 0 {
        lemma_flat_list_keys(m, sep, n - 1);
        let k = m[n - 1].0;
        let a = flat_list(m, e, sep, n - 1);
        let b = match m[n - 1].1 {
            Val::Object(m2) => flat_list(m2, flat_key(e, sep, k), sep, m2.len() as int),
            Val::Block(_, _, m2) => flat_list(m2, flat_key(e, sep, k), sep, m2.len() as int),
            v => seq![(flat_key(e, sep, k), v)],
        };
        let l = flat_list(m, e, sep, n);
        assert(l == a + b);
        assert(flat_key(e, sep, k) == k);
        // every key of the new block starts with k
        match m[n - 1].1 {
            Val::Object(m2) => {
                assert(decreases_to!(m => m[n - 1]));
                lemma_flat_list_keys(m2, sep, m2.len() as int);
                lemma_flat_list_prefix(m2, k, sep, m2.len() as int);
                let inner = flat_list(m2, e, sep, m2.len() as int);
                assert(b == prefixed(inner, k + sep));
                assert forall|i: int| 0 <= i < b.len() implies head_is(#[trigger] b[i].0, k, sep) by {
                    let sk = b[i].0;
                    assert(sk == (k + sep) + inner[i].0);
                    assert(sk.subrange(0, k.len() as int) =~= k);
                    assert(sk.subrange(k.len() as int, (k.len() + sep.len()) as int) =~= sep);
                }
                assert forall|x: int, y: int| 0 <= x < b.len() && 0 <= y < b.len() && x != y implies obj_keys(b)[x] != obj_keys(b)[y] by {
                    assert(obj_keys(inner)[x] != obj_keys(inner)[y]);
                    if b[x].0 == b[y].0 {
                        assert(b[x].0.subrange((k.len() + sep.len()) as int, b[x].0.len() as int) =~= inner[x].0);
                        assert(b[y].0.subrange((k.len() + sep.len()) as int, b[y].0.len() as int) =~= inner[y].0);
                    }
                }
            },
            Val::Block(_, _, _) => {},
            v => {
                assert(b[0].0 == k);
            },
        }
        assert forall|i: int| 0 <= i < b.len() implies head_is(#[trigger] b[i].0, k, sep) by {
            match m[n - 1].1 {
                Val::Object(m2) => {},
                Val::Block(_, _, _) => {},
                v => {
                    assert(b[0].0 == k);
                },
            }
        }
        assert(obj_keys(b).no_duplicates());
        // keys of a and b differ: they start with different entries' keys
        assert forall|x: int, y: int| 0 <= x < l.len() && 0 <= y < l.len() && x != y implies obj_keys(l)[x] != obj_keys(l)[y] by {
            if x < a.len() && y < a.len() {
                assert(obj_keys(a)[x] != obj_keys(a)[y]);
                assert(l[x] == a[x] && l[y] == a[y]);
            } else if x >= a.len() && y >= a.len() {
                assert(obj_keys(b)[x - a.len()] != obj_keys(b)[y - a.len()]);
                assert(l[x] == b[x - a.len()] && l[y] == b[y - a.len()]);
            } else {
                let (i1, i2) = if x < a.len() { (x, y - a.len()) } else { (y, x - a.len()) };
                assert(l[i1] == a[i1]);
                assert(l[a.len() + i2] == b[i2]);
                let j = choose|j: int| 0 <= j < n - 1 && head_is(a[i1].0, m[j].0, sep);
                assert(head_is(b[i2].0, k, sep));
                assert(m[j].0 != k);
                lemma_head_distinct(a[i1].0, b[i2].0, m[j].0, k, sep);
            }
        }
        assert forall|i: int| 0 <= i < l.len() implies exists|j: int| 0 <= j < n && head_is(#[trigger] l[i].0, m[j].0, sep) by {
            if i < a.len() {
                assert(l[i] == a[i]);
                let j = choose|j: int| 0 <= j < n - 1 && head_is(a[i].0, m[j].0, sep);
                assert(head_is(l[i].0, m[j].0, sep));
            } else {
                assert(l[i] == b[i - a.len()]);
                assert(head_is(l[i].0, m[n - 1].0, sep));
            }
        }
        assert(b.len() >= 1);
    }
}


// ── What unflattening builds ───────────────────────────────────────

/// `acc` with the first `n` entries of `l` inserted at their split keys.
pub open spec fn ufold(acc: Seq<(Seq<char>, Val)>, l: Seq<(Seq<char>, Val)>, sep: Seq<char>, n: int) -> Seq<(Seq<char>, Val)>
    decreases n,
{
    if n <= 0 || n > l.len() {
        acc
    } else {
        insert_nested_spec(ufold(acc, l, sep, n - 1), split_by_spec(l[n - 1].0, sep), l[n - 1].1)
    }
}

proof fn lemma_unflatten_is_ufold(l: Seq<(Seq<char>, Val)>, sep: Seq<char>, n: int)
    requires
        0 <= n <= l.len(),
    ensures
        unflatten_fold(l, sep, n) == ufold(Seq::empty(), l, sep, n),
    decreases n,
{
    if n > 0 {
        lemma_unflatten_is_ufold(l, sep, n - 1);
    }
}

proof fn lemma_ufold_same_prefix(acc: Seq<(Seq<char>, Val)>, l1: Seq<(Seq<char>, Val)>, l2: Seq<(Seq<char>, Val)>, sep: Seq<char>, n: int)
    requires
        0 <= n <= l1.len(),
        n <= l2.len(),
        forall|i: int| 0 <= i < n ==> l1[i] == l2[i],
    ensures
        ufold(acc, l1, sep, n) == ufold(acc, l2, sep, n),
    decreases n,
{
    if n > 0 {
        lemma_ufold_same_prefix(acc, l1, l2, sep, n - 1);
    }
}

proof fn lemma_ufold_concat(acc: Seq<(Seq<char>, Val)>, a: Seq<(Seq<char>, Val)>, b: Seq<(Seq<char>, Val)>, sep: Seq<char>, j: int)
    requires
        0 <= j <= b.len(),
    ensures
        ufold(acc, a + b, sep, a.len() + j) == ufold(ufold(acc, a, sep, a.len() as int), b, sep, j),
    decreases j,
{
    if j == 0 {
        lemma_ufold_same_prefix(acc, a + b, a, sep, a.len() as int);
    } else {
        lemma_ufold_concat(acc, a, b, sep, j - 1);
        assert((a + b)[a.len() + j - 1] == b[j - 1]);
    }
}

proof fn lemma_split_len(s: Seq<char>, sep: Seq<char>)
    ensures
        split_by_spec(s, sep).len() >= 1,
{
    if sep.len() > 0 {
        let i = first_occ_from(s, sep, 0);
        if 0 <= i && i + sep.len() <= s.len() {
            assert(split_from(s, sep, 0) == seq![s.subrange(0, i)] + split_from(s, sep, i + sep.len()));
        }
    }
}

/// A leaf entry goes in under its key, at the end.
proof fn lemma_ufold_leaf(acc: Seq<(Seq<char>, Val)>, k: Seq<char>, v: Val, sep: Seq<char>)
    requires
        !contains_seq(k, sep),
        border_free(sep),
        forall|j: int| 0 <= j < acc.len() ==> acc[j].0 != k,
    ensures
        ufold(acc, seq![(k, v)], sep, 1) == acc.push((k, v)),
{
    lemma_split_plain(k, sep);
    assert(ufold(acc, seq![(k, v)], sep, 0) == acc);
    lemma_obj_find_none(acc, k);
    assert(insert_nested_spec(acc, seq![k], v) == obj_insert(acc, k, v));
}

/// The entries of a nested map, their keys after `k` and the separator,
/// go in as one map under `k`, at the end.
proof fn lemma_ufold_nested(acc: Seq<(Seq<char>, Val)>, k: Seq<char>, l: Seq<(Seq<char>, Val)>, sep: Seq<char>, j: int)
    requires
        !contains_seq(k, sep),
        border_free(sep),
        forall|i: int| 0 <= i < acc.len() ==> acc[i].0 != k,
        1 <= j <= l.len(),
    ensures
        ufold(acc, prefixed(l, k + sep), sep, j) == acc.push((k, Val::Object(ufold(Seq::empty(), l, sep, j)))),
    decreases j,
{
    let pl = prefixed(l, k + sep);
    let s = l[j - 1].0;
    let v = l[j - 1].1;
    assert(pl[j - 1] == (k + sep + s, v));
    lemma_split_head(k, sep, s);
    lemma_split_len(s, sep);
    let parts = seq![k] + split_by_spec(s, sep);
    assert(split_by_spec(pl[j - 1].0, sep) == parts);
    assert(parts[0] == k);
    assert(parts.drop_first() =~= split_by_spec(s, sep));
    let e = Seq::<(Seq<char>, Val)>::empty();
    if j == 1 {
        assert(ufold(acc, pl, sep, 0) == acc);
        lemma_obj_find_none(acc, k);
        let m1 = acc.push((k, Val::Object(e)));
        lemma_obj_find_at(m1, k, acc.len() as int);
        assert(!obj_has(acc, k));
        assert(obj_get(m1, k) == Some(Val::Object(e)));
        let inner = insert_nested_spec(e, split_by_spec(s, sep), v);
        assert(insert_nested_spec(acc, parts, v) == obj_insert(m1, k, Val::Object(inner)));
        assert(obj_insert(m1, k, Val::Object(inner)) =~= acc.push((k, Val::Object(inner))));
        assert(ufold(e, l, sep, 0) == e);
    } else {
        lemma_ufold_nested(acc, k, l, sep, j - 1);
        let u = ufold(e, l, sep, j - 1);
        let cur = acc.push((k, Val::Object(u)));
        assert(ufold(acc, pl, sep, j - 1) == cur);
        lemma_obj_find_at(cur, k, acc.len() as int);
        assert(obj_has(cur, k));
        assert(obj_get(cur, k) == Some(Val::Object(u)));
        let inner = insert_nested_spec(u, split_by_spec(s, sep), v);
        assert(insert_nested_spec(cur, parts, v) == obj_insert(cur, k, Val::Object(inner)));
        assert(obj_insert(cur, k, Val::Object(inner)) =~= acc.push((k, Val::Object(inner))));
    }
}

proof fn lemma_unflatten_flat(m: Seq<(Seq<char>, Val)>, sep: Seq<char>, n: int)
    requires
        flat_safe(m, sep),
        0 <= n <= m.len(),
    ensures
        ufold(Seq::empty(), flat_list(m, Seq::empty(), sep, n), sep, flat_list(m, Seq::empty(), sep, n).len() as int) == m.take(n),
    decreases m, n,
{
    let e = Seq::<char>::empty();
    let z = Seq::<(Seq<char>, Val)>::empty();
    if n == 0 {
        assert(m.take(0) =~= z);
    } else {
        lemma_unflatten_flat(m, sep, n - 1);
        let k = m[n - 1].0;
        let a = flat_list(m, e, sep, n - 1);
        assert(flat_key(e, sep, k) == k);
        let b = match m[n - 1].1 {
            Val::Object(m2) => flat_list(m2, k, sep, m2.len() as int),
            Val::Block(_, _, m2) => flat_list(m2, k, sep, m2.len() as int),
            v => seq![(k, v)],
        };
        assert(flat_list(m, e, sep, n) == a + b);
        lemma_ufold_concat(z, a, b, sep, b.len() as int);
        let pre = m.take(n - 1);
        assert forall|j: int| 0 <= j < pre.len() implies pre[j].0 != k by {
            assert(pre[j] == m[j]);
        }
        match m[n - 1].1 {
            Val::Object(m2) => {
                assert(decreases_to!(m => m[n - 1]));
                lemma_flat_list_prefix(m2, k, sep, m2.len() as int);
                lemma_flat_list_keys(m2, sep, m2.len() as int);
                let l = flat_list(m2, e, sep, m2.len() as int);
                lemma_ufold_nested(pre, k, l, sep, l.len() as int);
                lemma_unflatten_flat(m2, sep, m2.len() as int);
                assert(m2.take(m2.len() as int) =~= m2);
            },
            Val::Block(_, _, _) => {},
            v => {
                lemma_ufold_leaf(pre, k, v, sep);
            },
        }
        assert(m.take(n) =~= pre.push(m[n - 1]));
    }
}

/// Unflattening undoes flattening: with a separator that has no border
/// (such as any one character, or `ab`), a map whose keys are not empty
/// and do not hold the separator, whose nested maps are not empty and
/// which holds no block comes back as it was.
pub proof fn law_unflatten_undoes_flatten(m: Seq<(Seq<char>, Val)>, sep: Seq<char>)
    requires
        flat_safe(m, sep),
    ensures
        unflatten_keys_spec(flatten_keys_spec(Val::Object(m), sep), sep) == Val::Object(m),
{
    let e = Seq::<char>::empty();
    let z = Seq::<(Seq<char>, Val)>::empty();
    lemma_flat_list_keys(m, sep, m.len() as int);
    let l = flat_list(m, e, sep, m.len() as int);
    lemma_flatten_lists(z, m, e, sep, m.len() as int);
    assert(z + l =~= l);
    assert(flatten_into_spec(z, Val::Object(m), e, sep) == l);
    lemma_unflatten_is_ufold(l, sep, l.len() as int);
    lemma_unflatten_flat(m, sep, m.len() as int);
    assert(m.take(m.len() as int) =~= m);
}

} // verus!
