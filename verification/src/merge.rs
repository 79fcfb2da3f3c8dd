//! Combining and comparing value trees: shallow, deep, JSON merge patch
//! (RFC 7396) and Kubernetes-style strategic merges, layered stacks, diffs,
//! three-way merges with conflict detection, and key flattening.
use vstd::prelude::*;
use crate::error::Error;
use crate::text::{str_eq, to_owned_string, push_str, strings_view, strings_contain, split_by, split_by_spec};
use crate::value::{jq_type_spec, entries_match_upto, law_val_eq_refl, wf_val, law_insert_then_get, lemma_obj_find_at, lemma_obj_find_none, obj_keys_unique, Value, Val, val_eq, view_entries, view_values, obj_find, obj_get, obj_has, obj_insert, insert_all, entries_insert, find_entry, clone_value, value_eq, lemma_obj_find, lemma_view_variant, lemma_view_values, val_get, obj_keys};

verus! {

/// Merge strategy.
#[derive(Debug)]
pub enum Strategy {
    /// Keys of the override replace those of the base; nothing recurses.
    Shallow,
    /// Maps merge recursively; arrays concatenate.
    Deep,
    /// The override replaces the base.
    Replace,
    /// RFC 7396 JSON Merge Patch: null removes a key, objects merge recursively.
    JsonMergePatch,
    /// Kubernetes-style strategic merge: arrays under a listed key merge
    /// element by element, matched on the named field.
    Strategic { merge_keys: Vec<(String, String)> },
}

// ── Shallow and deep ───────────────────────────────────────────────

/// Shallow merge: the override's entries inserted into the base map.
pub open spec fn shallow_spec(b: Val, o: Val) -> Val {
    match (b, o) {
        (Val::Object(bm), Val::Object(om)) => Val::Object(insert_all(bm, om, om.len() as int)),
        _ => o,
    }
}

/// Deep merge: maps merge key by key, arrays concatenate, anything else
/// is replaced by the override.
pub open spec fn deep_spec(b: Val, o: Val) -> Val
    decreases o, 0int,
{
    match (b, o) {
        (Val::Object(bm), Val::Object(om)) => Val::Object(deep_fold(bm, om, om.len() as int)),
        (Val::Array(ba), Val::Array(oa)) => Val::Array(ba + oa),
        _ => o,
    }
}

/// The base entries with the first `n` override entries merged in.
pub open spec fn deep_fold(m: Seq<(Seq<char>, Val)>, om: Seq<(Seq<char>, Val)>, n: int) -> Seq<(Seq<char>, Val)>
    decreases om, n,
{
    if n <= 0 || n > om.len() {
        m
    } else {
        let r = deep_fold(m, om, n - 1);
        let k = om[n - 1].0;
        let v = om[n - 1].1;
        obj_insert(r, k, match obj_get(r, k) {
            Some(bv) => deep_spec(bv, v),
            None => v,
        })
    }
}

fn clone_entries(m: &Vec<(String, Value)>) -> (r: Vec<(String, Value)>)
    ensures
        view_entries(r@) == view_entries(m@),
{
    let mut r: Vec<(String, Value)> = Vec::new();
    let mut i: usize = 0;
    while i < m.len()
        invariant
            i <= m@.len(),
            r@.len() == i,
            forall|j: int| #![trigger r@[j]] 0 <= j < i ==> r@[j].0@ == m@[j].0@ && r@[j].1@ == m@[j].1@,
        decreases m@.len() - i,
    {
        r.push((to_owned_string(m[i].0.as_str()), clone_value(&m[i].1)));
        i = i + 1;
    }
    assert forall|j: int| 0 <= j < r@.len() implies view_entries(r@)[j] == view_entries(m@)[j] by {
        assert(r@[j].0@ == m@[j].0@ && r@[j].1@ == m@[j].1@);
    }
    assert(view_entries(r@) =~= view_entries(m@));
    r
}

fn shallow_merge(base: &Value, over: &Value) -> (r: Value)
    ensures
        r@ == shallow_spec(base@, over@),
{
    proof {
        lemma_view_variant(*base);
        lemma_view_variant(*over);
    }
    match (base, over) {
        (Value::Object(bm), Value::Object(om)) => {
            let mut result = clone_entries(bm);
            let ghost bv = view_entries(bm@);
            let ghost ov = view_entries(om@);
            let mut i: usize = 0;
            while i < om.len()
                invariant
                    ov == view_entries(om@),
                    i <= om@.len(),
                    view_entries(result@) == insert_all(bv, ov, i as int),
                decreases om@.len() - i,
            {
                entries_insert(&mut result, to_owned_string(om[i].0.as_str()), clone_value(&om[i].1));
                assert(ov[i as int] == (om@[i as int].0@, om@[i as int].1@));
                i = i + 1;
            }
            Value::Object(result)
        },
        _ => clone_value(over),
    }
}

fn deep_merge_entries(bm: &Vec<(String, Value)>, om: &Vec<(String, Value)>) -> (r: Vec<(String, Value)>)
    ensures
        view_entries(r@) == deep_fold(view_entries(bm@), view_entries(om@), om@.len() as int),
    decreases om,
{
    let mut result = clone_entries(bm);
    let ghost bv = view_entries(bm@);
    let ghost ov = view_entries(om@);
    let mut i: usize = 0;
    while i < om.len()
        invariant
            ov == view_entries(om@),
            i <= om@.len(),
            view_entries(result@) == deep_fold(bv, ov, i as int),
        decreases om@.len() - i,
    {
        proof {
            assert(decreases_to!(om => om@[i as int]));
            assert(decreases_to!(om@[i as int] => om@[i as int].1));
        }
        let k = om[i].0.as_str();
        let v = &om[i].1;
        assert(ov[i as int] == (k@, v@));
        let merged = match find_entry(&result, k) {
            Some(j) => {
                assert(view_entries(result@)[j as int].1 == result@[j as int].1@);
                deep_merge(&result[j].1, v)
            },
            None => clone_value(v),
        };
        entries_insert(&mut result, to_owned_string(k), merged);
        i = i + 1;
    }
    result
}

fn deep_merge(base: &Value, over: &Value) -> (r: Value)
    ensures
        r@ == deep_spec(base@, over@),
    decreases over,
{
    proof {
        lemma_view_variant(*base);
        lemma_view_variant(*over);
    }
    match (base, over) {
        (Value::Object(bm), Value::Object(om)) => Value::Object(deep_merge_entries(bm, om)),
        (Value::Array(ba), Value::Array(oa)) => {
            let mut result: Vec<Value> = Vec::new();
            let mut i: usize = 0;
            while i < ba.len()
                invariant
                    i <= ba@.len(),
                    result@.len() == i,
                    forall|j: int| 0 <= j < i ==> #[trigger] result@[j]@ == ba@[j]@,
                decreases ba@.len() - i,
            {
                result.push(clone_value(&ba[i]));
                i = i + 1;
            }
            let mut i: usize = 0;
            while i < oa.len()
                invariant
                    i <= oa@.len(),
                    result@.len() == ba@.len() + i,
                    forall|j: int| 0 <= j < ba@.len() ==> #[trigger] result@[j]@ == ba@[j]@,
                    forall|j: int| 0 <= j < i ==> #[trigger] result@[ba@.len() + j]@ == oa@[j]@,
                decreases oa@.len() - i,
            {
                result.push(clone_value(&oa[i]));
                i = i + 1;
            }
            proof {
                lemma_view_values(result@);
                lemma_view_values(ba@);
                lemma_view_values(oa@);
                assert forall|j: int| 0 <= j < result@.len() implies view_values(result@)[j] == (view_values(ba@) + view_values(oa@))[j] by {
                    if j >= ba@.len() {
                        assert(result@[ba@.len() + (j - ba@.len())]@ == oa@[j - ba@.len()]@);
                    }
                }
                assert(view_values(result@) =~= view_values(ba@) + view_values(oa@));
            }
            Value::Array(result)
        },
        _ => clone_value(over),
    }
}

// ── JSON merge patch ───────────────────────────────────────────────

/// Removes the entry under `k` by swapping the last entry into its place
/// (the removal of an insertion-ordered JSON object).
pub open spec fn obj_swap_remove(m: Seq<(Seq<char>, Val)>, k: Seq<char>) -> Seq<(Seq<char>, Val)> {
    let p = obj_find(m, k);
    if p < 0 {
        m
    } else {
        m.update(p, m.last()).drop_last()
    }
}

/// RFC 7396: a non-object patch replaces the target; an object patch
/// turns a non-object target into an empty object, then each null member
/// removes its key and each other member is merged into the key's value.
pub open spec fn merge_patch_spec(t: Val, p: Val) -> Val
    decreases p, 0int,
{
    match p {
        Val::Object(pm) => {
            let tm = match t {
                Val::Object(m) => m,
                _ => Seq::empty(),
            };
            Val::Object(patch_fold(tm, pm, pm.len() as int))
        },
        _ => p,
    }
}

/// The target entries with the first `n` members of the patch applied.
pub open spec fn patch_fold(m: Seq<(Seq<char>, Val)>, pm: Seq<(Seq<char>, Val)>, n: int) -> Seq<(Seq<char>, Val)>
    decreases pm, n,
{
    if n <= 0 || n > pm.len() {
        m
    } else {
        let r = patch_fold(m, pm, n - 1);
        let k = pm[n - 1].0;
        let v = pm[n - 1].1;
        if v is Null {
            obj_swap_remove(r, k)
        } else {
            obj_insert(r, k, merge_patch_spec(match obj_get(r, k) { Some(x) => x, None => Val::Null }, v))
        }
    }
}

fn swap_remove_entry(m: &mut Vec<(String, Value)>, k: &str)
    ensures
        view_entries(final(m)@) == obj_swap_remove(view_entries(old(m)@), k@),
{
    let ghost before = view_entries(m@);
    match find_entry(m, k) {
        Some(p) => {
            let last = m.len() - 1;
            if p < last {
                let e = m.pop().unwrap();
                m.set(p, e);
            } else {
                m.pop();
            }
            proof {
                let after = view_entries(m@);
                assert(after =~= before.update(p as int, before.last()).drop_last());
            }
        },
        None => {},
    }
}

fn patch_entries(tm: Vec<(String, Value)>, pm: &Vec<(String, Value)>) -> (r: Vec<(String, Value)>)
    ensures
        view_entries(r@) == patch_fold(view_entries(tm@), view_entries(pm@), pm@.len() as int),
    decreases pm,
{
    let mut result = tm;
    let ghost tv = view_entries(result@);
    let ghost pv = view_entries(pm@);
    let mut i: usize = 0;
    while i < pm.len()
        invariant
            pv == view_entries(pm@),
            i <= pm@.len(),
            view_entries(result@) == patch_fold(tv, pv, i as int),
        decreases pm@.len() - i,
    {
        proof {
            assert(decreases_to!(pm => pm@[i as int]));
            assert(decreases_to!(pm@[i as int] => pm@[i as int].1));
        }
        let k = pm[i].0.as_str();
        let v = &pm[i].1;
        assert(pv[i as int] == (k@, v@));
        if v.is_null() {
            swap_remove_entry(&mut result, k);
        } else {
            let merged = match find_entry(&result, k) {
                Some(j) => {
                    assert(view_entries(result@)[j as int].1 == result@[j as int].1@);
                    merge_patch_values(&result[j].1, v)
                },
                None => merge_patch_values(&Value::Null, v),
            };
            entries_insert(&mut result, to_owned_string(k), merged);
        }
        i = i + 1;
    }
    result
}

fn merge_patch_values(base: &Value, patch: &Value) -> (r: Value)
    ensures
        r@ == merge_patch_spec(base@, patch@),
    decreases patch,
{
    proof {
        lemma_view_variant(*base);
        lemma_view_variant(*patch);
    }
    match patch {
        Value::Object(pm) => {
            let tm = match base {
                Value::Object(m) => clone_entries(m),
                _ => {
                    let e: Vec<(String, Value)> = Vec::new();
                    assert(view_entries(e@) =~= Seq::empty());
                    e
                },
            };
            Value::Object(patch_entries(tm, pm))
        },
        _ => clone_value(patch),
    }
}


// ── JSON form ──────────────────────────────────────────────────────

/// The character of a base64 digit (standard alphabet).
pub open spec fn b64_digit(n: int) -> char {
    if n < 26 {
        (65 + n) as char
    } else if n < 52 {
        (97 + n - 26) as char
    } else if n < 62 {
        (48 + n - 52) as char
    } else if n == 62 {
        '+'
    } else {
        '/'
    }
}

/// Standard base64 with padding: each group of three bytes gives four
/// digits of six bits; a last group of one or two bytes is padded with `=`.
pub open spec fn base64_spec(b: Seq<u8>) -> Seq<char>
    decreases b.len(),
{
    if b.len() == 0 {
        Seq::empty()
    } else {
        let x = b[0] as int;
        let y = if b.len() > 1 { b[1] as int } else { 0 };
        let z = if b.len() > 2 { b[2] as int } else { 0 };
        if b.len() == 1 {
            seq![b64_digit(x / 4), b64_digit((x % 4) * 16), '=', '=']
        } else if b.len() == 2 {
            seq![b64_digit(x / 4), b64_digit((x % 4) * 16 + y / 16), b64_digit((y % 16) * 4), '=']
        } else {
            seq![b64_digit(x / 4), b64_digit((x % 4) * 16 + y / 16), b64_digit((y % 16) * 4 + z / 64), b64_digit(z % 64)]
                + base64_spec(b.subrange(3, b.len() as int))
        }
    }
}

/// `base64::engine::general_purpose::STANDARD.encode`: standard base64
/// with padding (see [`base64_spec`]).
#[verifier::external_body]
fn base64_standard(b: &[u8]) -> (r: String)
    ensures
        r@ == base64_spec(b@),
{
    base64::Engine::encode(&base64::engine::general_purpose::STANDARD, b)
}

/// The bit pattern of an `f64` is that of a finite number: its exponent
/// is not all ones.
pub open spec fn finite_bits(bits: u64) -> bool {
    (bits / 0x10_0000_0000_0000) % 0x800 != 0x7ff
}

/// The header of a block in JSON form: its type, then its labels when
/// it has any.
pub open spec fn block_header(t: Seq<char>, labels: Seq<Seq<char>>) -> Seq<(Seq<char>, Val)> {
    if labels.len() == 0 {
        seq![("__block_type"@, Val::Str(t))]
    } else {
        seq![("__block_type"@, Val::Str(t)), ("__labels"@, Val::Array(Seq::new(labels.len(), |i: int| Val::Str(labels[i]))))]
    }
}

/// A value as it comes back from JSON: a non-finite float is null, bytes
/// are their base64 text, a datetime is its text, a block is an object of
/// its header and body; arrays and objects are converted member by member,
/// a repeated key keeping its first place and its last value.
pub open spec fn json_form_spec(v: Val) -> Val
    decreases v, 1int,
{
    match v {
        Val::Float(b, _) => if finite_bits(b) { v } else { Val::Null },
        Val::Bytes(b) => Val::Str(base64_spec(b)),
        Val::Datetime(s) => Val::Str(s),
        Val::Array(a) => Val::Array(json_form_seq(a, a.len() as int)),
        Val::Object(m) => Val::Object(json_form_entries(Seq::empty(), m, m.len() as int)),
        Val::Block(t, labels, body) => Val::Object(json_form_entries(block_header(t, labels), body, body.len() as int)),
        _ => v,
    }
}

/// The first `n` elements in JSON form.
pub open spec fn json_form_seq(a: Seq<Val>, n: int) -> Seq<Val>
    decreases a, 0int, n,
{
    if n <= 0 || n > a.len() {
        Seq::empty()
    } else {
        json_form_seq(a, n - 1).push(json_form_spec(a[n - 1]))
    }
}

/// `start` with the first `n` entries of `m` inserted in JSON form.
pub open spec fn json_form_entries(start: Seq<(Seq<char>, Val)>, m: Seq<(Seq<char>, Val)>, n: int) -> Seq<(Seq<char>, Val)>
    decreases m, 0int, n,
{
    if n <= 0 || n > m.len() {
        start
    } else {
        obj_insert(json_form_entries(start, m, n - 1), m[n - 1].0, json_form_spec(m[n - 1].1))
    }
}

fn json_form_into(out: &mut Vec<(String, Value)>, m: &Vec<(String, Value)>)
    ensures
        view_entries(final(out)@) == json_form_entries(view_entries(old(out)@), view_entries(m@), m@.len() as int),
    decreases m,
{
    let ghost start = view_entries(out@);
    let ghost mv = view_entries(m@);
    let mut i: usize = 0;
    while i < m.len()
        invariant
            mv == view_entries(m@),
            i <= m@.len(),
            view_entries(out@) == json_form_entries(start, mv, i as int),
        decreases m@.len() - i,
    {
        proof {
            assert(decreases_to!(m => m@[i as int]));
            assert(decreases_to!(m@[i as int] => m@[i as int].1));
        }
        assert(mv[i as int] == (m@[i as int].0@, m@[i as int].1@));
        let v = json_form(&m[i].1);
        entries_insert(out, to_owned_string(m[i].0.as_str()), v);
        i = i + 1;
    }
}

fn json_form_values(a: &Vec<Value>) -> (r: Vec<Value>)
    ensures
        view_values(r@) == json_form_seq(view_values(a@), a@.len() as int),
    decreases a,
{
    let mut out: Vec<Value> = Vec::new();
    let ghost av = view_values(a@);
    let mut i: usize = 0;
    while i < a.len()
        invariant
            av == view_values(a@),
            i <= a@.len(),
            view_values(out@) == json_form_seq(av, i as int),
        decreases a@.len() - i,
    {
        proof { assert(decreases_to!(a => a@[i as int])); }
        assert(av[i as int] == a@[i as int]@);
        let ghost before = view_values(out@);
        out.push(json_form(&a[i]));
        assert(view_values(out@) =~= before.push(json_form_spec(av[i as int])));
        i = i + 1;
    }
    out
}

/// The value as it comes back from JSON (see [`json_form_spec`]).
pub fn json_form(v: &Value) -> (r: Value)
    ensures
        r@ == json_form_spec(v@),
    decreases v,
{
    match v {
        Value::Float(f) => {
            if (f.bits / 0x10_0000_0000_0000) % 0x800 != 0x7ff {
                clone_value(v)
            } else {
                Value::Null
            }
        },
        Value::Bytes(b) => Value::String(base64_standard(b.as_slice())),
        Value::Datetime(s) => Value::String(to_owned_string(s.as_str())),
        Value::Array(a) => Value::Array(json_form_values(a)),
        Value::Object(m) => {
            let mut out: Vec<(String, Value)> = Vec::new();
            assert(view_entries(out@) =~= Seq::<(Seq<char>, Val)>::empty());
            json_form_into(&mut out, m);
            Value::Object(out)
        },
        Value::Block(b) => {
            let mut out: Vec<(String, Value)> = Vec::new();
            out.push((to_owned_string("__block_type"), Value::String(to_owned_string(b.block_type.as_str()))));
            if b.labels.len() > 0 {
                let mut labels: Vec<Value> = Vec::new();
                let mut i: usize = 0;
                while i < b.labels.len()
                    invariant
                        i <= b.labels@.len(),
                        view_values(labels@) == Seq::new(i as nat, |j: int| Val::Str(b.labels@[j]@)),
                    decreases b.labels@.len() - i,
                {
                    let ghost before = view_values(labels@);
                    labels.push(Value::String(to_owned_string(b.labels[i].as_str())));
                    assert(view_values(labels@) =~= before.push(Val::Str(b.labels@[i as int]@)));
                    assert(view_values(labels@) =~= Seq::new((i + 1) as nat, |j: int| Val::Str(b.labels@[j]@)));
                    i = i + 1;
                }
                assert(view_values(labels@) =~= Seq::new(b.labels@.len(), |j: int| Val::Str(crate::value::view_strings(b.labels@)[j])));
                out.push((to_owned_string("__labels"), Value::Array(labels)));
            }
            proof { reveal_strlit("__block_type"); reveal_strlit("__labels"); }
            assert(view_entries(out@) =~= block_header(b.block_type@, crate::value::view_strings(b.labels@)));
            json_form_into(&mut out, &b.body);
            Value::Object(out)
        },
        _ => clone_value(v),
    }
}

/// An RFC 7396 merge of values as they come back from JSON.
pub open spec fn json_merge_patch_spec(base: Val, patch: Val) -> Val {
    merge_patch_spec(json_form_spec(base), json_form_spec(patch))
}

/// Applies an RFC 7396 JSON Merge Patch to the JSON forms of the base
/// and the patch (see [`json_form_spec`] and [`merge_patch_spec`]).
pub fn json_merge_patch(base: &Value, patch: &Value) -> (r: Value)
    ensures
        r@ == json_merge_patch_spec(base@, patch@),
{
    merge_patch_values(&json_form(base), &json_form(patch))
}


// ── Strategic merge ────────────────────────────────────────────────

/// Model of the merge-key table.
pub open spec fn keys_view(k: Seq<(String, String)>) -> Seq<(Seq<char>, Seq<char>)> {
    Seq::new(k.len(), |i: int| (k[i].0@, k[i].1@))
}

/// The key field of the first entry for path segment `seg`.
pub open spec fn merge_key_field(keys: Seq<(Seq<char>, Seq<char>)>, seg: Seq<char>) -> Option<Seq<char>>
    decreases keys.len(),
{
    if keys.len() == 0 {
        None
    } else if keys[0].0 == seg {
        Some(keys[0].1)
    } else {
        merge_key_field(keys.drop_first(), seg)
    }
}

/// Position of the first element whose `field` equals `kv`, or -1.
pub open spec fn first_keyed(r: Seq<Val>, field: Seq<char>, kv: Val) -> int
    decreases r.len(),
{
    if r.len() == 0 {
        -1
    } else if (match val_get(r[0], field) { Some(x) => val_eq(x, kv), None => false }) {
        0
    } else {
        let p = first_keyed(r.drop_first(), field, kv);
        if p < 0 { -1 } else { p + 1 }
    }
}

/// Strategic merge of `o` into `b`, where `cur` is the key under which
/// the values sit.
pub open spec fn strategic_spec(b: Val, o: Val, keys: Seq<(Seq<char>, Seq<char>)>, cur: Seq<char>) -> Val
    decreases o, 0int,
{
    match (b, o) {
        (Val::Object(bm), Val::Object(om)) => Val::Object(strategic_fold(bm, om, keys, om.len() as int)),
        (Val::Array(ba), Val::Array(oa)) => match merge_key_field(keys, cur) {
            Some(field) => Val::Array(strategic_items(ba, oa, keys, field, oa.len() as int)),
            None => o,
        },
        _ => o,
    }
}

/// Base entries with the first `n` override entries merged strategically.
pub open spec fn strategic_fold(m: Seq<(Seq<char>, Val)>, om: Seq<(Seq<char>, Val)>, keys: Seq<(Seq<char>, Seq<char>)>, n: int) -> Seq<(Seq<char>, Val)>
    decreases om, n,
{
    if n <= 0 || n > om.len() {
        m
    } else {
        let r = strategic_fold(m, om, keys, n - 1);
        let k = om[n - 1].0;
        let v = om[n - 1].1;
        obj_insert(r, k, match obj_get(r, k) {
            Some(bv) => strategic_spec(bv, v, keys, k),
            None => v,
        })
    }
}

/// Base elements with the first `n` override elements merged by `field`:
/// an element whose field matches an element of the result is merged into
/// the first such; any other element is appended.
pub open spec fn strategic_items(base: Seq<Val>, oa: Seq<Val>, keys: Seq<(Seq<char>, Seq<char>)>, field: Seq<char>, n: int) -> Seq<Val>
    decreases oa, n,
{
    if n <= 0 || n > oa.len() {
        base
    } else {
        let r = strategic_items(base, oa, keys, field, n - 1);
        let e = oa[n - 1];
        match val_get(e, field) {
            Some(kv) => {
                let j = first_keyed(r, field, kv);
                if 0 <= j < r.len() {
                    r.update(j, strategic_spec(r[j], e, keys, Seq::empty()))
                } else {
                    r.push(e)
                }
            },
            None => r.push(e),
        }
    }
}

fn key_field_for<'a>(keys: &'a Vec<(String, String)>, seg: &str) -> (r: Option<&'a str>)
    ensures
        match r {
            Some(f) => merge_key_field(keys_view(keys@), seg@) == Some(f@),
            None => merge_key_field(keys_view(keys@), seg@) is None,
        },
{
    let ghost kv = keys_view(keys@);
    let mut i: usize = 0;
    assert(kv.subrange(0, kv.len() as int) =~= kv);
    while i < keys.len()
        invariant
            kv == keys_view(keys@),
            i <= keys@.len(),
            merge_key_field(kv, seg@) == merge_key_field(kv.subrange(i as int, kv.len() as int), seg@),
        decreases keys@.len() - i,
    {
        let ghost rest = kv.subrange(i as int, kv.len() as int);
        assert(rest.drop_first() =~= kv.subrange(i + 1, kv.len() as int));
        assert(rest[0] == (keys@[i as int].0@, keys@[i as int].1@));
        if str_eq(keys[i].0.as_str(), seg) {
            return Some(keys[i].1.as_str());
        }
        i = i + 1;
    }
    assert(kv.subrange(i as int, kv.len() as int).len() == 0);
    None
}

fn find_keyed(r: &Vec<Value>, field: &str, kv: &Value) -> (p: Option<usize>)
    ensures
        match p {
            Some(j) => first_keyed(view_values(r@), field@, kv@) == j as int && j < r@.len(),
            None => first_keyed(view_values(r@), field@, kv@) == -1,
        },
{
    let ghost rv = view_values(r@);
    let mut j: usize = 0;
    proof { lemma_view_values(r@); }
    assert(rv.subrange(0, rv.len() as int) =~= rv);
    while j < r.len()
        invariant
            rv == view_values(r@),
            rv.len() == r@.len(),
            j <= r@.len(),
            first_keyed(rv, field@, kv@) == (if first_keyed(rv.subrange(j as int, rv.len() as int), field@, kv@) < 0 { -1 } else { first_keyed(rv.subrange(j as int, rv.len() as int), field@, kv@) + j }),
        decreases r@.len() - j,
    {
        let ghost rest = rv.subrange(j as int, rv.len() as int);
        assert(rest.drop_first() =~= rv.subrange(j + 1, rv.len() as int));
        assert(rest[0] == r@[j as int]@);
        let hit = match r[j].get(field) {
            Some(x) => value_eq(x, kv),
            None => false,
        };
        if hit {
            return Some(j);
        }
        j = j + 1;
    }
    None
}

fn strategic_items_exec(base: &Vec<Value>, oa: &Vec<Value>, keys: &Vec<(String, String)>, field: &str) -> (r: Vec<Value>)
    ensures
        view_values(r@) == strategic_items(view_values(base@), view_values(oa@), keys_view(keys@), field@, oa@.len() as int),
    decreases oa,
{
    let mut result: Vec<Value> = Vec::new();
    let mut i: usize = 0;
    while i < base.len()
        invariant
            i <= base@.len(),
            result@.len() == i,
            forall|j: int| 0 <= j < i ==> #[trigger] result@[j]@ == base@[j]@,
        decreases base@.len() - i,
    {
        result.push(clone_value(&base[i]));
        i = i + 1;
    }
    proof {
        lemma_view_values(result@);
        lemma_view_values(base@);
        assert(view_values(result@) =~= view_values(base@));
    }
    let ghost bv = view_values(base@);
    let ghost ov = view_values(oa@);
    let mut i: usize = 0;
    while i < oa.len()
        invariant
            bv == view_values(base@),
            ov == view_values(oa@),
            i <= oa@.len(),
            view_values(result@) == strategic_items(bv, ov, keys_view(keys@), field@, i as int),
        decreases oa@.len() - i,
    {
        proof {
            assert(decreases_to!(oa => oa@[i as int]));
            lemma_view_values(oa@);
        }
        let e = &oa[i];
        assert(ov[i as int] == e@);
        let ghost before = view_values(result@);
        match e.get(field) {
            Some(kv) => {
                match find_keyed(&result, field, kv) {
                    Some(j) => {
                        proof {
                            lemma_view_values(result@);
                            reveal_strlit("");
        assert(""@ =~= Seq::<char>::empty());
                        }
                        let merged = strategic_merge_inner(&result[j], e, keys, "");
                        result.set(j, merged);
                        proof {
                            lemma_view_values(result@);
                            assert(view_values(result@) =~= before.update(j as int, merged@));
                        }
                    },
                    None => {
                        result.push(clone_value(e));
                        proof {
                            lemma_view_values(result@);
                            assert(view_values(result@) =~= before.push(e@));
                        }
                    },
                }
            },
            None => {
                result.push(clone_value(e));
                proof {
                    lemma_view_values(result@);
                    assert(view_values(result@) =~= before.push(e@));
                }
            },
        }
        i = i + 1;
    }
    result
}

fn strategic_entries(bm: &Vec<(String, Value)>, om: &Vec<(String, Value)>, keys: &Vec<(String, String)>) -> (r: Vec<(String, Value)>)
    ensures
        view_entries(r@) == strategic_fold(view_entries(bm@), view_entries(om@), keys_view(keys@), om@.len() as int),
    decreases om,
{
    let mut result = clone_entries(bm);
    let ghost bv = view_entries(bm@);
    let ghost ov = view_entries(om@);
    let mut i: usize = 0;
    while i < om.len()
        invariant
            ov == view_entries(om@),
            i <= om@.len(),
            view_entries(result@) == strategic_fold(bv, ov, keys_view(keys@), i as int),
        decreases om@.len() - i,
    {
        proof {
            assert(decreases_to!(om => om@[i as int]));
            assert(decreases_to!(om@[i as int] => om@[i as int].1));
        }
        let k = om[i].0.as_str();
        let v = &om[i].1;
        assert(ov[i as int] == (k@, v@));
        let merged = match find_entry(&result, k) {
            Some(j) => {
                assert(view_entries(result@)[j as int].1 == result@[j as int].1@);
                strategic_merge_inner(&result[j].1, v, keys, k)
            },
            None => clone_value(v),
        };
        entries_insert(&mut result, to_owned_string(k), merged);
        i = i + 1;
    }
    result
}

fn strategic_merge_inner(base: &Value, over: &Value, keys: &Vec<(String, String)>, current_key: &str) -> (r: Value)
    ensures
        r@ == strategic_spec(base@, over@, keys_view(keys@), current_key@),
    decreases over,
{
    proof {
        lemma_view_variant(*base);
        lemma_view_variant(*over);
    }
    match (base, over) {
        (Value::Object(bm), Value::Object(om)) => Value::Object(strategic_entries(bm, om, keys)),
        (Value::Array(ba), Value::Array(oa)) => match key_field_for(keys, current_key) {
            Some(field) => Value::Array(strategic_items_exec(ba, oa, keys, field)),
            None => clone_value(over),
        },
        _ => clone_value(over),
    }
}

/// Kubernetes-style strategic merge: maps merge key by key; an array
/// sitting under a key listed in `merge_keys` merges element by element,
/// matched on the listed field; any other array is replaced.
pub fn strategic_merge(base: &Value, override_val: &Value, merge_keys: &Vec<(String, String)>) -> (r: Value)
    ensures
        r@ == strategic_spec(base@, override_val@, keys_view(merge_keys@), Seq::empty()),
{
    proof { reveal_strlit("");
        assert(""@ =~= Seq::<char>::empty()); }
    strategic_merge_inner(base, override_val, merge_keys, "")
}

// ── Dispatch and stacks ────────────────────────────────────────────

/// Model of a strategy.
pub enum StrategyView {
    Shallow,
    Deep,
    Replace,
    JsonMergePatch,
    Strategic(Seq<(Seq<char>, Seq<char>)>),
}

/// Model of a strategy.
pub open spec fn strategy_view(s: Strategy) -> StrategyView {
    match s {
        Strategy::Shallow => StrategyView::Shallow,
        Strategy::Deep => StrategyView::Deep,
        Strategy::Replace => StrategyView::Replace,
        Strategy::JsonMergePatch => StrategyView::JsonMergePatch,
        Strategy::Strategic { merge_keys } => StrategyView::Strategic(keys_view(merge_keys@)),
    }
}

/// The merge of `o` into `b` under a strategy.
pub open spec fn merge_spec(b: Val, o: Val, s: StrategyView) -> Val {
    match s {
        StrategyView::Replace => o,
        StrategyView::Shallow => shallow_spec(b, o),
        StrategyView::Deep => deep_spec(b, o),
        StrategyView::JsonMergePatch => json_merge_patch_spec(b, o),
        StrategyView::Strategic(k) => strategic_spec(b, o, k, Seq::empty()),
    }
}

fn merge_ref(base: &Value, override_val: &Value, strategy: &Strategy) -> (r: Value)
    ensures
        r@ == merge_spec(base@, override_val@, strategy_view(*strategy)),
{
    match strategy {
        Strategy::Replace => clone_value(override_val),
        Strategy::Shallow => shallow_merge(base, override_val),
        Strategy::Deep => deep_merge(base, override_val),
        Strategy::JsonMergePatch => json_merge_patch(base, override_val),
        Strategy::Strategic { merge_keys } => strategic_merge(base, override_val, merge_keys),
    }
}

/// Merges `override_val` into `base` under `strategy`; the override wins.
pub fn merge(base: &Value, override_val: &Value, strategy: Strategy) -> (r: Value)
    ensures
        r@ == merge_spec(base@, override_val@, strategy_view(strategy)),
{
    merge_ref(base, override_val, &strategy)
}

/// Merging the first `n` layers, lowest priority first: while the
/// accumulated value is null the next layer is taken as it is.
pub open spec fn stack_spec(vals: Seq<Val>, s: StrategyView, n: int) -> Val
    decreases n,
{
    if n <= 0 || n > vals.len() {
        Val::Null
    } else {
        let acc = stack_spec(vals, s, n - 1);
        if acc is Null {
            vals[n - 1]
        } else {
            merge_spec(acc, vals[n - 1], s)
        }
    }
}

/// Merges a stack of layers, first lowest priority, last highest.
pub fn merge_stack(values: &[Value], strategy: Strategy) -> (r: Value)
    ensures
        r@ == stack_spec(view_values(values@), strategy_view(strategy), values@.len() as int),
{
    let ghost vv = view_values(values@);
    let mut acc = Value::Null;
    let mut i: usize = 0;
    proof { lemma_view_values(values@); }
    while i < values.len()
        invariant
            vv == view_values(values@),
            vv.len() == values@.len(),
            forall|j: int| 0 <= j < values@.len() ==> #[trigger] vv[j] == values@[j]@,
            i <= values@.len(),
            acc@ == stack_spec(vv, strategy_view(strategy), i as int),
        decreases values@.len() - i,
    {
        let next = if acc.is_null() {
            clone_value(&values[i])
        } else {
            merge_ref(&acc, &values[i], &strategy)
        };
        acc = next;
        i = i + 1;
    }
    acc
}

// ── Diff ───────────────────────────────────────────────────────────

/// The changes from `a` to `b`: for two maps, the changed or added keys
/// of `b` (recursively diffed) and the keys removed from `a` (as null),
/// null when there are none; for other values, null when equal and `b`
/// otherwise.
pub open spec fn diff_spec(a: Val, b: Val) -> Val
    decreases b, 0int,
{
    match (a, b) {
        (Val::Object(am), Val::Object(bm)) => {
            let r = removed_fold(am, bm, diff_fold(am, bm, bm.len() as int), am.len() as int);
            if r.len() == 0 { Val::Null } else { Val::Object(r) }
        },
        _ => if val_eq(a, b) { Val::Null } else { b },
    }
}

/// Changes of the first `n` entries of `bm` against `am`.
pub open spec fn diff_fold(am: Seq<(Seq<char>, Val)>, bm: Seq<(Seq<char>, Val)>, n: int) -> Seq<(Seq<char>, Val)>
    decreases bm, n,
{
    if n <= 0 || n > bm.len() {
        Seq::empty()
    } else {
        let r = diff_fold(am, bm, n - 1);
        let k = bm[n - 1].0;
        let bv = bm[n - 1].1;
        match obj_get(am, k) {
            Some(av) => if val_eq(av, bv) {
                r
            } else {
                let d = diff_spec(av, bv);
                if d is Null { r } else { obj_insert(r, k, d) }
            },
            None => obj_insert(r, k, bv),
        }
    }
}

/// `r` with a null entry for each of the first `n` keys of `am` that `bm` lacks.
pub open spec fn removed_fold(am: Seq<(Seq<char>, Val)>, bm: Seq<(Seq<char>, Val)>, r: Seq<(Seq<char>, Val)>, n: int) -> Seq<(Seq<char>, Val)>
    decreases n,
{
    if n <= 0 || n > am.len() {
        r
    } else {
        let p = removed_fold(am, bm, r, n - 1);
        if obj_has(bm, am[n - 1].0) { p } else { obj_insert(p, am[n - 1].0, Val::Null) }
    }
}

fn diff_entries(am: &Vec<(String, Value)>, bm: &Vec<(String, Value)>) -> (r: Vec<(String, Value)>)
    ensures
        view_entries(r@) == diff_fold(view_entries(am@), view_entries(bm@), bm@.len() as int),
    decreases bm,
{
    let ghost av = view_entries(am@);
    let ghost bv = view_entries(bm@);
    let mut result: Vec<(String, Value)> = Vec::new();
    let mut i: usize = 0;
    assert(view_entries(result@) =~= Seq::empty());
    while i < bm.len()
        invariant
            av == view_entries(am@),
            bv == view_entries(bm@),
            i <= bm@.len(),
            view_entries(result@) == diff_fold(av, bv, i as int),
        decreases bm@.len() - i,
    {
        proof {
            assert(decreases_to!(bm => bm@[i as int]));
            assert(decreases_to!(bm@[i as int] => bm@[i as int].1));
        }
        let k = bm[i].0.as_str();
        let b = &bm[i].1;
        assert(bv[i as int] == (k@, b@));
        match find_entry(am, k) {
            Some(j) => {
                assert(av[j as int].1 == am@[j as int].1@);
                let a = &am[j].1;
                if !value_eq(a, b) {
                    let d = diff(a, b);
                    if !d.is_null() {
                        entries_insert(&mut result, to_owned_string(k), d);
                    }
                }
            },
            None => {
                entries_insert(&mut result, to_owned_string(k), clone_value(b));
            },
        }
        i = i + 1;
    }
    result
}

/// The changes from `a` to `b` (see [`diff_spec`]).
pub fn diff(a: &Value, b: &Value) -> (r: Value)
    ensures
        r@ == diff_spec(a@, b@),
    decreases b,
{
    proof {
        lemma_view_variant(*a);
        lemma_view_variant(*b);
    }
    match (a, b) {
        (Value::Object(am), Value::Object(bm)) => {
            let mut result = diff_entries(am, bm);
            let ghost av = view_entries(am@);
            let ghost bv = view_entries(bm@);
            let ghost start = view_entries(result@);
            let mut i: usize = 0;
            while i < am.len()
                invariant
                    av == view_entries(am@),
                    bv == view_entries(bm@),
                    i <= am@.len(),
                    view_entries(result@) == removed_fold(av, bv, start, i as int),
                decreases am@.len() - i,
            {
                let k = am[i].0.as_str();
                assert(av[i as int].0 == k@);
                if find_entry(bm, k).is_none() {
                    entries_insert(&mut result, to_owned_string(k), Value::Null);
                }
                i = i + 1;
            }
            if result.len() == 0 {
                Value::Null
            } else {
                Value::Object(result)
            }
        },
        _ => if value_eq(a, b) { Value::Null } else { clone_value(b) },
    }
}


// ── Three-way merge ────────────────────────────────────────────────

/// Optional values are equal: both absent, or both present and equal.
pub open spec fn opt_val_eq(a: Option<Val>, b: Option<Val>) -> bool {
    match (a, b) {
        (None, None) => true,
        (Some(x), Some(y)) => val_eq(x, y),
        _ => false,
    }
}

/// The dotted path of key `k` below `path`.
pub open spec fn child_path(path: Seq<char>, k: Seq<char>) -> Seq<char> {
    if path.len() == 0 { k } else { path + "."@ + k }
}

/// `acc` followed by the first `n` keys of `ks` that it does not hold yet.
pub open spec fn union_keys(acc: Seq<Seq<char>>, ks: Seq<Seq<char>>, n: int) -> Seq<Seq<char>>
    decreases n,
{
    if n <= 0 || n > ks.len() {
        acc
    } else {
        let a = union_keys(acc, ks, n - 1);
        if a.contains(ks[n - 1]) { a } else { a.push(ks[n - 1]) }
    }
}

/// Keys of the base, then new keys of the left, then new keys of the right.
pub open spec fn all_keys(bm: Seq<(Seq<char>, Val)>, lm: Seq<(Seq<char>, Val)>, rm: Seq<(Seq<char>, Val)>) -> Seq<Seq<char>> {
    let kl = union_keys(obj_keys(bm), obj_keys(lm), lm.len() as int);
    union_keys(kl, obj_keys(rm), rm.len() as int)
}

/// The message of a conflict between two maps' entries.
pub open spec fn key_conflict_message() -> Seq<char> {
    "both sides modified this key differently"@
}

/// The message of a conflict between two plain values.
pub open spec fn value_conflict_message() -> Seq<char> {
    "both sides modified this value differently"@
}

/// Three-way merge of `l` and `r` against their common base `b`, at
/// `path`: a side that did not change yields to the other; equal changes
/// agree; maps changed on both sides merge key by key; any other double
/// change is a conflict, reported with its path and message.
pub open spec fn three_way_spec(b: Val, l: Val, r: Val, path: Seq<char>) -> Result<Val, (Seq<char>, Seq<char>)>
    decreases l, 0int,
{
    match (b, l, r) {
        (Val::Object(bm), Val::Object(lm), Val::Object(rm)) => {
            let ks = all_keys(bm, lm, rm);
            match three_way_fold(bm, lm, rm, path, ks, ks.len() as int) {
                Ok(m) => Ok(Val::Object(m)),
                Err(e) => Err(e),
            }
        },
        _ => {
            let lc = !val_eq(l, b);
            let rc = !val_eq(r, b);
            if !lc && !rc {
                Ok(b)
            } else if lc && !rc {
                Ok(l)
            } else if !lc && rc {
                Ok(r)
            } else if val_eq(l, r) {
                Ok(l)
            } else {
                Err((path, value_conflict_message()))
            }
        },
    }
}

/// The optional value is a map.
pub open spec fn is_obj_opt(o: Option<Val>) -> bool {
    match o {
        Some(Val::Object(_)) => true,
        _ => false,
    }
}

/// Inserts an optional value under `k`.
pub open spec fn insert_opt(acc: Seq<(Seq<char>, Val)>, k: Seq<char>, v: Option<Val>) -> Seq<(Seq<char>, Val)> {
    match v {
        Some(x) => obj_insert(acc, k, x),
        None => acc,
    }
}

/// The merged entries for the first `n` keys of `ks`.
pub open spec fn three_way_fold(
    bm: Seq<(Seq<char>, Val)>,
    lm: Seq<(Seq<char>, Val)>,
    rm: Seq<(Seq<char>, Val)>,
    path: Seq<char>,
    ks: Seq<Seq<char>>,
    n: int,
) -> Result<Seq<(Seq<char>, Val)>, (Seq<char>, Seq<char>)>
    decreases lm, n,
{
    if n <= 0 || n > ks.len() {
        Ok(Seq::empty())
    } else {
        match three_way_fold(bm, lm, rm, path, ks, n - 1) {
            Err(e) => Err(e),
            Ok(acc) => {
                let k = ks[n - 1];
                let bv = obj_get(bm, k);
                let li = obj_find(lm, k);
                let lv = if 0 <= li < lm.len() { Some(lm[li].1) } else { None };
                let rv = obj_get(rm, k);
                let cp = child_path(path, k);
                let lc = !opt_val_eq(lv, bv);
                let rc = !opt_val_eq(rv, bv);
                if !lc && !rc {
                    Ok(insert_opt(acc, k, bv))
                } else if lc && !rc {
                    Ok(insert_opt(acc, k, lv))
                } else if !lc && rc {
                    Ok(insert_opt(acc, k, rv))
                } else if opt_val_eq(lv, rv) {
                    Ok(insert_opt(acc, k, lv))
                } else if 0 <= li < lm.len() && lm[li].1 is Object && is_obj_opt(rv) && (bv is None || is_obj_opt(bv)) {
                    let base = match bv { Some(x) => x, None => Val::Object(Seq::empty()) };
                    match three_way_spec(base, lm[li].1, rv->0, cp) {
                        Ok(m) => Ok(obj_insert(acc, k, m)),
                        Err(e) => Err(e),
                    }
                } else {
                    Err((cp, key_conflict_message()))
                }
            },
        }
    }
}

fn union_into(acc: &mut Vec<String>, m: &Vec<(String, Value)>)
    ensures
        strings_view(final(acc)@) == union_keys(strings_view(old(acc)@), obj_keys(view_entries(m@)), m@.len() as int),
{
    let ghost start = strings_view(acc@);
    let ghost ks = obj_keys(view_entries(m@));
    let mut i: usize = 0;
    while i < m.len()
        invariant
            ks == obj_keys(view_entries(m@)),
            i <= m@.len(),
            strings_view(acc@) == union_keys(start, ks, i as int),
        decreases m@.len() - i,
    {
        let k = m[i].0.as_str();
        assert(ks[i as int] == k@);
        if !strings_contain(acc, k) {
            let ghost before = strings_view(acc@);
            acc.push(to_owned_string(k));
            assert(strings_view(acc@) =~= before.push(k@));
        }
        i = i + 1;
    }
}

fn opt_eq(a: Option<&Value>, b: Option<&Value>) -> (r: bool)
    ensures
        r == opt_val_eq(crate::value::opt_view(a), crate::value::opt_view(b)),
{
    match (a, b) {
        (None, None) => true,
        (Some(x), Some(y)) => value_eq(x, y),
        _ => false,
    }
}

fn get_entry<'a>(m: &'a Vec<(String, Value)>, k: &str) -> (r: Option<&'a Value>)
    ensures
        crate::value::opt_view(r) == obj_get(view_entries(m@), k@),
{
    match find_entry(m, k) {
        Some(i) => {
            assert(view_entries(m@)[i as int].1 == m@[i as int].1@);
            Some(&m[i].1)
        },
        None => None,
    }
}

fn child(path: &str, k: &str) -> (r: String)
    ensures
        r@ == child_path(path@, k@),
{
    if path.unicode_len() == 0 {
        to_owned_string(k)
    } else {
        let mut r = to_owned_string(path);
        push_str(&mut r, ".");
        push_str(&mut r, k);
        r
    }
}

fn insert_some(acc: &mut Vec<(String, Value)>, k: &str, v: Option<&Value>)
    ensures
        view_entries(final(acc)@) == insert_opt(view_entries(old(acc)@), k@, crate::value::opt_view(v)),
{
    match v {
        Some(x) => entries_insert(acc, to_owned_string(k), clone_value(x)),
        None => {},
    }
}

/// Error carrying a conflict.
pub open spec fn conflict_of(e: Error) -> Option<(Seq<char>, Seq<char>)> {
    match e {
        Error::MergeConflict { path, message } => Some((path@, message@)),
        _ => None,
    }
}

/// The result of a three-way merge against its model.
pub open spec fn three_way_result(r: Result<Value, Error>, spec: Result<Val, (Seq<char>, Seq<char>)>) -> bool {
    match r {
        Ok(v) => spec == Ok::<Val, (Seq<char>, Seq<char>)>(v@),
        Err(e) => spec is Err && conflict_of(e) == Some(spec->Err_0),
    }
}

fn three_way_entries(bm: &Vec<(String, Value)>, lm: &Vec<(String, Value)>, rm: &Vec<(String, Value)>, path: &str) -> (r: Result<Vec<(String, Value)>, Error>)
    ensures
        match r {
            Ok(m) => three_way_fold(view_entries(bm@), view_entries(lm@), view_entries(rm@), path@,
                all_keys(view_entries(bm@), view_entries(lm@), view_entries(rm@)),
                all_keys(view_entries(bm@), view_entries(lm@), view_entries(rm@)).len() as int) == Ok::<Seq<(Seq<char>, Val)>, (Seq<char>, Seq<char>)>(view_entries(m@)),
            Err(e) => {
                let s = three_way_fold(view_entries(bm@), view_entries(lm@), view_entries(rm@), path@,
                    all_keys(view_entries(bm@), view_entries(lm@), view_entries(rm@)),
                    all_keys(view_entries(bm@), view_entries(lm@), view_entries(rm@)).len() as int);
                s is Err && conflict_of(e) == Some(s->Err_0)
            },
        },
    decreases lm,
{
    let ghost bv = view_entries(bm@);
    let ghost lv = view_entries(lm@);
    let ghost rv = view_entries(rm@);
    let mut keys: Vec<String> = Vec::new();
    let mut i: usize = 0;
    while i < bm.len()
        invariant
            i <= bm@.len(),
            keys@.len() == i,
            forall|j: int| 0 <= j < i ==> #[trigger] keys@[j]@ == bm@[j].0@,
        decreases bm@.len() - i,
    {
        keys.push(to_owned_string(bm[i].0.as_str()));
        i = i + 1;
    }
    assert(strings_view(keys@) =~= obj_keys(bv));
    union_into(&mut keys, lm);
    union_into(&mut keys, rm);
    let ghost ks = strings_view(keys@);
    assert(ks == all_keys(bv, lv, rv));
    let mut result: Vec<(String, Value)> = Vec::new();
    assert(view_entries(result@) =~= Seq::empty());
    let mut n: usize = 0;
    while n < keys.len()
        invariant
            bv == view_entries(bm@),
            lv == view_entries(lm@),
            rv == view_entries(rm@),
            ks == strings_view(keys@),
            ks == all_keys(bv, lv, rv),
            n <= keys@.len(),
            three_way_fold(bv, lv, rv, path@, ks, n as int) == Ok::<Seq<(Seq<char>, Val)>, (Seq<char>, Seq<char>)>(view_entries(result@)),
        decreases keys@.len() - n,
    {
        let k = keys[n].as_str();
        assert(ks[n as int] == k@);
        let b = get_entry(bm, k);
        let li = find_entry(lm, k);
        let l = match li {
            Some(j) => {
                assert(lv[j as int].1 == lm@[j as int].1@);
                Some(&lm[j].1)
            },
            None => None,
        };
        proof { lemma_obj_find(lv, k@); }
        let r = get_entry(rm, k);
        let cp = child(path, k);
        let lc = !opt_eq(l, b);
        let rc = !opt_eq(r, b);
        if !lc && !rc {
            insert_some(&mut result, k, b);
        } else if lc && !rc {
            insert_some(&mut result, k, l);
        } else if !lc && rc {
            insert_some(&mut result, k, r);
        } else if opt_eq(l, r) {
            insert_some(&mut result, k, l);
        } else {
            let both_maps = match (l, r) {
                (Some(x), Some(y)) => x.is_map() && y.is_map() && match b {
                    Some(z) => z.is_map(),
                    None => true,
                },
                _ => false,
            };
            if both_maps {
                let lx = l.unwrap();
                let ry = r.unwrap();
                proof {
                    let j = obj_find(lv, k@);
                    assert(decreases_to!(lm => lm@[j]));
                    assert(decreases_to!(lm@[j] => lm@[j].1));
                }
                let merged = match b {
                    Some(z) => three_way_inner(z, lx, ry, cp.as_str()),
                    None => {
                        let ev: Vec<(String, Value)> = Vec::new();
                        assert(view_entries(ev@) =~= Seq::empty());
                        let empty = Value::Object(ev);
                        three_way_inner(&empty, lx, ry, cp.as_str())
                    },
                };
                match merged {
                    Ok(m) => entries_insert(&mut result, to_owned_string(k), m),
                    Err(e) => {
                        assert(three_way_fold(bv, lv, rv, path@, ks, n + 1) is Err);
                        assert(conflict_of(e) == Some(three_way_fold(bv, lv, rv, path@, ks, n + 1)->Err_0));
                        proof { lemma_fold_err_stays(bv, lv, rv, path@, ks, n + 1, ks.len() as int); }
                        return Err(e);
                    },
                }
            } else {
                let err = Error::MergeConflict { path: cp, message: to_owned_string("both sides modified this key differently") };
                assert(three_way_fold(bv, lv, rv, path@, ks, n + 1) == Err::<Seq<(Seq<char>, Val)>, (Seq<char>, Seq<char>)>((child_path(path@, k@), key_conflict_message())));
                proof { lemma_fold_err_stays(bv, lv, rv, path@, ks, n + 1, ks.len() as int); }
                return Err(err);
            }
        }
        n = n + 1;
    }
    Ok(result)
}

proof fn lemma_fold_err_stays(
    bm: Seq<(Seq<char>, Val)>,
    lm: Seq<(Seq<char>, Val)>,
    rm: Seq<(Seq<char>, Val)>,
    path: Seq<char>,
    ks: Seq<Seq<char>>,
    k: int,
    j: int,
)
    requires
        0 <= k <= j <= ks.len(),
        three_way_fold(bm, lm, rm, path, ks, k) is Err,
    ensures
        three_way_fold(bm, lm, rm, path, ks, j) == three_way_fold(bm, lm, rm, path, ks, k),
    decreases j - k,
{
    if k < j {
        lemma_fold_err_stays(bm, lm, rm, path, ks, k, j - 1);
    }
}

fn three_way_inner(base: &Value, left: &Value, right: &Value, path: &str) -> (r: Result<Value, Error>)
    ensures
        three_way_result(r, three_way_spec(base@, left@, right@, path@)),
    decreases left,
{
    proof {
        lemma_view_variant(*base);
        lemma_view_variant(*left);
        lemma_view_variant(*right);
    }
    match (base, left, right) {
        (Value::Object(bm), Value::Object(lm), Value::Object(rm)) => {
            match three_way_entries(bm, lm, rm, path) {
                Ok(m) => Ok(Value::Object(m)),
                Err(e) => Err(e),
            }
        },
        _ => {
            let lc = !value_eq(left, base);
            let rc = !value_eq(right, base);
            if !lc && !rc {
                Ok(clone_value(base))
            } else if lc && !rc {
                Ok(clone_value(left))
            } else if !lc && rc {
                Ok(clone_value(right))
            } else if value_eq(left, right) {
                Ok(clone_value(left))
            } else {
                Err(Error::MergeConflict { path: to_owned_string(path), message: to_owned_string("both sides modified this value differently") })
            }
        },
    }
}

/// Three-way merge of `left` and `right` against their common `base`
/// (see [`three_way_spec`]); a conflict is reported as
/// [`Error::MergeConflict`] with its dotted path.
pub fn three_way_merge(base: &Value, left: &Value, right: &Value) -> (r: Result<Value, Error>)
    ensures
        three_way_result(r, three_way_spec(base@, left@, right@, Seq::empty())),
{
    proof {
        reveal_strlit("");
        assert(""@ =~= Seq::<char>::empty());
    }
    three_way_inner(base, left, right, "")
}


// ── Flatten / unflatten ────────────────────────────────────────────

/// The key of a child below `prefix`.
pub open spec fn flat_key(prefix: Seq<char>, sep: Seq<char>, k: Seq<char>) -> Seq<char> {
    if prefix.len() == 0 { k } else { prefix + sep + k }
}

/// `out` with the leaves of `v` inserted under their joined keys.
pub open spec fn flatten_into_spec(out: Seq<(Seq<char>, Val)>, v: Val, prefix: Seq<char>, sep: Seq<char>) -> Seq<(Seq<char>, Val)>
    decreases v, 0int,
{
    match v {
        Val::Object(m) => flatten_entries_spec(out, m, prefix, sep, m.len() as int),
        Val::Block(_, _, m) => flatten_entries_spec(out, m, prefix, sep, m.len() as int),
        _ => obj_insert(out, prefix, v),
    }
}

/// `out` with the leaves of the first `n` entries of `m` inserted.
pub open spec fn flatten_entries_spec(out: Seq<(Seq<char>, Val)>, m: Seq<(Seq<char>, Val)>, prefix: Seq<char>, sep: Seq<char>, n: int) -> Seq<(Seq<char>, Val)>
    decreases m, n,
{
    if n <= 0 || n > m.len() {
        out
    } else {
        let o = flatten_entries_spec(out, m, prefix, sep, n - 1);
        flatten_into_spec(o, m[n - 1].1, flat_key(prefix, sep, m[n - 1].0), sep)
    }
}

/// Nested maps (and block bodies) flattened into one map whose keys join
/// the nested keys with `sep`.
pub open spec fn flatten_keys_spec(v: Val, sep: Seq<char>) -> Val {
    Val::Object(flatten_into_spec(Seq::empty(), v, Seq::empty(), sep))
}

fn flat_key_exec(prefix: &str, sep: &str, k: &str) -> (r: String)
    ensures
        r@ == flat_key(prefix@, sep@, k@),
{
    if prefix.unicode_len() == 0 {
        to_owned_string(k)
    } else {
        let mut r = to_owned_string(prefix);
        push_str(&mut r, sep);
        push_str(&mut r, k);
        r
    }
}

fn flatten_entries(m: &Vec<(String, Value)>, prefix: &str, sep: &str, out: &mut Vec<(String, Value)>)
    ensures
        view_entries(final(out)@) == flatten_entries_spec(view_entries(old(out)@), view_entries(m@), prefix@, sep@, m@.len() as int),
    decreases m,
{
    let ghost start = view_entries(out@);
    let ghost mv = view_entries(m@);
    let mut i: usize = 0;
    while i < m.len()
        invariant
            mv == view_entries(m@),
            i <= m@.len(),
            view_entries(out@) == flatten_entries_spec(start, mv, prefix@, sep@, i as int),
        decreases m@.len() - i,
    {
        proof {
            assert(decreases_to!(m => m@[i as int]));
            assert(decreases_to!(m@[i as int] => m@[i as int].1));
        }
        assert(mv[i as int] == (m@[i as int].0@, m@[i as int].1@));
        let key = flat_key_exec(prefix, sep, m[i].0.as_str());
        flatten_inner(&m[i].1, key.as_str(), sep, out);
        i = i + 1;
    }
}

fn flatten_inner(value: &Value, prefix: &str, sep: &str, out: &mut Vec<(String, Value)>)
    ensures
        view_entries(final(out)@) == flatten_into_spec(view_entries(old(out)@), value@, prefix@, sep@),
    decreases value,
{
    proof { lemma_view_variant(*value); }
    match value {
        Value::Object(m) => flatten_entries(m, prefix, sep, out),
        Value::Block(b) => {
            proof { assert(decreases_to!(value => b.body)); }
            flatten_entries(&b.body, prefix, sep, out)
        },
        leaf => entries_insert(out, to_owned_string(prefix), clone_value(leaf)),
    }
}

/// Flattens nested maps into one map with `sep`-joined keys:
/// `{"a": {"b": 1}}` becomes `{"a.b": 1}` with `"."`.
pub fn flatten_keys(value: &Value, separator: &str) -> (r: Value)
    ensures
        r@ == flatten_keys_spec(value@, separator@),
{
    let mut out: Vec<(String, Value)> = Vec::new();
    assert(view_entries(out@) =~= Seq::empty());
    proof {
        reveal_strlit("");
        assert(""@ =~= Seq::<char>::empty());
    }
    flatten_inner(value, "", separator, &mut out);
    Value::Object(out)
}

/// `m` with `v` stored at the nested key path `parts`: missing levels are
/// created as empty maps; a level that holds something other than a map
/// stops the insertion.
pub open spec fn insert_nested_spec(m: Seq<(Seq<char>, Val)>, parts: Seq<Seq<char>>, v: Val) -> Seq<(Seq<char>, Val)>
    decreases parts.len(),
{
    if parts.len() == 0 {
        m
    } else if parts.len() == 1 {
        obj_insert(m, parts[0], v)
    } else {
        let k = parts[0];
        let m1 = if obj_has(m, k) { m } else { m.push((k, Val::Object(Seq::empty()))) };
        match obj_get(m1, k) {
            Some(Val::Object(inner)) => obj_insert(m1, k, Val::Object(insert_nested_spec(inner, parts.drop_first(), v))),
            _ => m1,
        }
    }
}

/// The entries of `m`, first `n` of them, inserted at their split keys.
pub open spec fn unflatten_fold(m: Seq<(Seq<char>, Val)>, sep: Seq<char>, n: int) -> Seq<(Seq<char>, Val)>
    decreases n,
{
    if n <= 0 || n > m.len() {
        Seq::empty()
    } else {
        insert_nested_spec(unflatten_fold(m, sep, n - 1), split_by_spec(m[n - 1].0, sep), m[n - 1].1)
    }
}

/// A map with `sep`-joined keys expanded into nested maps; any other
/// value is returned as it is.
pub open spec fn unflatten_keys_spec(v: Val, sep: Seq<char>) -> Val {
    match v {
        Val::Object(m) => Val::Object(unflatten_fold(m, sep, m.len() as int)),
        _ => v,
    }
}

fn insert_nested(m: &mut Vec<(String, Value)>, parts: &Vec<String>, from: usize, val: Value)
    requires
        from <= parts@.len(),
    ensures
        view_entries(final(m)@) == insert_nested_spec(view_entries(old(m)@), strings_view(parts@).subrange(from as int, parts@.len() as int), val@),
    decreases parts@.len() - from,
{
    let ghost pv = strings_view(parts@).subrange(from as int, parts@.len() as int);
    if parts.len() - from == 0 {
        return;
    }
    assert(pv[0] == parts@[from as int]@);
    if parts.len() - from == 1 {
        entries_insert(m, to_owned_string(parts[from].as_str()), val);
        return;
    }
    let k = parts[from].as_str();
    if find_entry(m, k).is_none() {
        let ev: Vec<(String, Value)> = Vec::new();
        assert(view_entries(ev@) =~= Seq::empty());
        let ghost before = view_entries(m@);
        m.push((to_owned_string(k), Value::Object(ev)));
        assert(view_entries(m@) =~= before.push((k@, Val::Object(Seq::empty()))));
    }
    let ghost m1 = view_entries(m@);
    match find_entry(m, k) {
        Some(j) => {
            assert(m1[j as int].1 == m@[j as int].1@);
            proof { lemma_view_variant(m@[j as int].1); }
            let inner_opt = match &m[j].1 {
                Value::Object(inner) => Some(clone_entries(inner)),
                _ => None,
            };
            match inner_opt {
                Some(mut inner) => {
                    assert(strings_view(parts@).subrange(from + 1, parts@.len() as int) =~= pv.drop_first());
                    insert_nested(&mut inner, parts, from + 1, val);
                    entries_insert(m, to_owned_string(k), Value::Object(inner));
                },
                None => {},
            }
        },
        None => {
            proof { lemma_obj_find(m1, k@); }
        },
    }
}

/// Expands `sep`-joined keys into nested maps:
/// `{"a.b": 1}` becomes `{"a": {"b": 1}}` with `"."`.
pub fn unflatten_keys(value: &Value, separator: &str) -> (r: Value)
    ensures
        r@ == unflatten_keys_spec(value@, separator@),
{
    proof { lemma_view_variant(*value); }
    match value {
        Value::Object(m) => {
            let ghost mv = view_entries(m@);
            let mut root: Vec<(String, Value)> = Vec::new();
            assert(view_entries(root@) =~= Seq::empty());
            let mut i: usize = 0;
            while i < m.len()
                invariant
                    mv == view_entries(m@),
                    i <= m@.len(),
                    view_entries(root@) == unflatten_fold(mv, separator@, i as int),
                decreases m@.len() - i,
            {
                assert(mv[i as int] == (m@[i as int].0@, m@[i as int].1@));
                let parts = split_by(m[i].0.as_str(), separator);
                assert(strings_view(parts@).subrange(0, parts@.len() as int) =~= strings_view(parts@));
                insert_nested(&mut root, &parts, 0, clone_value(&m[i].1));
                i = i + 1;
            }
            Value::Object(root)
        },
        _ => clone_value(value),
    }
}


// ── Laws ───────────────────────────────────────────────────────────

/// The value of the last of the first `n` entries keyed `k`.
pub open spec fn last_in(p: Seq<(Seq<char>, Val)>, k: Seq<char>, n: int) -> Option<Val>
    decreases n,
{
    if n <= 0 || n > p.len() {
        None
    } else if p[n - 1].0 == k {
        Some(p[n - 1].1)
    } else {
        last_in(p, k, n - 1)
    }
}

proof fn lemma_last_in_some(p: Seq<(Seq<char>, Val)>, k: Seq<char>, n: int)
    requires
        last_in(p, k, n) is Some,
    ensures
        exists|j: int| 0 <= j < n && j < p.len() && p[j].0 == k,
    decreases n,
{
    if 0 < n <= p.len() && p[n - 1].0 != k {
        lemma_last_in_some(p, k, n - 1);
    }
}

proof fn lemma_insert_all_get(m: Seq<(Seq<char>, Val)>, p: Seq<(Seq<char>, Val)>, k: Seq<char>, n: int)
    requires
        0 <= n <= p.len(),
    ensures
        obj_get(insert_all(m, p, n), k) == match last_in(p, k, n) {
            Some(v) => Some(v),
            None => obj_get(m, k),
        },
    decreases n,
{
    if n > 0 {
        lemma_insert_all_get(m, p, k, n - 1);
        law_insert_then_get(insert_all(m, p, n - 1), p[n - 1].0, p[n - 1].1, k);
    }
}

/// Shallow merge of two maps, last wins: a key the override has takes the
/// override's value (its last entry for the key); any other key keeps the
/// base's value.
pub proof fn law_shallow_last_wins(bm: Seq<(Seq<char>, Val)>, om: Seq<(Seq<char>, Val)>, k: Seq<char>)
    ensures
        shallow_spec(Val::Object(bm), Val::Object(om)) is Object,
        obj_get(shallow_spec(Val::Object(bm), Val::Object(om))->Object_0, k) == match last_in(om, k, om.len() as int) {
            Some(v) => Some(v),
            None => obj_get(bm, k),
        },
{
    lemma_insert_all_get(bm, om, k, om.len() as int);
}

/// Deep merge concatenates arrays: merging an array over an array gives
/// every element of the base, in order, then every element of the
/// override, in order, whatever their lengths.
pub proof fn law_deep_concatenates_arrays(ba: Seq<Val>, oa: Seq<Val>)
    ensures
        merge_spec(Val::Array(ba), Val::Array(oa), StrategyView::Deep) is Array,
        merge_spec(Val::Array(ba), Val::Array(oa), StrategyView::Deep)->Array_0.len() == ba.len() + oa.len(),
        forall|i: int| 0 <= i < ba.len() ==> merge_spec(Val::Array(ba), Val::Array(oa), StrategyView::Deep)->Array_0[i] == ba[i],
        forall|j: int| 0 <= j < oa.len() ==> merge_spec(Val::Array(ba), Val::Array(oa), StrategyView::Deep)->Array_0[ba.len() + j] == oa[j],
{
}

/// Deep merge of two maps whose override has each key once: a key only
/// the base has keeps its value, a key only the override has takes the
/// override's value, and a key both have holds the deep merge of the two.
pub proof fn law_deep_merges_keys(bm: Seq<(Seq<char>, Val)>, om: Seq<(Seq<char>, Val)>, k: Seq<char>)
    requires
        obj_keys_unique(om),
    ensures
        deep_spec(Val::Object(bm), Val::Object(om)) is Object,
        obj_get(deep_spec(Val::Object(bm), Val::Object(om))->Object_0, k) == match last_in(om, k, om.len() as int) {
            Some(ov) => Some(match obj_get(bm, k) {
                Some(bv) => deep_spec(bv, ov),
                None => ov,
            }),
            None => obj_get(bm, k),
        },
{
    lemma_deep_fold_get(bm, om, k, om.len() as int);
}

proof fn lemma_deep_fold_get(bm: Seq<(Seq<char>, Val)>, om: Seq<(Seq<char>, Val)>, k: Seq<char>, n: int)
    requires
        obj_keys_unique(om),
        0 <= n <= om.len(),
    ensures
        obj_get(deep_fold(bm, om, n), k) == match last_in(om, k, n) {
            Some(ov) => Some(match obj_get(bm, k) {
                Some(bv) => deep_spec(bv, ov),
                None => ov,
            }),
            None => obj_get(bm, k),
        },
    decreases n,
{
    if n > 0 {
        lemma_deep_fold_get(bm, om, k, n - 1);
        let r = deep_fold(bm, om, n - 1);
        let kn = om[n - 1].0;
        let v = om[n - 1].1;
        let nv = match obj_get(r, kn) {
            Some(bv) => deep_spec(bv, v),
            None => v,
        };
        law_insert_then_get(r, kn, nv, k);
        if kn == k {
            if last_in(om, k, n - 1) is Some {
                lemma_last_in_some(om, k, n - 1);
                let j = choose|j: int| 0 <= j < n - 1 && j < om.len() && om[j].0 == k;
                assert(om[j].0 == om[n - 1].0);
            }
        }
    }
}

/// A map whose keys all differ, seen through `obj_find`: a key found at
/// `i` is found nowhere else.
proof fn lemma_unique_find(m: Seq<(Seq<char>, Val)>, k: Seq<char>, i: int)
    requires
        obj_keys_unique(m),
        0 <= i < m.len(),
        m[i].0 == k,
    ensures
        obj_find(m, k) == i,
{
    lemma_obj_find_at(m, k, i);
}

proof fn lemma_swap_remove(m: Seq<(Seq<char>, Val)>, k: Seq<char>, k2: Seq<char>)
    requires
        obj_keys_unique(m),
    ensures
        obj_keys_unique(obj_swap_remove(m, k)),
        obj_get(obj_swap_remove(m, k), k) is None,
        k2 != k ==> obj_get(obj_swap_remove(m, k), k2) == obj_get(m, k2),
{
    lemma_obj_find(m, k);
    lemma_obj_find(m, k2);
    let p = obj_find(m, k);
    let r = obj_swap_remove(m, k);
    if p < 0 {
        return;
    }
    let last = m.len() - 1;
    assert(r.len() == last);
    assert forall|j: int| 0 <= j < r.len() implies #[trigger] r[j] == (if j == p { m[last] } else { m[j] }) by {}
    assert(obj_keys_unique(r)) by {
        assert forall|i: int, j: int| 0 <= i < r.len() && 0 <= j < r.len() && i != j implies r[i].0 != r[j].0 by {
            let ii = if i == p { last } else { i };
            let jj = if j == p { last } else { j };
            assert(r[i] == m[ii] && r[j] == m[jj]);
        }
    }
    assert forall|j: int| 0 <= j < r.len() implies r[j].0 != k by {
        let jj = if j == p { last } else { j };
        assert(r[j] == m[jj]);
        assert(jj != p);
    }
    lemma_obj_find_none(r, k);
    if k2 != k {
        let q = obj_find(m, k2);
        if q >= 0 {
            let qq = if q == last { p } else { q };
            assert(r[qq] == m[q]);
            lemma_unique_find(r, k2, qq);
        } else {
            assert forall|j: int| 0 <= j < r.len() implies r[j].0 != k2 by {
                let jj = if j == p { last } else { j };
                assert(r[j] == m[jj]);
            }
            lemma_obj_find_none(r, k2);
        }
    }
}

proof fn lemma_insert_unique(m: Seq<(Seq<char>, Val)>, k: Seq<char>, v: Val)
    requires
        obj_keys_unique(m),
    ensures
        obj_keys_unique(obj_insert(m, k, v)),
{
    lemma_obj_find(m, k);
    let r = obj_insert(m, k, v);
    let p = obj_find(m, k);
    assert forall|i: int, j: int| 0 <= i < r.len() && 0 <= j < r.len() && i != j implies r[i].0 != r[j].0 by {
        if p < 0 {
            if i == m.len() {
                assert(m[j].0 != k);
            } else if j == m.len() {
                assert(m[i].0 != k);
            }
        }
    }
}

proof fn lemma_patch_fold_get(tm: Seq<(Seq<char>, Val)>, pm: Seq<(Seq<char>, Val)>, k: Seq<char>, n: int)
    requires
        obj_keys_unique(tm),
        obj_keys_unique(pm),
        0 <= n <= pm.len(),
    ensures
        obj_keys_unique(patch_fold(tm, pm, n)),
        obj_get(patch_fold(tm, pm, n), k) == match last_in(pm, k, n) {
            Some(Val::Null) => None,
            Some(pv) => Some(merge_patch_spec(match obj_get(tm, k) { Some(x) => x, None => Val::Null }, pv)),
            None => obj_get(tm, k),
        },
    decreases n,
{
    if n > 0 {
        lemma_patch_fold_get(tm, pm, k, n - 1);
        let r = patch_fold(tm, pm, n - 1);
        let kn = pm[n - 1].0;
        let v = pm[n - 1].1;
        if kn == k && last_in(pm, k, n - 1) is Some {
            lemma_last_in_some(pm, k, n - 1);
            let j = choose|j: int| 0 <= j < n - 1 && j < pm.len() && pm[j].0 == k;
            assert(pm[j].0 == pm[n - 1].0);
        }
        if v is Null {
            lemma_swap_remove(r, kn, k);
        } else {
            lemma_insert_unique(r, kn, merge_patch_spec(match obj_get(r, kn) { Some(x) => x, None => Val::Null }, v));
            law_insert_then_get(r, kn, merge_patch_spec(match obj_get(r, kn) { Some(x) => x, None => Val::Null }, v), k);
        }
    }
}

/// RFC 7396 on maps whose keys all differ: a patch member that is null
/// removes its key, any other member sets its key to the patch of the
/// target's value (null when absent) by it, and keys the patch does not
/// name keep their values.
pub proof fn law_merge_patch_members(tm: Seq<(Seq<char>, Val)>, pm: Seq<(Seq<char>, Val)>, k: Seq<char>)
    requires
        obj_keys_unique(tm),
        obj_keys_unique(pm),
    ensures
        merge_patch_spec(Val::Object(tm), Val::Object(pm)) is Object,
        obj_get(merge_patch_spec(Val::Object(tm), Val::Object(pm))->Object_0, k) == match last_in(pm, k, pm.len() as int) {
            Some(Val::Null) => None,
            Some(pv) => Some(merge_patch_spec(match obj_get(tm, k) { Some(x) => x, None => Val::Null }, pv)),
            None => obj_get(tm, k),
        },
{
    lemma_patch_fold_get(tm, pm, k, pm.len() as int);
}

/// A non-map patch replaces the target, whatever it is.
pub proof fn law_merge_patch_replaces(t: Val, p: Val)
    requires
        !(p is Object),
    ensures
        merge_patch_spec(t, p) == p,
{
}

/// The replace strategy gives the override itself.
pub proof fn law_replace_gives_override(b: Val, o: Val)
    ensures
        merge_spec(b, o, StrategyView::Replace) == o,
{
}


proof fn lemma_diff_fold_self(am: Seq<(Seq<char>, Val)>, n: int)
    requires
        0 <= n <= am.len(),
        obj_keys_unique(am),
        forall|i: int| 0 <= i < am.len() ==> wf_val(#[trigger] am[i].1),
    ensures
        diff_fold(am, am, n).len() == 0,
    decreases n,
{
    if n > 0 {
        lemma_diff_fold_self(am, n - 1);
        lemma_obj_find_at(am, am[n - 1].0, n - 1);
        law_val_eq_refl(am[n - 1].1);
    }
}

proof fn lemma_removed_fold_self(am: Seq<(Seq<char>, Val)>, r: Seq<(Seq<char>, Val)>, n: int)
    requires
        0 <= n <= am.len(),
    ensures
        removed_fold(am, am, r, n) == r,
    decreases n,
{
    if n > 0 {
        lemma_removed_fold_self(am, r, n - 1);
        lemma_obj_find_at_or_before(am, am[n - 1].0, n - 1);
    }
}

proof fn lemma_obj_find_at_or_before(m: Seq<(Seq<char>, Val)>, k: Seq<char>, i: int)
    requires
        0 <= i < m.len(),
        m[i].0 == k,
    ensures
        obj_has(m, k),
{
    lemma_obj_find(m, k);
}

/// A well-formed value differs from itself in nothing: its diff with
/// itself is null.
pub proof fn law_diff_identical(a: Val)
    requires
        wf_val(a),
    ensures
        diff_spec(a, a) == Val::Null,
{
    match a {
        Val::Object(am) => {
            lemma_diff_fold_self(am, am.len() as int);
            lemma_removed_fold_self(am, diff_fold(am, am, am.len() as int), am.len() as int);
        },
        _ => {
            law_val_eq_refl(a);
        },
    }
}


/// The change a diff records for a key the second map holds with value
/// `bv`, where the first map holds `a` there (if anything).
pub open spec fn key_change(a: Option<Val>, bv: Val) -> Option<Val> {
    match a {
        Some(av) => if val_eq(av, bv) {
            None
        } else if diff_spec(av, bv) is Null {
            None
        } else {
            Some(diff_spec(av, bv))
        },
        None => Some(bv),
    }
}

/// The entry a diff holds under `k` (none when the diff is not a map).
pub open spec fn diff_entry(d: Val, k: Seq<char>) -> Option<Val> {
    match d {
        Val::Object(r) => obj_get(r, k),
        _ => None,
    }
}

proof fn lemma_diff_fold_get(am: Seq<(Seq<char>, Val)>, bm: Seq<(Seq<char>, Val)>, k: Seq<char>, n: int)
    requires
        obj_keys_unique(bm),
        0 <= n <= bm.len(),
    ensures
        obj_get(diff_fold(am, bm, n), k) == (if 0 <= obj_find(bm, k) < n {
            key_change(obj_get(am, k), bm[obj_find(bm, k)].1)
        } else {
            None::<Val>
        }),
    decreases n,
{
    lemma_obj_find(bm, k);
    if n > 0 {
        lemma_diff_fold_get(am, bm, k, n - 1);
        let r = diff_fold(am, bm, n - 1);
        let k2 = bm[n - 1].0;
        let bv = bm[n - 1].1;
        if k2 == k {
            lemma_obj_find_at(bm, k, n - 1);
        } else {
            if obj_find(bm, k) == n - 1 {
                assert(bm[n - 1].0 == k);
            }
        }
        match obj_get(am, k2) {
            Some(av) => {
                if !val_eq(av, bv) {
                    let d = diff_spec(av, bv);
                    if !(d is Null) {
                        law_insert_then_get(r, k2, d, k);
                    }
                }
            },
            None => {
                law_insert_then_get(r, k2, bv, k);
            },
        }
    }
}

proof fn lemma_removed_fold_get(am: Seq<(Seq<char>, Val)>, bm: Seq<(Seq<char>, Val)>, r: Seq<(Seq<char>, Val)>, k: Seq<char>, n: int)
    requires
        obj_keys_unique(am),
        0 <= n <= am.len(),
    ensures
        obj_get(removed_fold(am, bm, r, n), k) == (if !obj_has(bm, k) && 0 <= obj_find(am, k) < n {
            Some(Val::Null)
        } else {
            obj_get(r, k)
        }),
    decreases n,
{
    lemma_obj_find(am, k);
    if n > 0 {
        lemma_removed_fold_get(am, bm, r, k, n - 1);
        let p = removed_fold(am, bm, r, n - 1);
        let k2 = am[n - 1].0;
        if k2 == k {
            lemma_obj_find_at(am, k, n - 1);
        } else if obj_find(am, k) == n - 1 {
            assert(am[n - 1].0 == k);
        }
        if !obj_has(bm, k2) {
            law_insert_then_get(p, k2, Val::Null, k);
        }
    }
}

/// A diff of two maps records only the changes, key by key: a key both
/// hold with equal values is absent; a key both hold with different
/// values holds the diff of the two values (absent when that diff is
/// null); a key only the second holds has its value; a key only the
/// first holds is null; a key neither holds is absent.
pub proof fn law_diff_records_changes(am: Seq<(Seq<char>, Val)>, bm: Seq<(Seq<char>, Val)>, k: Seq<char>)
    requires
        obj_keys_unique(am),
        obj_keys_unique(bm),
    ensures
        diff_entry(diff_spec(Val::Object(am), Val::Object(bm)), k) == match (obj_get(am, k), obj_get(bm, k)) {
            (Some(av), Some(bv)) => if val_eq(av, bv) {
                None
            } else if diff_spec(av, bv) is Null {
                None
            } else {
                Some(diff_spec(av, bv))
            },
            (None, Some(bv)) => Some(bv),
            (Some(_), None) => Some(Val::Null),
            (None, None) => None::<Val>,
        },
{
    lemma_obj_find(am, k);
    lemma_obj_find(bm, k);
    let d = diff_fold(am, bm, bm.len() as int);
    lemma_diff_fold_get(am, bm, k, bm.len() as int);
    lemma_removed_fold_get(am, bm, d, k, am.len() as int);
    let r = removed_fold(am, bm, d, am.len() as int);
    if r.len() == 0 {
        lemma_obj_find_none(r, k);
    }
}

/// `x` has the key field `field`, and its value there equals `kv`.
pub open spec fn keyed_as(x: Val, field: Seq<char>, kv: Val) -> bool {
    match val_get(x, field) {
        Some(y) => val_eq(y, kv),
        None => false,
    }
}

proof fn lemma_first_keyed(r: Seq<Val>, field: Seq<char>, kv: Val)
    ensures
        -1 <= first_keyed(r, field, kv) < r.len(),
        first_keyed(r, field, kv) == -1 <==> forall|i: int| 0 <= i < r.len() ==> !keyed_as(#[trigger] r[i], field, kv),
        first_keyed(r, field, kv) >= 0 ==> keyed_as(r[first_keyed(r, field, kv)], field, kv),
        forall|i: int| 0 <= i < first_keyed(r, field, kv) ==> !keyed_as(#[trigger] r[i], field, kv),
    decreases r.len(),
{
    if r.len() > 0 && !keyed_as(r[0], field, kv) {
        lemma_first_keyed(r.drop_first(), field, kv);
        assert forall|i: int| 0 < i < r.len() implies r[i] == r.drop_first()[i - 1] by {}
        if first_keyed(r, field, kv) == -1 {
            assert forall|i: int| 0 <= i < r.len() implies !keyed_as(#[trigger] r[i], field, kv) by {
                if i > 0 {
                    assert(r[i] == r.drop_first()[i - 1]);
                }
            }
        } else {
            let p = first_keyed(r.drop_first(), field, kv);
            assert(r[p + 1] == r.drop_first()[p]);
            assert forall|i: int| 0 <= i < first_keyed(r, field, kv) implies !keyed_as(#[trigger] r[i], field, kv) by {
                if i > 0 {
                    assert(r[i] == r.drop_first()[i - 1]);
                }
            }
        }
    } else if r.len() > 0 {
        assert(keyed_as(r[0], field, kv));
    }
}

/// A keyed strategic merge of one override element that shares its key
/// with no element of the base (or has no key field) keeps every base
/// element and appends the override element: it is never dropped.
pub proof fn law_strategic_appends_new_element(ba: Seq<Val>, e: Val, keys: Seq<(Seq<char>, Seq<char>)>, cur: Seq<char>, field: Seq<char>)
    requires
        merge_key_field(keys, cur) == Some(field),
        match val_get(e, field) {
            Some(kv) => forall|i: int| 0 <= i < ba.len() ==> !keyed_as(#[trigger] ba[i], field, kv),
            None => true,
        },
    ensures
        strategic_spec(Val::Array(ba), Val::Array(seq![e]), keys, cur) == Val::Array(ba.push(e)),
{
    let oa = seq![e];
    assert(strategic_items(ba, oa, keys, field, 0) == ba);
    match val_get(e, field) {
        Some(kv) => {
            lemma_first_keyed(ba, field, kv);
        },
        None => {},
    }
}

/// A keyed strategic merge of one override element whose key matches a
/// base element merges it into the first such element and leaves every
/// other element, and the length, as they were.
pub proof fn law_strategic_merges_matching_element(ba: Seq<Val>, e: Val, keys: Seq<(Seq<char>, Seq<char>)>, cur: Seq<char>, field: Seq<char>, kv: Val, j: int)
    requires
        merge_key_field(keys, cur) == Some(field),
        val_get(e, field) == Some(kv),
        0 <= j < ba.len(),
        keyed_as(ba[j], field, kv),
        forall|i: int| 0 <= i < j ==> !keyed_as(#[trigger] ba[i], field, kv),
    ensures
        strategic_spec(Val::Array(ba), Val::Array(seq![e]), keys, cur)
            == Val::Array(ba.update(j, strategic_spec(ba[j], e, keys, Seq::empty()))),
{
    let oa = seq![e];
    assert(strategic_items(ba, oa, keys, field, 0) == ba);
    lemma_first_keyed(ba, field, kv);
    let p = first_keyed(ba, field, kv);
    if p != j {
        if p < j {
            assert(!keyed_as(ba[p], field, kv));
        } else {
            assert(!keyed_as(ba[j], field, kv));
        }
    }
}

proof fn lemma_items_same_prefix(ba: Seq<Val>, a: Seq<Val>, b: Seq<Val>, keys: Seq<(Seq<char>, Seq<char>)>, field: Seq<char>, n: int)
    requires
        0 <= n <= a.len(),
        n <= b.len(),
        forall|i: int| 0 <= i < n ==> a[i] == b[i],
    ensures
        strategic_items(ba, a, keys, field, n) == strategic_items(ba, b, keys, field, n),
    decreases n,
{
    if n > 0 {
        lemma_items_same_prefix(ba, a, b, keys, field, n - 1);
    }
}

proof fn lemma_items_concat(ba: Seq<Val>, a: Seq<Val>, b: Seq<Val>, keys: Seq<(Seq<char>, Seq<char>)>, field: Seq<char>, j: int)
    requires
        0 <= j <= b.len(),
    ensures
        strategic_items(ba, a + b, keys, field, a.len() + j)
            == strategic_items(strategic_items(ba, a, keys, field, a.len() as int), b, keys, field, j),
    decreases j,
{
    if j == 0 {
        lemma_items_same_prefix(ba, a + b, a, keys, field, a.len() as int);
    } else {
        lemma_items_concat(ba, a, b, keys, field, j - 1);
        assert((a + b)[a.len() + j - 1] == b[j - 1]);
    }
}

/// A keyed strategic merge takes the override elements in order: merging
/// `oa1` followed by `oa2` is merging `oa1`, then merging `oa2` into the
/// result; and it never loses a base element's place: the result is at
/// least as long as the base and at most one element longer for each
/// override element.
pub proof fn law_strategic_in_order(ba: Seq<Val>, oa1: Seq<Val>, oa2: Seq<Val>, keys: Seq<(Seq<char>, Seq<char>)>, cur: Seq<char>, field: Seq<char>)
    requires
        merge_key_field(keys, cur) == Some(field),
    ensures
        strategic_spec(Val::Array(ba), Val::Array(oa1 + oa2), keys, cur)
            == strategic_spec(strategic_spec(Val::Array(ba), Val::Array(oa1), keys, cur), Val::Array(oa2), keys, cur),
        strategic_spec(Val::Array(ba), Val::Array(oa1), keys, cur) is Array,
        ba.len() <= strategic_spec(Val::Array(ba), Val::Array(oa1), keys, cur)->Array_0.len() <= ba.len() + oa1.len(),
{
    lemma_items_concat(ba, oa1, oa2, keys, field, oa2.len() as int);
    lemma_items_len(ba, oa1, keys, field, oa1.len() as int);
}

proof fn lemma_items_len(ba: Seq<Val>, oa: Seq<Val>, keys: Seq<(Seq<char>, Seq<char>)>, field: Seq<char>, n: int)
    requires
        0 <= n <= oa.len(),
    ensures
        ba.len() <= strategic_items(ba, oa, keys, field, n).len() <= ba.len() + n,
    decreases n,
{
    if n > 0 {
        lemma_items_len(ba, oa, keys, field, n - 1);
        let r = strategic_items(ba, oa, keys, field, n - 1);
        match val_get(oa[n - 1], field) {
            Some(kv) => { lemma_first_keyed(r, field, kv); },
            None => {},
        }
    }
}

/// Without a merge key for the segment, a strategic merge of two arrays
/// gives the override array: arrays replace, as in Helm.
pub proof fn law_strategic_unkeyed_arrays_replace(ba: Seq<Val>, oa: Seq<Val>, keys: Seq<(Seq<char>, Seq<char>)>, cur: Seq<char>)
    requires
        merge_key_field(keys, cur) is None,
    ensures
        strategic_spec(Val::Array(ba), Val::Array(oa), keys, cur) == Val::Array(oa),
{
}

proof fn lemma_stack_prefix(vals: Seq<Val>, x: Val, s: StrategyView, n: int)
    requires
        0 <= n <= vals.len(),
    ensures
        stack_spec(vals.push(x), s, n) == stack_spec(vals, s, n),
    decreases n,
{
    if n > 0 {
        lemma_stack_prefix(vals, x, s, n - 1);
        assert(vals.push(x)[n - 1] == vals[n - 1]);
    }
}

/// A layer put on top of a stack is merged over the stack below it with
/// the stack's strategy (or taken as it is over an empty or null stack):
/// a stack is its layers merged one after the other, lowest first.
pub proof fn law_stack_adds_layer_on_top(vals: Seq<Val>, x: Val, s: StrategyView)
    ensures
        stack_spec(vals.push(x), s, vals.len() + 1int) == (if stack_spec(vals, s, vals.len() as int) is Null {
            x
        } else {
            merge_spec(stack_spec(vals, s, vals.len() as int), x, s)
        }),
{
    lemma_stack_prefix(vals, x, s, vals.len() as int);
    assert(vals.push(x)[vals.len() as int] == x);
}

// ── Three-way merge against an unchanged side ─────────────────────

proof fn lemma_union_keys(acc: Seq<Seq<char>>, ks: Seq<Seq<char>>, n: int)
    requires
        acc.no_duplicates(),
        0 <= n <= ks.len(),
    ensures
        union_keys(acc, ks, n).no_duplicates(),
        forall|j: int| 0 <= j < n ==> union_keys(acc, ks, n).contains(#[trigger] ks[j]),
        forall|x: Seq<char>| acc.contains(x) ==> #[trigger] union_keys(acc, ks, n).contains(x),
    decreases n,
{
    if n > 0 {
        lemma_union_keys(acc, ks, n - 1);
        let a = union_keys(acc, ks, n - 1);
        if !a.contains(ks[n - 1]) {
            let b = a.push(ks[n - 1]);
            assert forall|i: int, j: int| 0 <= i < b.len() && 0 <= j < b.len() && i != j implies b[i] != b[j] by {
                if i == b.len() - 1 {
                    assert(a.contains(b[j]) ==> b[j] != ks[n - 1]);
                    assert(b[j] == a[j]);
                } else if j == b.len() - 1 {
                    assert(b[i] == a[i]);
                }
            }
            assert(b[b.len() - 1] == ks[n - 1]);
            assert forall|j: int| 0 <= j < n implies b.contains(#[trigger] ks[j]) by {
                if j < n - 1 {
                    let t = choose|t: int| 0 <= t < a.len() && a[t] == ks[j];
                    assert(b[t] == ks[j]);
                }
            }
            assert forall|x: Seq<char>| acc.contains(x) implies #[trigger] b.contains(x) by {
                assert(a.contains(x));
                let t = choose|t: int| 0 <= t < a.len() && a[t] == x;
                assert(b[t] == x);
            }
        }
    }
}

proof fn lemma_keys_no_duplicates(m: Seq<(Seq<char>, Val)>)
    requires
        obj_keys_unique(m),
    ensures
        obj_keys(m).no_duplicates(),
{
}

proof fn lemma_has_key(m: Seq<(Seq<char>, Val)>, k: Seq<char>)
    ensures
        obj_get(m, k) is Some <==> obj_keys(m).contains(k),
{
    lemma_obj_find(m, k);
    if obj_keys(m).contains(k) {
        let t = choose|t: int| 0 <= t < obj_keys(m).len() && obj_keys(m)[t] == k;
        assert(m[t].0 == k);
    }
    if obj_get(m, k) is Some {
        assert(obj_keys(m)[obj_find(m, k)] == k);
    }
}

/// What a fold against an unchanged left side has built after `n` keys:
/// each key seen so far that the right side holds, once, under a value
/// equal to the right side's.
pub open spec fn follows_right(acc: Seq<(Seq<char>, Val)>, rm: Seq<(Seq<char>, Val)>, seen: Seq<Seq<char>>) -> bool {
    &&& obj_keys_unique(acc)
    &&& forall|k: Seq<char>| #[trigger] obj_get(acc, k) is Some <==> (seen.contains(k) && obj_get(rm, k) is Some)
    &&& forall|k: Seq<char>| obj_get(acc, k) is Some ==> val_eq(obj_get(rm, k)->0, #[trigger] obj_get(acc, k)->0)
}

proof fn lemma_fold_unchanged_left(
    bm: Seq<(Seq<char>, Val)>,
    rm: Seq<(Seq<char>, Val)>,
    path: Seq<char>,
    ks: Seq<Seq<char>>,
    n: int,
)
    requires
        wf_val(Val::Object(bm)),
        wf_val(Val::Object(rm)),
        ks.no_duplicates(),
        0 <= n <= ks.len(),
    ensures
        three_way_fold(bm, bm, rm, path, ks, n) matches Ok(acc) && follows_right(acc, rm, ks.take(n)),
    decreases n,
{
    if n == 0 {
        let acc = Seq::<(Seq<char>, Val)>::empty();
        assert forall|k: Seq<char>| #[trigger] obj_get(acc, k) is Some <==> (ks.take(0).contains(k) && obj_get(rm, k) is Some) by {
            lemma_obj_find(acc, k);
        }
    } else {
        lemma_fold_unchanged_left(bm, rm, path, ks, n - 1);
        let acc = three_way_fold(bm, bm, rm, path, ks, n - 1)->Ok_0;
        let k = ks[n - 1];
        let pre = ks.take(n - 1);
        let full = ks.take(n);
        let bv = obj_get(bm, k);
        let rv = obj_get(rm, k);
        lemma_obj_find(bm, k);
        lemma_obj_find(rm, k);
        lemma_obj_find(acc, k);
        let li = obj_find(bm, k);
        if li >= 0 {
            assert(wf_val(bm[li].1));
            law_val_eq_refl(bm[li].1);
        }
        if rv is Some {
            assert(wf_val(rm[obj_find(rm, k)].1));
            law_val_eq_refl(rv->0);
        }
        assert(!opt_val_eq(if 0 <= li < bm.len() { Some(bm[li].1) } else { None }, bv) == false);
        assert(!pre.contains(k)) by {
            if pre.contains(k) {
                let t = choose|t: int| 0 <= t < pre.len() && pre[t] == k;
                assert(ks[t] == ks[n - 1]);
            }
        }
        assert(obj_get(acc, k) is None);
        let v = if opt_val_eq(rv, bv) { bv } else { rv };
        let next = insert_opt(acc, k, v);
        assert(three_way_fold(bm, bm, rm, path, ks, n) == Ok::<Seq<(Seq<char>, Val)>, (Seq<char>, Seq<char>)>(next));
        assert(ks.take(n) =~= ks.take(n - 1).push(k));
        match v {
            Some(x) => {
                assert(rv is Some);
                assert(val_eq(rv->0, x));
                assert(next == acc.push((k, x)));
                assert forall|i: int, j: int| 0 <= i < next.len() && 0 <= j < next.len() && i != j implies next[i].0 != next[j].0 by {
                    if i == next.len() - 1 || j == next.len() - 1 {
                        let o = if i == next.len() - 1 { j } else { i };
                        assert(next[o] == acc[o]);
                        assert(acc[o].0 != k);
                    } else {
                        assert(next[i] == acc[i] && next[j] == acc[j]);
                    }
                }
                assert forall|k2: Seq<char>| #[trigger] obj_get(next, k2) is Some <==> (ks.take(n).contains(k2) && obj_get(rm, k2) is Some) by {
                    law_insert_then_get(acc, k, x, k2);
                    if k2 != k {
                        if full.contains(k2) {
                            let t = choose|t: int| 0 <= t < full.len() && full[t] == k2;
                            assert(pre[t] == k2);
                        }
                        if pre.contains(k2) {
                            let t = choose|t: int| 0 <= t < pre.len() && pre[t] == k2;
                            assert(full[t] == k2);
                        }
                    } else {
                        assert(ks.take(n)[n - 1] == k);
                    }
                }
                assert forall|k2: Seq<char>| obj_get(next, k2) is Some implies val_eq(obj_get(rm, k2)->0, #[trigger] obj_get(next, k2)->0) by {
                    law_insert_then_get(acc, k, x, k2);
                }
            },
            None => {
                assert(rv is None);
                assert forall|k2: Seq<char>| #[trigger] obj_get(next, k2) is Some <==> (ks.take(n).contains(k2) && obj_get(rm, k2) is Some) by {
                    if k2 != k {
                        if full.contains(k2) {
                            let t = choose|t: int| 0 <= t < full.len() && full[t] == k2;
                            assert(pre[t] == k2);
                        }
                        if pre.contains(k2) {
                            let t = choose|t: int| 0 <= t < pre.len() && pre[t] == k2;
                            assert(full[t] == k2);
                        }
                    }
                }
            },
        }
    }
}

proof fn lemma_fold_unchanged_right(
    bm: Seq<(Seq<char>, Val)>,
    lm: Seq<(Seq<char>, Val)>,
    path: Seq<char>,
    ks: Seq<Seq<char>>,
    n: int,
)
    requires
        wf_val(Val::Object(bm)),
        wf_val(Val::Object(lm)),
        ks.no_duplicates(),
        0 <= n <= ks.len(),
    ensures
        three_way_fold(bm, lm, bm, path, ks, n) matches Ok(acc) && follows_right(acc, lm, ks.take(n)),
    decreases n,
{
    if n == 0 {
        let acc = Seq::<(Seq<char>, Val)>::empty();
        assert forall|k: Seq<char>| #[trigger] obj_get(acc, k) is Some <==> (ks.take(0).contains(k) && obj_get(lm, k) is Some) by {
            lemma_obj_find(acc, k);
        }
    } else {
        lemma_fold_unchanged_right(bm, lm, path, ks, n - 1);
        let acc = three_way_fold(bm, lm, bm, path, ks, n - 1)->Ok_0;
        let k = ks[n - 1];
        let pre = ks.take(n - 1);
        let full = ks.take(n);
        let bv = obj_get(bm, k);
        let rv = obj_get(lm, k);
        lemma_obj_find(bm, k);
        lemma_obj_find(lm, k);
        lemma_obj_find(acc, k);
        let li = obj_find(lm, k);
        let bi = obj_find(bm, k);
        if bi >= 0 {
            assert(wf_val(bm[bi].1));
            law_val_eq_refl(bm[bi].1);
        }
        if rv is Some {
            assert(wf_val(lm[li].1));
            law_val_eq_refl(rv->0);
        }
        assert((if 0 <= li < lm.len() { Some(lm[li].1) } else { None }) == rv);
        assert(opt_val_eq(bv, bv));
        assert(!pre.contains(k)) by {
            if pre.contains(k) {
                let t = choose|t: int| 0 <= t < pre.len() && pre[t] == k;
                assert(ks[t] == ks[n - 1]);
            }
        }
        assert(obj_get(acc, k) is None);
        let v = if opt_val_eq(rv, bv) { bv } else { rv };
        let next = insert_opt(acc, k, v);
        assert(three_way_fold(bm, lm, bm, path, ks, n) == Ok::<Seq<(Seq<char>, Val)>, (Seq<char>, Seq<char>)>(next));
        assert(ks.take(n) =~= ks.take(n - 1).push(k));
        match v {
            Some(x) => {
                assert(rv is Some);
                assert(val_eq(rv->0, x));
                assert(next == acc.push((k, x)));
                assert forall|i: int, j: int| 0 <= i < next.len() && 0 <= j < next.len() && i != j implies next[i].0 != next[j].0 by {
                    if i == next.len() - 1 || j == next.len() - 1 {
                        let o = if i == next.len() - 1 { j } else { i };
                        assert(next[o] == acc[o]);
                        assert(acc[o].0 != k);
                    } else {
                        assert(next[i] == acc[i] && next[j] == acc[j]);
                    }
                }
                assert forall|k2: Seq<char>| #[trigger] obj_get(next, k2) is Some <==> (ks.take(n).contains(k2) && obj_get(lm, k2) is Some) by {
                    law_insert_then_get(acc, k, x, k2);
                    if k2 != k {
                        if full.contains(k2) {
                            let t = choose|t: int| 0 <= t < full.len() && full[t] == k2;
                            assert(pre[t] == k2);
                        }
                        if pre.contains(k2) {
                            let t = choose|t: int| 0 <= t < pre.len() && pre[t] == k2;
                            assert(full[t] == k2);
                        }
                    } else {
                        assert(ks.take(n)[n - 1] == k);
                    }
                }
                assert forall|k2: Seq<char>| obj_get(next, k2) is Some implies val_eq(obj_get(lm, k2)->0, #[trigger] obj_get(next, k2)->0) by {
                    law_insert_then_get(acc, k, x, k2);
                }
            },
            None => {
                assert(rv is None);
                assert forall|k2: Seq<char>| #[trigger] obj_get(next, k2) is Some <==> (ks.take(n).contains(k2) && obj_get(lm, k2) is Some) by {
                    if k2 != k {
                        if full.contains(k2) {
                            let t = choose|t: int| 0 <= t < full.len() && full[t] == k2;
                            assert(pre[t] == k2);
                        }
                        if pre.contains(k2) {
                            let t = choose|t: int| 0 <= t < pre.len() && pre[t] == k2;
                            assert(full[t] == k2);
                        }
                    }
                }
            },
        }
    }
}

proof fn lemma_entries_follow(acc: Seq<(Seq<char>, Val)>, rm: Seq<(Seq<char>, Val)>, ks: Seq<Seq<char>>, n: int)
    requires
        follows_right(acc, rm, ks),
        obj_keys_unique(rm),
        forall|j: int| 0 <= j < rm.len() ==> ks.contains(#[trigger] rm[j].0),
        0 <= n <= rm.len(),
    ensures
        entries_match_upto(rm, acc, n),
    decreases n,
{
    if n > 0 {
        lemma_entries_follow(acc, rm, ks, n - 1);
        let k = rm[n - 1].0;
        lemma_obj_find_at(rm, k, n - 1);
        assert(ks.contains(rm[n - 1].0));
        assert(obj_get(rm, k) is Some);
        assert(obj_get(acc, k) is Some);
        assert(val_eq(obj_get(rm, k)->0, obj_get(acc, k)->0));
    }
}

/// A side that left the base as it was yields to the other: merging an
/// unchanged left side with `r` gives a value equal to `r`.
pub proof fn law_three_way_unchanged_left(b: Val, r: Val, path: Seq<char>)
    requires
        wf_val(b),
        wf_val(r),
    ensures
        three_way_spec(b, b, r, path) matches Ok(m) && val_eq(r, m),
{
    match (b, r) {
        (Val::Object(bm), Val::Object(rm)) => {
            let ks = all_keys(bm, bm, rm);
            lemma_keys_no_duplicates(bm);
            lemma_union_keys(obj_keys(bm), obj_keys(bm), bm.len() as int);
            let kl = union_keys(obj_keys(bm), obj_keys(bm), bm.len() as int);
            lemma_union_keys(kl, obj_keys(rm), rm.len() as int);
            lemma_fold_unchanged_left(bm, rm, path, ks, ks.len() as int);
            let acc = three_way_fold(bm, bm, rm, path, ks, ks.len() as int)->Ok_0;
            assert(ks.take(ks.len() as int) =~= ks);
            assert forall|j: int| 0 <= j < rm.len() implies ks.contains(#[trigger] rm[j].0) by {
                assert(obj_keys(rm)[j] == rm[j].0);
            }
            lemma_entries_follow(acc, rm, ks, rm.len() as int);
            lemma_keys_no_duplicates(acc);
            lemma_keys_no_duplicates(rm);
            assert(obj_keys(acc).to_set() =~= obj_keys(rm).to_set()) by {
                assert forall|k: Seq<char>| obj_keys(acc).to_set().contains(k) <==> obj_keys(rm).to_set().contains(k) by {
                    lemma_has_key(acc, k);
                    lemma_has_key(rm, k);
                    if obj_get(rm, k) is Some {
                        let t = obj_find(rm, k);
                        lemma_obj_find(rm, k);
                        assert(ks.contains(rm[t].0));
                    }
                }
            }
            obj_keys(acc).unique_seq_to_set();
            obj_keys(rm).unique_seq_to_set();
            assert(acc.len() == rm.len());
        },
        _ => {
            law_val_eq_refl(b);
            law_val_eq_refl(r);
        },
    }
}

/// A side that left the base as it was yields to the other: merging `l`
/// with an unchanged right side gives a value equal to `l`.
pub proof fn law_three_way_unchanged_right(b: Val, l: Val, path: Seq<char>)
    requires
        wf_val(b),
        wf_val(l),
    ensures
        three_way_spec(b, l, b, path) matches Ok(m) && val_eq(l, m),
{
    match (b, l) {
        (Val::Object(bm), Val::Object(lm)) => {
            let ks = all_keys(bm, lm, bm);
            lemma_keys_no_duplicates(bm);
            lemma_union_keys(obj_keys(bm), obj_keys(lm), lm.len() as int);
            let kl = union_keys(obj_keys(bm), obj_keys(lm), lm.len() as int);
            lemma_union_keys(kl, obj_keys(bm), bm.len() as int);
            lemma_fold_unchanged_right(bm, lm, path, ks, ks.len() as int);
            let acc = three_way_fold(bm, lm, bm, path, ks, ks.len() as int)->Ok_0;
            assert(ks.take(ks.len() as int) =~= ks);
            assert forall|j: int| 0 <= j < lm.len() implies ks.contains(#[trigger] lm[j].0) by {
                assert(obj_keys(lm)[j] == lm[j].0);
                assert(kl.contains(obj_keys(lm)[j]));
            }
            lemma_entries_follow(acc, lm, ks, lm.len() as int);
            lemma_keys_no_duplicates(acc);
            lemma_keys_no_duplicates(lm);
            assert(obj_keys(acc).to_set() =~= obj_keys(lm).to_set()) by {
                assert forall|k: Seq<char>| obj_keys(acc).to_set().contains(k) <==> obj_keys(lm).to_set().contains(k) by {
                    lemma_has_key(acc, k);
                    lemma_has_key(lm, k);
                    if obj_get(lm, k) is Some {
                        let t = obj_find(lm, k);
                        lemma_obj_find(lm, k);
                        assert(ks.contains(lm[t].0));
                    }
                }
            }
            obj_keys(acc).unique_seq_to_set();
            obj_keys(lm).unique_seq_to_set();
            assert(acc.len() == lm.len());
        },
        _ => {
            law_val_eq_refl(b);
            law_val_eq_refl(l);
        },
    }
}


// ── RFC 6902 operations ────────────────────────────────────────────

/// The operations of a JSON Patch: they must form an array; anything
/// else is a type error naming what was given.
pub fn patch_operations(operations: &Value) -> (r: Result<&Vec<Value>, Error>)
    ensures
        match operations@ {
            Val::Array(a) => r matches Ok(v) && view_values(v@) == a,
            _ => r matches Err(Error::TypeError { expected, actual })
                && expected@ == "array"@ && actual@ == jq_type_spec(operations@),
        },
{
    match operations {
        Value::Array(a) => Ok(a),
        _ => {
            proof {
                lemma_view_variant(*operations);
            }
            Err(Error::TypeError { expected: "array", actual: operations.jq_type() })
        },
    }
}

} // verus!
