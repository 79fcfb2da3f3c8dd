//! # The universal value type
//!
//! Every format parses into [`Value`] and every query, merge and report
//! operates on it.  The model of a value is [`Val`], a mathematical tree in
//! which strings are character sequences and maps are sequences of
//! key/value pairs in insertion order.  Maps follow the insertion-ordered
//! map discipline: lookup finds the first entry with the key, insertion
//! replaces that entry in place or appends a new one.
use vstd::prelude::*;
use vstd::string::StrSliceExecFns;
use crate::text::{str_eq, to_owned_string, split_str, parse_usize, split_spec, parse_usize_spec, strings_view, i64_text, int_text, nat_text, push_str, usize_text};

verus! {

broadcast use vstd::std_specs::vec::group_vec_axioms;

/// A floating point number, carried as its IEEE-754 bit pattern together
/// with its shortest decimal rendering (as produced by the float's
/// `Display`).
#[derive(Debug)]
pub struct FloatValue {
    pub bits: u64,
    pub text: String,
}

/// An HCL-style labeled block: `resource "aws_instance" "web" { ... }`.
#[derive(Debug)]
pub struct Block {
    pub block_type: String,
    pub labels: Vec<String>,
    pub body: Vec<(String, Value)>,
}

/// The universal value type for all dq operations.
#[derive(Debug)]
pub enum Value {
    Null,
    Bool(bool),
    Int(i64),
    Float(FloatValue),
    String(String),
    Bytes(Vec<u8>),
    /// ISO 8601 datetime text (TOML's native datetime).
    Datetime(String),
    Array(Vec<Value>),
    /// Insertion-ordered key/value map.
    Object(Vec<(String, Value)>),
    /// HCL labeled block.
    Block(Block),
}

/// Mathematical model of a [`Value`].
pub enum Val {
    Null,
    Bool(bool),
    Int(i64),
    /// Bit pattern and decimal text.
    Float(u64, Seq<char>),
    Str(Seq<char>),
    Bytes(Seq<u8>),
    Datetime(Seq<char>),
    Array(Seq<Val>),
    Object(Seq<(Seq<char>, Val)>),
    /// Block type, labels and body.
    Block(Seq<char>, Seq<Seq<char>>, Seq<(Seq<char>, Val)>),
}

/// Model of a sequence of map entries.
pub open spec fn view_entries(m: Seq<(String, Value)>) -> Seq<(Seq<char>, Val)>
    decreases m,
{
    Seq::new(
        m.len(),
        |i: int|
            if 0 <= i < m.len() {
                (m[i].0@, view_value(m[i].1))
            } else {
                (Seq::empty(), Val::Null)
            },
    )
}

/// Model of a sequence of values.
pub open spec fn view_values(a: Seq<Value>) -> Seq<Val>
    decreases a,
{
    Seq::new(a.len(), |i: int| if 0 <= i < a.len() { view_value(a[i]) } else { Val::Null })
}

/// Model of a sequence of strings.
pub open spec fn view_strings(a: Seq<String>) -> Seq<Seq<char>> {
    Seq::new(a.len(), |i: int| a[i]@)
}

/// Model of a value.
pub open spec fn view_value(v: Value) -> Val
    decreases v,
{
    match v {
        Value::Null => Val::Null,
        Value::Bool(b) => Val::Bool(b),
        Value::Int(n) => Val::Int(n),
        Value::Float(f) => Val::Float(f.bits, f.text@),
        Value::String(s) => Val::Str(s@),
        Value::Bytes(b) => Val::Bytes(b@),
        Value::Datetime(s) => Val::Datetime(s@),
        Value::Array(a) => Val::Array(view_values(a@)),
        Value::Object(m) => Val::Object(view_entries(m@)),
        Value::Block(b) => Val::Block(b.block_type@, view_strings(b.labels@), view_entries(b.body@)),
    }
}

impl View for Value {
    type V = Val;

    open spec fn view(&self) -> Val {
        view_value(*self)
    }
}

impl View for Block {
    type V = Val;

    open spec fn view(&self) -> Val {
        Val::Block(self.block_type@, view_strings(self.labels@), view_entries(self.body@))
    }
}

/// Model of an optional reference to a value.
pub open spec fn opt_view(o: Option<&Value>) -> Option<Val> {
    match o {
        Some(v) => Some(v@),
        None => None,
    }
}

/// Model of a sequence of value references.
pub open spec fn refs_view(s: Seq<&Value>) -> Seq<Val> {
    Seq::new(s.len(), |i: int| s[i]@)
}

/// Model of a sequence of block references.
pub open spec fn block_refs_view(s: Seq<&Block>) -> Seq<Val> {
    Seq::new(s.len(), |i: int| s[i]@)
}

// ── Maps ───────────────────────────────────────────────────────────

/// Position of the first entry whose key is `k`, or -1.
pub open spec fn obj_find(m: Seq<(Seq<char>, Val)>, k: Seq<char>) -> int
    decreases m.len(),
{
    if m.len() == 0 {
        -1
    } else if m[0].0 == k {
        0
    } else {
        let r = obj_find(m.drop_first(), k);
        if r < 0 { -1 } else { r + 1 }
    }
}

/// Value stored under `k`.
pub open spec fn obj_get(m: Seq<(Seq<char>, Val)>, k: Seq<char>) -> Option<Val> {
    let p = obj_find(m, k);
    if p >= 0 { Some(m[p].1) } else { None }
}

/// `k` is a key of the map.
pub open spec fn obj_has(m: Seq<(Seq<char>, Val)>, k: Seq<char>) -> bool {
    obj_find(m, k) >= 0
}

/// The value under `k` (meaningful when `obj_has(m, k)`).
pub open spec fn obj_at(m: Seq<(Seq<char>, Val)>, k: Seq<char>) -> Val {
    m[obj_find(m, k)].1
}

/// Insert `v` under `k`: replaces the entry in place, or appends.
pub open spec fn obj_insert(m: Seq<(Seq<char>, Val)>, k: Seq<char>, v: Val) -> Seq<(Seq<char>, Val)> {
    let p = obj_find(m, k);
    if p >= 0 { m.update(p, (k, v)) } else { m.push((k, v)) }
}

/// The keys of a map, in order.
pub open spec fn obj_keys(m: Seq<(Seq<char>, Val)>) -> Seq<Seq<char>> {
    Seq::new(m.len(), |i: int| m[i].0)
}

/// The values of a map, in order.
pub open spec fn obj_values(m: Seq<(Seq<char>, Val)>) -> Seq<Val> {
    Seq::new(m.len(), |i: int| m[i].1)
}

/// No key occurs twice.
pub open spec fn obj_keys_unique(m: Seq<(Seq<char>, Val)>) -> bool {
    forall|i: int, j: int| 0 <= i < m.len() && 0 <= j < m.len() && i != j ==> m[i].0 != m[j].0
}

/// `obj_find` gives the first position holding `k`, or -1 when none does.
pub proof fn lemma_obj_find(m: Seq<(Seq<char>, Val)>, k: Seq<char>)
    ensures
        -1 <= obj_find(m, k) < m.len(),
        obj_find(m, k) == -1 <==> (forall|j: int| 0 <= j < m.len() ==> m[j].0 != k),
        obj_find(m, k) >= 0 ==> m[obj_find(m, k)].0 == k,
        forall|j: int| 0 <= j < obj_find(m, k) ==> m[j].0 != k,
    decreases m.len(),
{
    if m.len() > 0 && m[0].0 != k {
        lemma_obj_find(m.drop_first(), k);
        assert forall|j: int| 0 < j < m.len() implies m[j].0 == m.drop_first()[j - 1].0 by {}
        if obj_find(m, k) == -1 {
            assert forall|j: int| 0 <= j < m.len() implies m[j].0 != k by {
                if j > 0 {
                    assert(m[j].0 == m.drop_first()[j - 1].0);
                }
            }
        }
    }
}

/// Characterizes `obj_find` by the first matching position.
pub proof fn lemma_obj_find_at(m: Seq<(Seq<char>, Val)>, k: Seq<char>, i: int)
    requires
        0 <= i < m.len(),
        m[i].0 == k,
        forall|j: int| 0 <= j < i ==> m[j].0 != k,
    ensures
        obj_find(m, k) == i,
{
    lemma_obj_find(m, k);
    let p = obj_find(m, k);
    if p != i {
        if p < i {
            assert(m[p].0 != k);
        } else {
            assert(m[i].0 != k);
        }
    }
}

/// Characterizes `obj_find` when no entry holds `k`.
pub proof fn lemma_obj_find_none(m: Seq<(Seq<char>, Val)>, k: Seq<char>)
    requires
        forall|j: int| 0 <= j < m.len() ==> m[j].0 != k,
    ensures
        obj_find(m, k) == -1,
{
    lemma_obj_find(m, k);
}

// ── Equality ───────────────────────────────────────────────────────

/// IEEE-754: the bit pattern is a NaN.
pub open spec fn is_nan_bits(b: u64) -> bool {
    (b & 0x7ff0_0000_0000_0000u64) == 0x7ff0_0000_0000_0000u64 && (b & 0x000f_ffff_ffff_ffffu64) != 0
}

/// IEEE-754: the bit pattern is positive or negative zero.
pub open spec fn is_zero_bits(b: u64) -> bool {
    (b & 0x7fff_ffff_ffff_ffffu64) == 0
}

/// IEEE-754 equality of two floats given by their bit patterns:
/// NaN equals nothing, the two zeros are equal, otherwise the bits decide.
pub open spec fn float_bits_eq(a: u64, b: u64) -> bool {
    !is_nan_bits(a) && !is_nan_bits(b) && (a == b || (is_zero_bits(a) && is_zero_bits(b)))
}

/// Equality of values: variants must agree; floats compare as IEEE-754
/// numbers; arrays element-wise; maps (and block bodies) as maps, that is
/// with the same number of entries and every key of the left side holding
/// an equal value on the right side, regardless of order.
pub open spec fn val_eq(a: Val, b: Val) -> bool
    decreases a, 0int,
{
    match a {
        Val::Null => b is Null,
        Val::Bool(x) => b matches Val::Bool(y) && x == y,
        Val::Int(x) => b matches Val::Int(y) && x == y,
        Val::Float(x, _) => b matches Val::Float(y, _) && float_bits_eq(x, y),
        Val::Str(x) => b matches Val::Str(y) && x == y,
        Val::Bytes(x) => b matches Val::Bytes(y) && x == y,
        Val::Datetime(x) => b matches Val::Datetime(y) && x == y,
        Val::Array(x) => match b {
            Val::Array(y) => x.len() == y.len() && vals_eq_upto(x, y, x.len() as int),
            _ => false,
        },
        Val::Object(x) => match b {
            Val::Object(y) => x.len() == y.len() && entries_match_upto(x, y, x.len() as int),
            _ => false,
        },
        Val::Block(t1, l1, x) => match b {
            Val::Block(t2, l2, y) => t1 == t2 && l1 == l2 && x.len() == y.len()
                && entries_match_upto(x, y, x.len() as int),
            _ => false,
        },
    }
}

/// The first `n` elements of `x` and `y` are pairwise equal.
pub open spec fn vals_eq_upto(x: Seq<Val>, y: Seq<Val>, n: int) -> bool
    decreases x, n,
{
    if n <= 0 {
        true
    } else if n > x.len() {
        false
    } else {
        vals_eq_upto(x, y, n - 1) && val_eq(x[n - 1], y[n - 1])
    }
}

/// Each of the first `n` entries of `x` has its key in `y`, under an equal value.
pub open spec fn entries_match_upto(x: Seq<(Seq<char>, Val)>, y: Seq<(Seq<char>, Val)>, n: int) -> bool
    decreases x, n,
{
    if n <= 0 {
        true
    } else if n > x.len() {
        false
    } else {
        entries_match_upto(x, y, n - 1) && obj_has(y, x[n - 1].0) && val_eq(
            x[n - 1].1,
            obj_at(y, x[n - 1].0),
        )
    }
}

/// A prefix of an equal prefix is equal.
pub proof fn lemma_vals_eq_upto_mono(x: Seq<Val>, y: Seq<Val>, m: int, n: int)
    requires
        0 <= m <= n,
        vals_eq_upto(x, y, n),
    ensures
        vals_eq_upto(x, y, m),
    decreases n,
{
    if m < n {
        lemma_vals_eq_upto_mono(x, y, m, n - 1);
    }
}

/// A prefix of a matching prefix matches.
pub proof fn lemma_entries_match_upto_mono(x: Seq<(Seq<char>, Val)>, y: Seq<(Seq<char>, Val)>, m: int, n: int)
    requires
        0 <= m <= n,
        entries_match_upto(x, y, n),
    ensures
        entries_match_upto(x, y, m),
    decreases n,
{
    if m < n {
        lemma_entries_match_upto_mono(x, y, m, n - 1);
    }
}

// ── Exec: lookup, equality, copying ───────────────────────────────

/// Position of the first entry of `m` whose key is `key`.
pub fn find_entry(m: &Vec<(String, Value)>, key: &str) -> (r: Option<usize>)
    ensures
        match r {
            Some(i) => obj_find(view_entries(m@), key@) == i as int && i < m@.len(),
            None => obj_find(view_entries(m@), key@) == -1,
        },
{
    let mut i: usize = 0;
    while i < m.len()
        invariant
            i <= m@.len(),
            forall|j: int| 0 <= j < i ==> #[trigger] m@[j].0@ != key@,
        decreases m@.len() - i,
    {
        if str_eq(m[i].0.as_str(), key) {
            proof {
                let ve = view_entries(m@);
                assert forall|j: int| 0 <= j < i implies ve[j].0 != key@ by {
                    assert(m@[j].0@ != key@);
                }
                lemma_obj_find_at(ve, key@, i as int);
            }
            return Some(i);
        }
        i = i + 1;
    }
    proof {
        let ve = view_entries(m@);
        assert forall|j: int| 0 <= j < ve.len() implies ve[j].0 != key@ by {
            assert(m@[j].0@ != key@);
        }
        lemma_obj_find_none(ve, key@);
    }
    None
}

/// The model of a value has the value's variant.
pub proof fn lemma_view_variant(v: Value)
    ensures
        v is Null <==> v@ is Null,
        v is Bool <==> v@ is Bool,
        v is Int <==> v@ is Int,
        v is Float <==> v@ is Float,
        v is String <==> v@ is Str,
        v is Bytes <==> v@ is Bytes,
        v is Datetime <==> v@ is Datetime,
        v is Array <==> v@ is Array,
        v is Object <==> v@ is Object,
        v is Block <==> v@ is Block,
{
    match v {
        Value::Null => {},
        Value::Bool(_) => {},
        Value::Int(_) => {},
        Value::Float(_) => {},
        Value::String(_) => {},
        Value::Bytes(_) => {},
        Value::Datetime(_) => {},
        Value::Array(_) => {},
        Value::Object(_) => {},
        Value::Block(_) => {},
    }
}

fn float_eq_exec(a: u64, b: u64) -> (r: bool)
    ensures
        r == float_bits_eq(a, b),
{
    let a_nan = (a & 0x7ff0_0000_0000_0000u64) == 0x7ff0_0000_0000_0000u64 && (a & 0x000f_ffff_ffff_ffffu64) != 0;
    let b_nan = (b & 0x7ff0_0000_0000_0000u64) == 0x7ff0_0000_0000_0000u64 && (b & 0x000f_ffff_ffff_ffffu64) != 0;
    let a_zero = (a & 0x7fff_ffff_ffff_ffffu64) == 0;
    let b_zero = (b & 0x7fff_ffff_ffff_ffffu64) == 0;
    !a_nan && !b_nan && (a == b || (a_zero && b_zero))
}

fn strings_eq(x: &Vec<String>, y: &Vec<String>) -> (r: bool)
    ensures
        r == (view_strings(x@) == view_strings(y@)),
{
    if x.len() != y.len() {
        assert(view_strings(x@).len() != view_strings(y@).len());
        return false;
    }
    let mut i: usize = 0;
    while i < x.len()
        invariant
            x@.len() == y@.len(),
            i <= x@.len(),
            forall|j: int| 0 <= j < i ==> x@[j]@ == y@[j]@,
        decreases x@.len() - i,
    {
        if !str_eq(x[i].as_str(), y[i].as_str()) {
            assert(view_strings(x@)[i as int] != view_strings(y@)[i as int]);
            return false;
        }
        i = i + 1;
    }
    assert(view_strings(x@) =~= view_strings(y@));
    true
}

fn entries_eq(x: &Vec<(String, Value)>, y: &Vec<(String, Value)>) -> (r: bool)
    ensures
        r == (x@.len() == y@.len() && entries_match_upto(view_entries(x@), view_entries(y@), x@.len() as int)),
    decreases x,
{
    if x.len() != y.len() {
        return false;
    }
    let ghost vx = view_entries(x@);
    let ghost vy = view_entries(y@);
    let mut i: usize = 0;
    while i < x.len()
        invariant
            vx == view_entries(x@),
            vy == view_entries(y@),
            x@.len() == y@.len(),
            i <= x@.len(),
            entries_match_upto(vx, vy, i as int),
        decreases x@.len() - i,
    {
        assert(vx[i as int].0 == x@[i as int].0@);
        match find_entry(y, x[i].0.as_str()) {
            None => {
                proof {
                    if entries_match_upto(vx, vy, x@.len() as int) {
                        lemma_entries_match_upto_mono(vx, vy, i + 1, x@.len() as int);
                    }
                }
                return false;
            },
            Some(p) => {
                proof {
                    assert(decreases_to!(x => x@[i as int]));
                }
                assert(obj_at(vy, vx[i as int].0) == vy[p as int].1);
                let same = value_eq(&x[i].1, &y[p].1);
                if !same {
                    proof {
                        if entries_match_upto(vx, vy, x@.len() as int) {
                            lemma_entries_match_upto_mono(vx, vy, i + 1, x@.len() as int);
                        }
                    }
                    return false;
                }
            },
        }
        i = i + 1;
    }
    true
}

fn values_eq(x: &Vec<Value>, y: &Vec<Value>) -> (r: bool)
    ensures
        r == (x@.len() == y@.len() && vals_eq_upto(view_values(x@), view_values(y@), x@.len() as int)),
    decreases x,
{
    if x.len() != y.len() {
        return false;
    }
    let ghost vx = view_values(x@);
    let ghost vy = view_values(y@);
    let mut i: usize = 0;
    while i < x.len()
        invariant
            vx == view_values(x@),
            vy == view_values(y@),
            x@.len() == y@.len(),
            i <= x@.len(),
            vals_eq_upto(vx, vy, i as int),
        decreases x@.len() - i,
    {
        proof {
            assert(decreases_to!(x => x@[i as int]));
        }
        if !value_eq(&x[i], &y[i]) {
            proof {
                if vals_eq_upto(vx, vy, x@.len() as int) {
                    lemma_vals_eq_upto_mono(vx, vy, i + 1, x@.len() as int);
                }
            }
            return false;
        }
        i = i + 1;
    }
    true
}

fn bytes_eq(x: &Vec<u8>, y: &Vec<u8>) -> (r: bool)
    ensures
        r == (x@ == y@),
{
    if x.len() != y.len() {
        return false;
    }
    let mut i: usize = 0;
    while i < x.len()
        invariant
            x@.len() == y@.len(),
            i <= x@.len(),
            forall|j: int| 0 <= j < i ==> x@[j] == y@[j],
        decreases x@.len() - i,
    {
        if x[i] != y[i] {
            assert(x@[i as int] != y@[i as int]);
            return false;
        }
        i = i + 1;
    }
    assert(x@ =~= y@);
    true
}

fn block_eq(x: &Block, y: &Block) -> (r: bool)
    ensures
        r == val_eq(x@, y@),
    decreases x,
{
    let t = str_eq(x.block_type.as_str(), y.block_type.as_str());
    let l = strings_eq(&x.labels, &y.labels);
    proof {
        assert(decreases_to!(x => x.body));
    }
    let e = entries_eq(&x.body, &y.body);
    t && l && e
}

/// Value equality, as [`val_eq`] states it.
pub fn value_eq(a: &Value, b: &Value) -> (r: bool)
    ensures
        r == val_eq(a@, b@),
    decreases a,
{
    proof {
        lemma_view_variant(*a);
        lemma_view_variant(*b);
    }
    match (a, b) {
        (Value::Null, Value::Null) => true,
        (Value::Bool(x), Value::Bool(y)) => *x == *y,
        (Value::Int(x), Value::Int(y)) => *x == *y,
        (Value::Float(x), Value::Float(y)) => float_eq_exec(x.bits, y.bits),
        (Value::String(x), Value::String(y)) => str_eq(x.as_str(), y.as_str()),
        (Value::Datetime(x), Value::Datetime(y)) => str_eq(x.as_str(), y.as_str()),
        (Value::Bytes(x), Value::Bytes(y)) => bytes_eq(x, y),
        (Value::Array(x), Value::Array(y)) => values_eq(x, y),
        (Value::Object(x), Value::Object(y)) => entries_eq(x, y),
        (Value::Block(x), Value::Block(y)) => block_eq(x, y),
        _ => false,
    }
}

fn clone_strings(x: &Vec<String>) -> (r: Vec<String>)
    ensures
        view_strings(r@) == view_strings(x@),
{
    let mut r: Vec<String> = Vec::new();
    let mut i: usize = 0;
    while i < x.len()
        invariant
            i <= x@.len(),
            r@.len() == i,
            forall|j: int| 0 <= j < i ==> r@[j]@ == x@[j]@,
        decreases x@.len() - i,
    {
        r.push(x[i].clone());
        i = i + 1;
    }
    assert(view_strings(r@) =~= view_strings(x@));
    r
}

fn clone_entries(x: &Vec<(String, Value)>) -> (r: Vec<(String, Value)>)
    ensures
        view_entries(r@) == view_entries(x@),
    decreases x,
{
    let mut r: Vec<(String, Value)> = Vec::new();
    let mut i: usize = 0;
    while i < x.len()
        invariant
            i <= x@.len(),
            r@.len() == i,
            forall|j: int| #![trigger r@[j]] 0 <= j < i ==> r@[j].0@ == x@[j].0@ && r@[j].1@ == x@[j].1@,
        decreases x@.len() - i,
    {
        proof {
            assert(decreases_to!(x => x@[i as int]));
        }
        let k = x[i].0.clone();
        let v = clone_value(&x[i].1);
        r.push((k, v));
        i = i + 1;
    }
    assert forall|j: int| 0 <= j < r@.len() implies view_entries(r@)[j] == view_entries(x@)[j] by {
        assert(r@[j].0@ == x@[j].0@ && r@[j].1@ == x@[j].1@);
    }
    assert(view_entries(r@) =~= view_entries(x@));
    r
}

fn clone_values(x: &Vec<Value>) -> (r: Vec<Value>)
    ensures
        view_values(r@) == view_values(x@),
    decreases x,
{
    let mut r: Vec<Value> = Vec::new();
    let mut i: usize = 0;
    while i < x.len()
        invariant
            i <= x@.len(),
            r@.len() == i,
            forall|j: int| 0 <= j < i ==> #[trigger] r@[j]@ == x@[j]@,
        decreases x@.len() - i,
    {
        proof {
            assert(decreases_to!(x => x@[i as int]));
        }
        let v = clone_value(&x[i]);
        r.push(v);
        i = i + 1;
    }
    assert forall|j: int| 0 <= j < r@.len() implies view_values(r@)[j] == view_values(x@)[j] by {
        assert(r@[j]@ == x@[j]@);
    }
    assert(view_values(r@) =~= view_values(x@));
    r
}

/// A copy of `v` with the same model.
pub fn clone_value(v: &Value) -> (r: Value)
    ensures
        r@ == v@,
    decreases v,
{
    match v {
        Value::Null => Value::Null,
        Value::Bool(b) => Value::Bool(*b),
        Value::Int(n) => Value::Int(*n),
        Value::Float(f) => Value::Float(FloatValue { bits: f.bits, text: f.text.clone() }),
        Value::String(s) => Value::String(s.clone()),
        Value::Bytes(b) => Value::Bytes(b.clone()),
        Value::Datetime(s) => Value::Datetime(s.clone()),
        Value::Array(a) => Value::Array(clone_values(a)),
        Value::Object(m) => Value::Object(clone_entries(m)),
        Value::Block(b) => Value::Block(Block {
            block_type: b.block_type.clone(),
            labels: clone_strings(&b.labels),
            body: clone_entries(&b.body),
        }),
    }
}

impl Clone for Value {
    fn clone(&self) -> (r: Self)
        ensures
            r@ == self@,
    {
        clone_value(self)
    }
}

impl Clone for Block {
    fn clone(&self) -> (r: Self)
        ensures
            r@ == self@,
    {
        Block {
            block_type: self.block_type.clone(),
            labels: clone_strings(&self.labels),
            body: clone_entries(&self.body),
        }
    }
}

impl PartialEq for Value {
    fn eq(&self, other: &Self) -> (r: bool) {
        value_eq(self, other)
    }
}

impl vstd::std_specs::cmp::PartialEqSpecImpl for Value {
    open spec fn obeys_eq_spec() -> bool {
        true
    }

    open spec fn eq_spec(&self, other: &Self) -> bool {
        val_eq(self@, other@)
    }
}




// ── Accessors (model) ──────────────────────────────────────────────

/// Lookup by key in a map or a block body.
pub open spec fn val_get(v: Val, k: Seq<char>) -> Option<Val> {
    match v {
        Val::Object(m) => obj_get(m, k),
        Val::Block(_, _, m) => obj_get(m, k),
        _ => None,
    }
}

/// Lookup by position in an array.
pub open spec fn val_get_index(v: Val, i: int) -> Option<Val> {
    match v {
        Val::Array(a) => if 0 <= i < a.len() { Some(a[i]) } else { None },
        _ => None,
    }
}

/// Number of elements, keys, characters or bytes.
pub open spec fn val_len(v: Val) -> nat {
    match v {
        Val::Array(a) => a.len(),
        Val::Object(m) => m.len(),
        Val::Block(_, _, m) => m.len(),
        Val::Str(s) => s.len(),
        Val::Bytes(b) => b.len(),
        _ => 0,
    }
}

/// Keys of a map or block body.
pub open spec fn val_keys(v: Val) -> Seq<Seq<char>> {
    match v {
        Val::Object(m) => obj_keys(m),
        Val::Block(_, _, m) => obj_keys(m),
        _ => Seq::empty(),
    }
}

/// Values of a map or block body, or the elements of an array.
pub open spec fn val_values(v: Val) -> Seq<Val> {
    match v {
        Val::Object(m) => obj_values(m),
        Val::Block(_, _, m) => obj_values(m),
        Val::Array(a) => a,
        _ => Seq::empty(),
    }
}

/// Entries of a map or block body.
pub open spec fn val_entries(v: Val) -> Seq<(Seq<char>, Val)> {
    match v {
        Val::Object(m) => m,
        Val::Block(_, _, m) => m,
        _ => Seq::empty(),
    }
}

/// jq-compatible type name.
pub open spec fn jq_type_spec(v: Val) -> Seq<char> {
    match v {
        Val::Null => "null"@,
        Val::Bool(_) => "boolean"@,
        Val::Int(_) => "number"@,
        Val::Float(_, _) => "number"@,
        Val::Str(_) => "string"@,
        Val::Bytes(_) => "bytes"@,
        Val::Datetime(_) => "datetime"@,
        Val::Array(_) => "array"@,
        Val::Object(_) => "object"@,
        Val::Block(_, _, _) => "block"@,
    }
}

/// Model of a sequence of string slices.
pub open spec fn strs_view(s: Seq<&str>) -> Seq<Seq<char>> {
    Seq::new(s.len(), |i: int| s[i]@)
}

/// Model of a sequence of (key, value) reference pairs.
pub open spec fn entry_refs_view(s: Seq<(&str, &Value)>) -> Seq<(Seq<char>, Val)> {
    Seq::new(s.len(), |i: int| (s[i].0@, s[i].1@))
}

/// Arrays are flattened recursively into their non-array leaves (jq `flatten`).
pub open spec fn flat_vals(a: Seq<Val>) -> Seq<Val>
    decreases a,
{
    if a.len() == 0 {
        Seq::empty()
    } else {
        flat_vals(a.drop_last()) + match a.last() {
            Val::Array(inner) => flat_vals(inner),
            other => seq![other],
        }
    }
}

/// The blocks of type `t` inside `v`, in pre-order.
pub open spec fn blocks_of(v: Val, t: Seq<char>) -> Seq<Val>
    decreases v, 0int,
{
    match v {
        Val::Block(bt, _, body) => (if bt == t { seq![v] } else { Seq::empty() }) + blocks_of_entries(body, t, body.len() as int),
        Val::Object(m) => blocks_of_entries(m, t, m.len() as int),
        Val::Array(a) => blocks_of_seq(a, t, a.len() as int),
        _ => Seq::empty(),
    }
}

/// Blocks of type `t` in the first `n` elements of `a`.
pub open spec fn blocks_of_seq(a: Seq<Val>, t: Seq<char>, n: int) -> Seq<Val>
    decreases a, n,
{
    if n <= 0 || n > a.len() {
        Seq::empty()
    } else {
        blocks_of_seq(a, t, n - 1) + blocks_of(a[n - 1], t)
    }
}

/// Blocks of type `t` in the values of the first `n` entries of `m`.
pub open spec fn blocks_of_entries(m: Seq<(Seq<char>, Val)>, t: Seq<char>, n: int) -> Seq<Val>
    decreases m, n,
{
    if n <= 0 || n > m.len() {
        Seq::empty()
    } else {
        blocks_of_entries(m, t, n - 1) + blocks_of(m[n - 1].1, t)
    }
}

/// Every node of `v`, in pre-order (the node itself first).
pub open spec fn walk_vals(v: Val) -> Seq<Val>
    decreases v, 0int,
{
    seq![v] + match v {
        Val::Array(a) => walk_seq(a, a.len() as int),
        Val::Object(m) => walk_entries(m, m.len() as int),
        Val::Block(_, _, m) => walk_entries(m, m.len() as int),
        _ => Seq::empty(),
    }
}

/// Pre-order nodes of the first `n` elements of `a`.
pub open spec fn walk_seq(a: Seq<Val>, n: int) -> Seq<Val>
    decreases a, n,
{
    if n <= 0 || n > a.len() {
        Seq::empty()
    } else {
        walk_seq(a, n - 1) + walk_vals(a[n - 1])
    }
}

/// Pre-order nodes of the values of the first `n` entries of `m`.
pub open spec fn walk_entries(m: Seq<(Seq<char>, Val)>, n: int) -> Seq<Val>
    decreases m, n,
{
    if n <= 0 || n > m.len() {
        Seq::empty()
    } else {
        walk_entries(m, n - 1) + walk_vals(m[n - 1].1)
    }
}

// ── Construction ───────────────────────────────────────────────────

impl Value {
    pub fn null() -> (r: Value)
        ensures
            r@ == Val::Null,
    {
        Value::Null
    }

    pub fn bool(b: bool) -> (r: Value)
        ensures
            r@ == Val::Bool(b),
    {
        Value::Bool(b)
    }

    pub fn integer(n: i64) -> (r: Value)
        ensures
            r@ == Val::Int(n),
    {
        Value::Int(n)
    }

    /// A float given by its bit pattern and decimal text.
    pub fn float(bits: u64, text: &str) -> (r: Value)
        ensures
            r@ == Val::Float(bits, text@),
    {
        Value::Float(FloatValue { bits, text: to_owned_string(text) })
    }

    pub fn string(s: &str) -> (r: Value)
        ensures
            r@ == Val::Str(s@),
    {
        Value::String(to_owned_string(s))
    }

    pub fn bytes(b: Vec<u8>) -> (r: Value)
        ensures
            r@ == Val::Bytes(b@),
    {
        Value::Bytes(b)
    }

    pub fn datetime(s: &str) -> (r: Value)
        ensures
            r@ == Val::Datetime(s@),
    {
        Value::Datetime(to_owned_string(s))
    }

    pub fn array(v: Vec<Value>) -> (r: Value)
        ensures
            r@ == Val::Array(view_values(v@)),
    {
        Value::Array(v)
    }

    /// A map holding exactly the given entries.
    pub fn map(m: Vec<(String, Value)>) -> (r: Value)
        ensures
            r@ == Val::Object(view_entries(m@)),
    {
        Value::Object(m)
    }

    /// The empty map.
    pub fn empty_map() -> (r: Value)
        ensures
            r@ == Val::Object(Seq::empty()),
    {
        let m: Vec<(String, Value)> = Vec::new();
        assert(view_entries(m@) =~= Seq::empty());
        Value::Object(m)
    }

    /// A map built by inserting the pairs in order (a repeated key keeps
    /// its first position and takes the last value).
    pub fn from_pairs(pairs: Vec<(&str, Value)>) -> (r: Value)
        ensures
            r@ == Val::Object(insert_all(Seq::empty(), pairs_view(pairs@), pairs@.len() as int)),
    {
        let mut m: Vec<(String, Value)> = Vec::new();
        assert(view_entries(m@) =~= Seq::<(Seq<char>, Val)>::empty());
        let mut i: usize = 0;
        while i < pairs.len()
            invariant
                i <= pairs@.len(),
                view_entries(m@) == insert_all(Seq::empty(), pairs_view(pairs@), i as int),
            decreases pairs@.len() - i,
        {
            let k = to_owned_string(pairs[i].0);
            let v = clone_value(&pairs[i].1);
            entries_insert(&mut m, k, v);
            i = i + 1;
        }
        Value::Object(m)
    }

    pub fn block(block_type: &str, labels: Vec<String>, body: Vec<(String, Value)>) -> (r: Value)
        ensures
            r@ == Val::Block(block_type@, view_strings(labels@), view_entries(body@)),
    {
        Value::Block(Block { block_type: to_owned_string(block_type), labels, body })
    }
}

/// Model of key/value pairs given with string slice keys.
pub open spec fn pairs_view(s: Seq<(&str, Value)>) -> Seq<(Seq<char>, Val)> {
    Seq::new(s.len(), |i: int| (s[i].0@, s[i].1@))
}

/// Inserts the first `n` pairs of `p` into `m`, in order.
pub open spec fn insert_all(m: Seq<(Seq<char>, Val)>, p: Seq<(Seq<char>, Val)>, n: int) -> Seq<(Seq<char>, Val)>
    decreases n,
{
    if n <= 0 || n > p.len() {
        m
    } else {
        obj_insert(insert_all(m, p, n - 1), p[n - 1].0, p[n - 1].1)
    }
}

/// Inserts `v` under `k`: replaces the first entry with that key in
/// place, or appends a new entry.
pub fn entries_insert(m: &mut Vec<(String, Value)>, k: String, v: Value)
    ensures
        view_entries(final(m)@) == obj_insert(view_entries(old(m)@), k@, v@),
{
    let ghost old_view = view_entries(m@);
    match find_entry(m, k.as_str()) {
        Some(i) => {
            m.set(i, (k, v));
            proof {
                let ghost nv = view_entries(m@);
                assert forall|j: int| 0 <= j < nv.len() implies nv[j] == old_view.update(i as int, (k@, v@))[j] by {
                    if j != i as int {
                        assert(m@[j] == old(m)@[j]);
                    }
                }
            }
            assert(view_entries(m@) =~= old_view.update(i as int, (k@, v@)));
        },
        None => {
            m.push((k, v));
            proof {
                let ghost nv = view_entries(m@);
                assert forall|j: int| 0 <= j < nv.len() implies nv[j] == old_view.push((k@, v@))[j] by {
                    if j < old_view.len() {
                        assert(m@[j] == old(m)@[j]);
                    }
                }
            }
            assert(view_entries(m@) =~= old_view.push((k@, v@)));
        },
    }
}


// ── Predicates and accessors ───────────────────────────────────────

impl Value {
    pub fn is_null(&self) -> (r: bool)
        ensures
            r == (self@ is Null),
    {
        proof { lemma_view_variant(*self); }
        match self { Value::Null => true, _ => false }
    }

    pub fn is_bool(&self) -> (r: bool)
        ensures
            r == (self@ is Bool),
    {
        proof { lemma_view_variant(*self); }
        match self { Value::Bool(_) => true, _ => false }
    }

    pub fn is_int(&self) -> (r: bool)
        ensures
            r == (self@ is Int),
    {
        proof { lemma_view_variant(*self); }
        match self { Value::Int(_) => true, _ => false }
    }

    pub fn is_float(&self) -> (r: bool)
        ensures
            r == (self@ is Float),
    {
        proof { lemma_view_variant(*self); }
        match self { Value::Float(_) => true, _ => false }
    }

    pub fn is_number(&self) -> (r: bool)
        ensures
            r == (self@ is Int || self@ is Float),
    {
        proof { lemma_view_variant(*self); }
        match self { Value::Int(_) => true, Value::Float(_) => true, _ => false }
    }

    pub fn is_string(&self) -> (r: bool)
        ensures
            r == (self@ is Str),
    {
        proof { lemma_view_variant(*self); }
        match self { Value::String(_) => true, _ => false }
    }

    pub fn is_array(&self) -> (r: bool)
        ensures
            r == (self@ is Array),
    {
        proof { lemma_view_variant(*self); }
        match self { Value::Array(_) => true, _ => false }
    }

    pub fn is_map(&self) -> (r: bool)
        ensures
            r == (self@ is Object),
    {
        proof { lemma_view_variant(*self); }
        match self { Value::Object(_) => true, _ => false }
    }

    pub fn is_block(&self) -> (r: bool)
        ensures
            r == (self@ is Block),
    {
        proof { lemma_view_variant(*self); }
        match self { Value::Block(_) => true, _ => false }
    }

    pub fn is_bytes(&self) -> (r: bool)
        ensures
            r == (self@ is Bytes),
    {
        proof { lemma_view_variant(*self); }
        match self { Value::Bytes(_) => true, _ => false }
    }

    pub fn is_datetime(&self) -> (r: bool)
        ensures
            r == (self@ is Datetime),
    {
        proof { lemma_view_variant(*self); }
        match self { Value::Datetime(_) => true, _ => false }
    }

    /// jq-compatible type name.
    pub fn jq_type(&self) -> (r: &'static str)
        ensures
            r@ == jq_type_spec(self@),
    {
        match self {
            Value::Null => "null",
            Value::Bool(_) => "boolean",
            Value::Int(_) => "number",
            Value::Float(_) => "number",
            Value::String(_) => "string",
            Value::Bytes(_) => "bytes",
            Value::Datetime(_) => "datetime",
            Value::Array(_) => "array",
            Value::Object(_) => "object",
            Value::Block(_) => "block",
        }
    }

    pub fn as_bool(&self) -> (r: Option<bool>)
        ensures
            r == (match self@ { Val::Bool(b) => Some(b), _ => None::<bool> }),
    {
        match self { Value::Bool(b) => Some(*b), _ => None }
    }

    pub fn as_i64(&self) -> (r: Option<i64>)
        ensures
            r == (match self@ { Val::Int(n) => Some(n), _ => None::<i64> }),
    {
        match self { Value::Int(n) => Some(*n), _ => None }
    }

    /// The text of a string or datetime.
    pub fn as_str(&self) -> (r: Option<&str>)
        ensures
            match self@ {
                Val::Str(s) => r is Some && r->0@ == s,
                Val::Datetime(s) => r is Some && r->0@ == s,
                _ => r is None,
            },
    {
        match self {
            Value::String(s) => Some(s.as_str()),
            Value::Datetime(s) => Some(s.as_str()),
            _ => None,
        }
    }

    pub fn as_array(&self) -> (r: Option<&Vec<Value>>)
        ensures
            match self@ {
                Val::Array(a) => r is Some && view_values(r->0@) == a,
                _ => r is None,
            },
    {
        match self { Value::Array(a) => Some(a), _ => None }
    }

    pub fn as_map(&self) -> (r: Option<&Vec<(String, Value)>>)
        ensures
            match self@ {
                Val::Object(m) => r is Some && view_entries(r->0@) == m,
                _ => r is None,
            },
    {
        match self { Value::Object(m) => Some(m), _ => None }
    }

    pub fn as_block(&self) -> (r: Option<&Block>)
        ensures
            match self@ {
                Val::Block(_, _, _) => r is Some && r->0@ == self@,
                _ => r is None,
            },
    {
        match self { Value::Block(b) => Some(b), _ => None }
    }

    /// Index by key (works on maps and block bodies).
    pub fn get(&self, key: &str) -> (r: Option<&Value>)
        ensures
            opt_view(r) == val_get(self@, key@),
    {
        match self {
            Value::Object(m) => match find_entry(m, key) {
                Some(i) => Some(&m[i].1),
                None => None,
            },
            Value::Block(b) => match find_entry(&b.body, key) {
                Some(i) => Some(&b.body[i].1),
                None => None,
            },
            _ => None,
        }
    }

    /// Index by position (works on arrays).
    pub fn get_index(&self, idx: usize) -> (r: Option<&Value>)
        ensures
            opt_view(r) == val_get_index(self@, idx as int),
    {
        match self {
            Value::Array(a) => if idx < a.len() { Some(&a[idx]) } else { None },
            _ => None,
        }
    }

    /// Number of elements, keys, characters or bytes.
    pub fn len(&self) -> (r: usize)
        ensures
            r == val_len(self@),
    {
        match self {
            Value::Array(a) => a.len(),
            Value::Object(m) => m.len(),
            Value::Block(b) => b.body.len(),
            Value::String(s) => s.as_str().unicode_len(),
            Value::Bytes(b) => b.len(),
            _ => 0,
        }
    }

    pub fn is_empty(&self) -> (r: bool)
        ensures
            r == (val_len(self@) == 0),
    {
        self.len() == 0
    }

    /// Keys of a map or block body (empty for other values).
    pub fn keys(&self) -> (r: Vec<&str>)
        ensures
            strs_view(r@) == val_keys(self@),
    {
        match self {
            Value::Object(m) => entry_keys(m),
            Value::Block(b) => entry_keys(&b.body),
            _ => {
                let r: Vec<&str> = Vec::new();
                assert(strs_view(r@) =~= Seq::empty());
                r
            },
        }
    }

    /// Values of a map, block body or array (empty for other values).
    pub fn values(&self) -> (r: Vec<&Value>)
        ensures
            refs_view(r@) == val_values(self@),
    {
        let mut r: Vec<&Value> = Vec::new();
        match self {
            Value::Array(a) => {
                let mut i: usize = 0;
                while i < a.len()
                    invariant
                        i <= a@.len(),
                        r@.len() == i,
                        forall|j: int| 0 <= j < i ==> #[trigger] r@[j]@ == a@[j]@,
                    decreases a@.len() - i,
                {
                    r.push(&a[i]);
                    i = i + 1;
                }
                assert(refs_view(r@) =~= view_values(a@));
            },
            Value::Object(m) => {
                let mut i: usize = 0;
                while i < m.len()
                    invariant
                        i <= m@.len(),
                        r@.len() == i,
                        forall|j: int| 0 <= j < i ==> #[trigger] r@[j]@ == m@[j].1@,
                    decreases m@.len() - i,
                {
                    r.push(&m[i].1);
                    i = i + 1;
                }
                assert(refs_view(r@) =~= obj_values(view_entries(m@)));
            },
            Value::Block(b) => {
                let m = &b.body;
                let mut i: usize = 0;
                while i < m.len()
                    invariant
                        i <= m@.len(),
                        r@.len() == i,
                        forall|j: int| 0 <= j < i ==> #[trigger] r@[j]@ == m@[j].1@,
                    decreases m@.len() - i,
                {
                    r.push(&m[i].1);
                    i = i + 1;
                }
                assert(refs_view(r@) =~= obj_values(view_entries(m@)));
            },
            _ => {
                assert(refs_view(r@) =~= Seq::empty());
            },
        }
        r
    }

    /// Key/value entries of a map or block body.
    pub fn entries(&self) -> (r: Vec<(&str, &Value)>)
        ensures
            entry_refs_view(r@) == val_entries(self@),
    {
        match self {
            Value::Object(m) => entry_refs(m),
            Value::Block(b) => entry_refs(&b.body),
            _ => {
                let r: Vec<(&str, &Value)> = Vec::new();
                assert(entry_refs_view(r@) =~= Seq::empty());
                r
            },
        }
    }
}

fn entry_keys<'a>(m: &'a Vec<(String, Value)>) -> (r: Vec<&'a str>)
    ensures
        strs_view(r@) == obj_keys(view_entries(m@)),
{
    let mut r: Vec<&str> = Vec::new();
    let mut i: usize = 0;
    while i < m.len()
        invariant
            i <= m@.len(),
            r@.len() == i,
            forall|j: int| 0 <= j < i ==> #[trigger] r@[j]@ == m@[j].0@,
        decreases m@.len() - i,
    {
        r.push(m[i].0.as_str());
        i = i + 1;
    }
    assert(strs_view(r@) =~= obj_keys(view_entries(m@)));
    r
}

fn entry_refs<'a>(m: &'a Vec<(String, Value)>) -> (r: Vec<(&'a str, &'a Value)>)
    ensures
        entry_refs_view(r@) == view_entries(m@),
{
    let mut r: Vec<(&str, &Value)> = Vec::new();
    let mut i: usize = 0;
    while i < m.len()
        invariant
            i <= m@.len(),
            r@.len() == i,
            forall|j: int| #![trigger r@[j]] 0 <= j < i ==> r@[j].0@ == m@[j].0@ && r@[j].1@ == m@[j].1@,
        decreases m@.len() - i,
    {
        r.push((m[i].0.as_str(), &m[i].1));
        i = i + 1;
    }
    assert forall|j: int| 0 <= j < r@.len() implies entry_refs_view(r@)[j] == view_entries(m@)[j] by {
        assert(r@[j].0@ == m@[j].0@ && r@[j].1@ == m@[j].1@);
    }
    assert(entry_refs_view(r@) =~= view_entries(m@));
    r
}


// ── Path selection ─────────────────────────────────────────────────

/// One step of a dot path: a key, or else an array index.
pub open spec fn select_step(v: Val, seg: Seq<char>) -> Option<Val> {
    match val_get(v, seg) {
        Some(x) => Some(x),
        None => match parse_usize_spec(seg) {
            Some(i) => val_get_index(v, i as int),
            None => None,
        },
    }
}

/// Follows the segments in order; `None` as soon as one is missing.
pub open spec fn select_segs(v: Val, segs: Seq<Seq<char>>) -> Option<Val>
    decreases segs.len(),
{
    if segs.len() == 0 {
        Some(v)
    } else {
        match select_segs(v, segs.drop_last()) {
            Some(c) => select_step(c, segs.last()),
            None => None,
        }
    }
}

/// Selection by a dot-separated path; the empty path selects the value.
pub open spec fn select_spec(v: Val, path: Seq<char>) -> Option<Val> {
    if path.len() == 0 {
        Some(v)
    } else {
        select_segs(v, split_spec(path, '.'))
    }
}

proof fn lemma_select_none_stays(v: Val, segs: Seq<Seq<char>>, k: int, j: int)
    requires
        0 <= k <= j <= segs.len(),
        select_segs(v, segs.subrange(0, k)) is None,
    ensures
        select_segs(v, segs.subrange(0, j)) is None,
    decreases j - k,
{
    if k < j {
        assert(segs.subrange(0, k + 1).drop_last() =~= segs.subrange(0, k));
        lemma_select_none_stays(v, segs, k + 1, j);
    }
}

impl Value {
    /// Selects a nested value by a dot path such as `"spec.template.name"`
    /// or `"items.0"`: each segment is tried as a key, then as an index.
    pub fn select(&self, path: &str) -> (r: Option<&Value>)
        ensures
            opt_view(r) == select_spec(self@, path@),
    {
        if path.unicode_len() == 0 {
            return Some(self);
        }
        let segs = split_str(path, '.');
        let ghost ss = strings_view(segs@);
        let mut cur: &Value = self;
        let mut i: usize = 0;
        assert(ss.subrange(0, 0) =~= Seq::<Seq<char>>::empty());
        while i < segs.len()
            invariant
                ss == strings_view(segs@),
                ss == split_spec(path@, '.'),
                path@.len() > 0,
                i <= segs@.len(),
                select_segs(self@, ss.subrange(0, i as int)) == Some(cur@),
            decreases segs@.len() - i,
        {
            let seg = segs[i].as_str();
            let ghost pre = ss.subrange(0, i as int);
            let ghost nxt = ss.subrange(0, i + 1);
            assert(nxt.drop_last() =~= pre);
            assert(nxt.last() == seg@);
            match cur.get(seg) {
                Some(x) => {
                    cur = x;
                },
                None => match parse_usize(seg) {
                    Some(n) => match cur.get_index(n) {
                        Some(x) => {
                            cur = x;
                        },
                        None => {
                            proof { lemma_select_none_stays(self@, ss, i + 1, ss.len() as int); }
                            assert(ss.subrange(0, ss.len() as int) =~= ss);
                            return None;
                        },
                    },
                    None => {
                        proof { lemma_select_none_stays(self@, ss, i + 1, ss.len() as int); }
                        assert(ss.subrange(0, ss.len() as int) =~= ss);
                        return None;
                    },
                },
            }
            i = i + 1;
        }
        assert(ss.subrange(0, ss.len() as int) =~= ss);
        Some(cur)
    }
}


// ── Traversals ─────────────────────────────────────────────────────

fn flatten_into(a: &Vec<Value>, out: &mut Vec<Value>)
    ensures
        view_values(final(out)@) == view_values(old(out)@) + flat_vals(view_values(a@)),
    decreases a,
{
    let ghost start = view_values(out@);
    let ghost av = view_values(a@);
    let mut i: usize = 0;
    assert(av.subrange(0, 0) =~= Seq::<Val>::empty());
    assert(start + flat_vals(Seq::<Val>::empty()) =~= start);
    while i < a.len()
        invariant
            av == view_values(a@),
            i <= a@.len(),
            view_values(out@) == start + flat_vals(av.subrange(0, i as int)),
        decreases a@.len() - i,
    {
        let ghost pre = av.subrange(0, i as int);
        let ghost nxt = av.subrange(0, i + 1);
        assert(nxt.drop_last() =~= pre);
        assert(nxt.last() == a@[i as int]@);
        proof {
            assert(decreases_to!(a => a@[i as int]));
            lemma_view_variant(a@[i as int]);
        }
        match &a[i] {
            Value::Array(inner) => {
                flatten_into(inner, out);
                assert(view_values(out@) =~= start + flat_vals(nxt));
            },
            other => {
                let ghost before = view_values(out@);
                out.push(clone_value(other));
                assert(view_values(out@) =~= before.push(other@));
                assert(view_values(out@) =~= start + flat_vals(nxt));
            },
        }
        i = i + 1;
    }
    assert(av.subrange(0, a@.len() as int) =~= av);
}

/// The flattened model: arrays lose their nesting, other values stay.
pub open spec fn flatten_spec(v: Val) -> Val {
    match v {
        Val::Array(a) => Val::Array(flat_vals(a)),
        other => other,
    }
}

fn blocks_into<'a>(v: &'a Value, t: &str, out: &mut Vec<&'a Block>)
    ensures
        block_refs_view(final(out)@) == block_refs_view(old(out)@) + blocks_of(v@, t@),
    decreases v,
{
    let ghost start = block_refs_view(out@);
    match v {
        Value::Block(b) => {
            if str_eq(b.block_type.as_str(), t) {
                out.push(b);
                assert(block_refs_view(out@) =~= start.push(v@));
            } else {
                assert(block_refs_view(out@) =~= start);
            }
            let ghost mid = block_refs_view(out@);
            proof { assert(decreases_to!(v => b.body)); }
            entries_blocks_into(&b.body, t, out);
            assert(block_refs_view(out@) =~= start + blocks_of(v@, t@));
        },
        Value::Object(m) => {
            entries_blocks_into(m, t, out);
        },
        Value::Array(a) => {
            values_blocks_into(a, t, out);
        },
        _ => {
            assert(block_refs_view(out@) =~= start + blocks_of(v@, t@));
        },
    }
}

fn entries_blocks_into<'a>(m: &'a Vec<(String, Value)>, t: &str, out: &mut Vec<&'a Block>)
    ensures
        block_refs_view(final(out)@) == block_refs_view(old(out)@) + blocks_of_entries(view_entries(m@), t@, m@.len() as int),
    decreases m,
{
    let ghost start = block_refs_view(out@);
    let ghost mv = view_entries(m@);
    let mut i: usize = 0;
    assert(start + blocks_of_entries(mv, t@, 0) =~= start);
    while i < m.len()
        invariant
            mv == view_entries(m@),
            i <= m@.len(),
            block_refs_view(out@) == start + blocks_of_entries(mv, t@, i as int),
        decreases m@.len() - i,
    {
        proof {
            assert(decreases_to!(m => m@[i as int]));
            assert(decreases_to!(m@[i as int] => m@[i as int].1));
        }
        blocks_into(&m[i].1, t, out);
        assert(mv[i as int].1 == m@[i as int].1@);
        assert(block_refs_view(out@) =~= start + blocks_of_entries(mv, t@, i + 1));
        i = i + 1;
    }
}

fn walk_into<'a>(v: &'a Value, out: &mut Vec<&'a Value>)
    ensures
        refs_view(final(out)@) == refs_view(old(out)@) + walk_vals(v@),
    decreases v,
{
    let ghost start = refs_view(out@);
    out.push(v);
    assert(refs_view(out@) =~= start.push(v@));
    let ghost mid = refs_view(out@);
    match v {
        Value::Array(a) => {
            values_walk_into(a, out);
            assert(refs_view(out@) =~= start + walk_vals(v@));
        },
        Value::Object(m) => {
            entries_walk_into(m, out);
            assert(refs_view(out@) =~= start + walk_vals(v@));
        },
        Value::Block(b) => {
            proof { assert(decreases_to!(v => b.body)); }
            entries_walk_into(&b.body, out);
            assert(refs_view(out@) =~= start + walk_vals(v@));
        },
        _ => {
            assert(refs_view(out@) =~= start + walk_vals(v@));
        },
    }
}


fn values_blocks_into<'a>(a: &'a Vec<Value>, t: &str, out: &mut Vec<&'a Block>)
    ensures
        block_refs_view(final(out)@) == block_refs_view(old(out)@) + blocks_of_seq(view_values(a@), t@, a@.len() as int),
    decreases a,
{
    let ghost start = block_refs_view(out@);
    let ghost av = view_values(a@);
    let mut i: usize = 0;
    assert(start + blocks_of_seq(av, t@, 0) =~= start);
    while i < a.len()
        invariant
            av == view_values(a@),
            i <= a@.len(),
            block_refs_view(out@) == start + blocks_of_seq(av, t@, i as int),
        decreases a@.len() - i,
    {
        proof { assert(decreases_to!(a => a@[i as int])); }
        blocks_into(&a[i], t, out);
        assert(av[i as int] == a@[i as int]@);
        assert(block_refs_view(out@) =~= start + blocks_of_seq(av, t@, i + 1));
        i = i + 1;
    }
}

fn values_walk_into<'a>(a: &'a Vec<Value>, out: &mut Vec<&'a Value>)
    ensures
        refs_view(final(out)@) == refs_view(old(out)@) + walk_seq(view_values(a@), a@.len() as int),
    decreases a,
{
    let ghost start = refs_view(out@);
    let ghost av = view_values(a@);
    let mut i: usize = 0;
    assert(start + walk_seq(av, 0) =~= start);
    while i < a.len()
        invariant
            av == view_values(a@),
            i <= a@.len(),
            refs_view(out@) == start + walk_seq(av, i as int),
        decreases a@.len() - i,
    {
        proof { assert(decreases_to!(a => a@[i as int])); }
        walk_into(&a[i], out);
        assert(av[i as int] == a@[i as int]@);
        assert(refs_view(out@) =~= start + walk_seq(av, i + 1));
        i = i + 1;
    }
}

fn entries_walk_into<'a>(m: &'a Vec<(String, Value)>, out: &mut Vec<&'a Value>)
    ensures
        refs_view(final(out)@) == refs_view(old(out)@) + walk_entries(view_entries(m@), m@.len() as int),
    decreases m,
{
    let ghost start = refs_view(out@);
    let ghost mv = view_entries(m@);
    let mut i: usize = 0;
    assert(start + walk_entries(mv, 0) =~= start);
    while i < m.len()
        invariant
            mv == view_entries(m@),
            i <= m@.len(),
            refs_view(out@) == start + walk_entries(mv, i as int),
        decreases m@.len() - i,
    {
        proof {
            assert(decreases_to!(m => m@[i as int]));
            assert(decreases_to!(m@[i as int] => m@[i as int].1));
        }
        walk_into(&m[i].1, out);
        assert(mv[i as int].1 == m@[i as int].1@);
        assert(refs_view(out@) =~= start + walk_entries(mv, i + 1));
        i = i + 1;
    }
}

impl Value {
    /// Recursively flattens nested arrays (jq `flatten`); other values are
    /// returned unchanged.
    pub fn flatten(&self) -> (r: Value)
        ensures
            r@ == flatten_spec(self@),
    {
        match self {
            Value::Array(a) => {
                let mut out: Vec<Value> = Vec::new();
                flatten_into(a, &mut out);
                assert(view_values(out@) =~= flat_vals(view_values(a@)));
                Value::Array(out)
            },
            other => clone_value(other),
        }
    }

    /// All blocks of the given type, recursively, in pre-order.
    pub fn find_blocks(&self, block_type: &str) -> (r: Vec<&Block>)
        ensures
            block_refs_view(r@) == blocks_of(self@, block_type@),
    {
        let mut out: Vec<&Block> = Vec::new();
        blocks_into(self, block_type, &mut out);
        assert(block_refs_view(out@) =~= Seq::<Val>::empty() + blocks_of(self@, block_type@));
        out
    }

    /// Every value in the tree, the value itself first (pre-order DFS).
    pub fn walk(&self) -> (r: Vec<&Value>)
        ensures
            refs_view(r@) == walk_vals(self@),
    {
        let mut out: Vec<&Value> = Vec::new();
        walk_into(self, &mut out);
        assert(refs_view(out@) =~= Seq::<Val>::empty() + walk_vals(self@));
        out
    }
}


// ── Typed views used by readers of parsed documents ────────────────

/// The text of a string or datetime value.
pub open spec fn val_as_str(v: Val) -> Option<Seq<char>> {
    match v {
        Val::Str(s) => Some(s),
        Val::Datetime(s) => Some(s),
        _ => None,
    }
}

/// The text of an optional value, if it is a string or datetime.
pub open spec fn opt_as_str(v: Option<Val>) -> Option<Seq<char>> {
    match v {
        Some(x) => val_as_str(x),
        None => None,
    }
}

/// The elements of an optional array value (empty otherwise).
pub open spec fn opt_array_or_empty(v: Option<Val>) -> Seq<Val> {
    match v {
        Some(Val::Array(a)) => a,
        _ => Seq::empty(),
    }
}

/// The text of an optional string value, or the empty string.
pub open spec fn opt_str_or_empty(v: Option<Val>) -> Seq<char> {
    match opt_as_str(v) {
        Some(s) => s,
        None => Seq::empty(),
    }
}

/// The texts of the string elements of `a`, in order.
pub open spec fn strs_in(a: Seq<Val>) -> Seq<Seq<char>>
    decreases a.len(),
{
    if a.len() == 0 {
        Seq::empty()
    } else {
        let pre = strs_in(a.drop_last());
        match val_as_str(a.last()) {
            Some(s) => pre.push(s),
            None => pre,
        }
    }
}

/// The texts of the string elements of an array.
pub fn strings_of(a: &[Value]) -> (r: Vec<String>)
    ensures
        strings_view(r@) == strs_in(view_values(a@)),
{
    let ghost av = view_values(a@);
    let mut r: Vec<String> = Vec::new();
    let mut i: usize = 0;
    assert(strings_view(r@) =~= strs_in(av.subrange(0, 0)));
    while i < a.len()
        invariant
            av == view_values(a@),
            i <= a@.len(),
            strings_view(r@) == strs_in(av.subrange(0, i as int)),
        decreases a@.len() - i,
    {
        let ghost nxt = av.subrange(0, i + 1);
        assert(nxt.drop_last() =~= av.subrange(0, i as int));
        assert(nxt.last() == a@[i as int]@);
        let ghost before = strings_view(r@);
        match a[i].as_str() {
            Some(s) => {
                r.push(to_owned_string(s));
                assert(strings_view(r@) =~= before.push(s@));
            },
            None => {},
        }
        i = i + 1;
    }
    assert(av.subrange(0, a@.len() as int) =~= av);
    r
}

/// The array elements of an optional value, or an empty slice.
pub fn array_or_empty<'a>(v: Option<&'a Value>) -> (r: &'a [Value])
    ensures
        view_values(r@) == opt_array_or_empty(opt_view(v)),
{
    match v {
        Some(x) => match x {
            Value::Array(a) => a.as_slice(),
            _ => {
                let e: &[Value] = &[];
                assert(view_values(e@) =~= Seq::<Val>::empty());
                e
            },
        },
        None => {
            let e: &[Value] = &[];
            assert(view_values(e@) =~= Seq::<Val>::empty());
            e
        },
    }
}

/// The text of an optional string value, or the empty string.
pub fn str_or_empty(v: Option<&Value>) -> (r: String)
    ensures
        r@ == opt_str_or_empty(opt_view(v)),
{
    match v {
        Some(x) => match x.as_str() {
            Some(s) => to_owned_string(s),
            None => String::new(),
        },
        None => String::new(),
    }
}

/// The text of an optional string value.
pub fn opt_string(v: Option<&Value>) -> (r: Option<String>)
    ensures
        match r {
            Some(s) => opt_as_str(opt_view(v)) == Some(s@),
            None => opt_as_str(opt_view(v)) is None,
        },
{
    match v {
        Some(x) => match x.as_str() {
            Some(s) => Some(to_owned_string(s)),
            None => None,
        },
        None => None,
    }
}


/// The model of a sequence of values, element by element.
pub proof fn lemma_view_values(x: Seq<Value>)
    ensures
        view_values(x).len() == x.len(),
        forall|j: int| 0 <= j < x.len() ==> #[trigger] view_values(x)[j] == x[j]@,
{
}


/// A copy of a block with the same model.
pub fn clone_block(b: &Block) -> (r: Block)
    ensures
        r@ == b@,
{
    Block {
        block_type: b.block_type.clone(),
        labels: clone_strings(&b.labels),
        body: clone_entries(&b.body),
    }
}


// ── Laws of the map model ──────────────────────────────────────────

/// Reading a map after writing `v` under `k` gives `v` back, and leaves
/// every other key's value as it was.
pub proof fn law_insert_then_get(m: Seq<(Seq<char>, Val)>, k: Seq<char>, v: Val, k2: Seq<char>)
    ensures
        obj_get(obj_insert(m, k, v), k) == Some(v),
        k2 != k ==> obj_get(obj_insert(m, k, v), k2) == obj_get(m, k2),
{
    lemma_obj_find(m, k);
    lemma_obj_find(m, k2);
    let p = obj_find(m, k);
    let r = obj_insert(m, k, v);
    if p >= 0 {
        lemma_obj_find_at(r, k, p);
        if k2 != k {
            lemma_obj_find(r, k2);
            let q = obj_find(m, k2);
            if q >= 0 {
                lemma_obj_find_at(r, k2, q);
            } else {
                lemma_obj_find_none(r, k2);
            }
        }
    } else {
        lemma_obj_find_at(r, k, m.len() as int);
        if k2 != k {
            let q = obj_find(m, k2);
            if q >= 0 {
                lemma_obj_find_at(r, k2, q);
            } else {
                lemma_obj_find_none(r, k2);
            }
        }
    }
}


/// A well-formed value: no NaN float anywhere, and every map and block
/// body has each key once (what the parsers build).
pub open spec fn wf_val(v: Val) -> bool
    decreases v,
{
    match v {
        Val::Float(b, _) => !is_nan_bits(b),
        Val::Array(a) => forall|i: int| 0 <= i < a.len() ==> wf_val(#[trigger] a[i]),
        Val::Object(m) => obj_keys_unique(m) && forall|i: int| 0 <= i < m.len() ==> wf_val(#[trigger] m[i].1),
        Val::Block(_, _, m) => obj_keys_unique(m) && forall|i: int| 0 <= i < m.len() ==> wf_val(#[trigger] m[i].1),
        _ => true,
    }
}

proof fn lemma_vals_eq_refl(x: Seq<Val>, n: int)
    requires
        0 <= n <= x.len(),
        forall|i: int| 0 <= i < x.len() ==> wf_val(#[trigger] x[i]),
    ensures
        vals_eq_upto(x, x, n),
    decreases x, n,
{
    if n > 0 {
        lemma_vals_eq_refl(x, n - 1);
        assert(decreases_to!(x => x[n - 1]));
        law_val_eq_refl(x[n - 1]);
    }
}

proof fn lemma_entries_match_refl(x: Seq<(Seq<char>, Val)>, n: int)
    requires
        0 <= n <= x.len(),
        obj_keys_unique(x),
        forall|i: int| 0 <= i < x.len() ==> wf_val(#[trigger] x[i].1),
    ensures
        entries_match_upto(x, x, n),
    decreases x, n,
{
    if n > 0 {
        lemma_entries_match_refl(x, n - 1);
        lemma_obj_find_at(x, x[n - 1].0, n - 1);
        assert(decreases_to!(x => x[n - 1]));
        assert(decreases_to!(x[n - 1] => x[n - 1].1));
        law_val_eq_refl(x[n - 1].1);
    }
}

/// Equality of values is reflexive on well-formed values.
pub proof fn law_val_eq_refl(v: Val)
    requires
        wf_val(v),
    ensures
        val_eq(v, v),
    decreases v,
{
    match v {
        Val::Array(a) => {
            lemma_vals_eq_refl(a, a.len() as int);
        },
        Val::Object(m) => {
            lemma_entries_match_refl(m, m.len() as int);
        },
        Val::Block(_, _, m) => {
            lemma_entries_match_refl(m, m.len() as int);
        },
        _ => {},
    }
}


// ── Mapping leaves ─────────────────────────────────────────────────

/// `r` is `v` with each leaf (anything but an array, map or block)
/// replaced by what `f` may return for it; arrays, maps and blocks keep
/// their shape, keys, types and labels.
pub open spec fn leaves_mapped<F: Fn(&Value) -> Value>(f: F, v: Value, r: Value) -> bool
    decreases v,
{
    match v {
        Value::Array(a) => match r {
            Value::Array(b) => b@.len() == a@.len() && forall|i: int| 0 <= i < a@.len() ==> leaves_mapped(f, #[trigger] a@[i], b@[i]),
            _ => false,
        },
        Value::Object(m) => match r {
            Value::Object(n) => n@.len() == m@.len() && forall|i: int| 0 <= i < m@.len() ==> {
                &&& n@[i].0@ == (#[trigger] m@[i]).0@
                &&& leaves_mapped(f, m@[i].1, n@[i].1)
            },
            _ => false,
        },
        Value::Block(bl) => match r {
            Value::Block(b2) => b2.block_type@ == bl.block_type@ && view_strings(b2.labels@) == view_strings(bl.labels@)
                && b2.body@.len() == bl.body@.len() && forall|i: int| 0 <= i < bl.body@.len() ==> {
                    &&& b2.body@[i].0@ == (#[trigger] bl.body@[i]).0@
                    &&& leaves_mapped(f, bl.body@[i].1, b2.body@[i].1)
                },
            _ => false,
        },
        _ => call_ensures(f, (&v,), r),
    }
}

fn map_values<F: Fn(&Value) -> Value>(a: &Vec<Value>, f: &F) -> (r: Vec<Value>)
    requires
        forall|x: &Value| f.requires((x,)),
    ensures
        r@.len() == a@.len(),
        forall|i: int| 0 <= i < a@.len() ==> leaves_mapped(*f, #[trigger] a@[i], r@[i]),
    decreases a,
{
    let mut r: Vec<Value> = Vec::new();
    let mut i: usize = 0;
    while i < a.len()
        invariant
            forall|x: &Value| f.requires((x,)),
            i <= a@.len(),
            r@.len() == i,
            forall|j: int| 0 <= j < i ==> leaves_mapped(*f, #[trigger] a@[j], r@[j]),
        decreases a@.len() - i,
    {
        proof {
            assert(decreases_to!(a => a@[i as int]));
        }
        let x = a[i].map_leaves(f);
        r.push(x);
        i = i + 1;
    }
    r
}

fn map_entries<F: Fn(&Value) -> Value>(m: &Vec<(String, Value)>, f: &F) -> (r: Vec<(String, Value)>)
    requires
        forall|x: &Value| f.requires((x,)),
    ensures
        r@.len() == m@.len(),
        forall|i: int| 0 <= i < m@.len() ==> {
            &&& r@[i].0@ == (#[trigger] m@[i]).0@
            &&& leaves_mapped(*f, m@[i].1, r@[i].1)
        },
    decreases m,
{
    let mut r: Vec<(String, Value)> = Vec::new();
    let mut i: usize = 0;
    while i < m.len()
        invariant
            forall|x: &Value| f.requires((x,)),
            i <= m@.len(),
            r@.len() == i,
            forall|j: int| 0 <= j < i ==> {
                &&& r@[j].0@ == (#[trigger] m@[j]).0@
                &&& leaves_mapped(*f, m@[j].1, r@[j].1)
            },
        decreases m@.len() - i,
    {
        proof {
            assert(decreases_to!(m => m@[i as int]));
            assert(decreases_to!(m@[i as int] => m@[i as int].1));
        }
        let x = m[i].1.map_leaves(f);
        r.push((to_owned_string(m[i].0.as_str()), x));
        i = i + 1;
    }
    r
}

impl Value {
    /// `self` with each leaf replaced by `f` of it; arrays, maps and blocks
    /// keep their shape.
    pub fn map_leaves<F: Fn(&Value) -> Value>(&self, f: &F) -> (r: Value)
        requires
            forall|x: &Value| f.requires((x,)),
        ensures
            leaves_mapped(*f, *self, r),
        decreases self,
    {
        match self {
            Value::Array(a) => {
                proof {
                    assert(decreases_to!(self => a));
                }
                Value::Array(map_values(a, f))
            },
            Value::Object(m) => {
                proof {
                    assert(decreases_to!(self => m));
                }
                Value::Object(map_entries(m, f))
            },
            Value::Block(b) => {
                proof {
                    assert(decreases_to!(self => b));
                    assert(decreases_to!(b => b.body));
                }
                let labels = clone_labels(&b.labels);
                Value::Block(Block { block_type: to_owned_string(b.block_type.as_str()), labels, body: map_entries(&b.body, f) })
            },
            _ => f(self),
        }
    }
}

fn clone_labels(l: &Vec<String>) -> (r: Vec<String>)
    ensures
        view_strings(r@) == view_strings(l@),
{
    let mut r: Vec<String> = Vec::new();
    let mut i: usize = 0;
    while i < l.len()
        invariant
            i <= l@.len(),
            view_strings(r@) == view_strings(l@).take(i as int),
        decreases l@.len() - i,
    {
        let ghost before = view_strings(r@);
        r.push(to_owned_string(l[i].as_str()));
        assert(view_strings(r@) =~= before.push(l@[i as int]@));
        assert(view_strings(l@).take(i + 1) =~= view_strings(l@).take(i as int).push(l@[i as int]@));
        i = i + 1;
    }
    assert(view_strings(l@).take(l@.len() as int) =~= view_strings(l@));
    r
}


// ── Printing ───────────────────────────────────────────────────────

/// The labels of a block as printed: each quoted, after a space.
pub open spec fn labels_text(labels: Seq<Seq<char>>) -> Seq<char>
    decreases labels.len(),
{
    if labels.len() == 0 {
        Seq::empty()
    } else {
        labels_text(labels.drop_last()) + " \""@ + labels.last() + "\""@
    }
}

/// How a value prints, for all but numbers with a fraction part, arrays
/// and maps: `null`, booleans and integers as literals, strings and
/// datetimes as their text, bytes by their count, a block by its type
/// and labels.
pub open spec fn scalar_text_spec(v: Val) -> Option<Seq<char>> {
    match v {
        Val::Null => Some("null"@),
        Val::Bool(b) => Some(if b { "true"@ } else { "false"@ }),
        Val::Int(n) => Some(int_text(n as int)),
        Val::Str(s) => Some(s),
        Val::Datetime(s) => Some(s),
        Val::Bytes(b) => Some("<"@ + nat_text(b.len()) + " bytes>"@),
        Val::Block(t, labels, _) => Some(t + labels_text(labels) + " { ... }"@),
        _ => None,
    }
}

impl Value {
    /// The printed text of a value that is neither a float, an array nor
    /// a map (see [`scalar_text_spec`]).
    pub fn scalar_text(&self) -> (r: Option<String>)
        ensures
            match r {
                Some(t) => scalar_text_spec(self@) == Some(t@),
                None => scalar_text_spec(self@) is None,
            },
    {
        proof {
            reveal_strlit("null");
            reveal_strlit("true");
            reveal_strlit("false");
        }
        match self {
            Value::Null => Some(to_owned_string("null")),
            Value::Bool(b) => Some(if *b { to_owned_string("true") } else { to_owned_string("false") }),
            Value::Int(n) => Some(i64_text(*n)),
            Value::String(s) => Some(to_owned_string(s.as_str())),
            Value::Datetime(s) => Some(to_owned_string(s.as_str())),
            Value::Bytes(b) => {
                let mut t = to_owned_string("<");
                push_str(&mut t, usize_text(b.len()).as_str());
                push_str(&mut t, " bytes>");
                Some(t)
            },
            Value::Block(b) => {
                let mut t = to_owned_string(b.block_type.as_str());
                let mut i: usize = 0;
                while i < b.labels.len()
                    invariant
                        i <= b.labels@.len(),
                        t@ == b.block_type@ + labels_text(view_strings(b.labels@).take(i as int)),
                    decreases b.labels@.len() - i,
                {
                    push_str(&mut t, " \"");
                    push_str(&mut t, b.labels[i].as_str());
                    push_str(&mut t, "\"");
                    proof {
                        let l = view_strings(b.labels@);
                        assert(l.take(i as int + 1).drop_last() =~= l.take(i as int));
                        assert(l.take(i as int + 1).last() == b.labels@[i as int]@);
                    }
                    i = i + 1;
                }
                proof {
                    assert(view_strings(b.labels@).take(b.labels@.len() as int) =~= view_strings(b.labels@));
                }
                push_str(&mut t, " { ... }");
                Some(t)
            },
            _ => None,
        }
    }
}

} // verus!
