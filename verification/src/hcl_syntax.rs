//! The HCL syntax tree a parser gives, and the values it stands for.
//! Attributes become map entries; every block type becomes a list of
//! blocks; an expression the value model has no variant for becomes an
//! expression node: a map whose `__expr` entry names its kind.
use vstd::prelude::*;
use crate::text::{copy_strings, chars_of, string_from_range, join_spec, join_with, push_str, split_by, split_by_spec, strings_view, to_owned_string, trim, trim_spec};
use crate::value::{law_insert_then_get, lemma_view_variant, Block, Val, Value, clone_value, entries_insert, insert_all, obj_get, obj_insert, view_entries, view_strings, view_value, view_values, find_entry};

verus! {

/// An HCL expression.
#[derive(Debug)]
pub enum HclExpr {
    /// Null, a boolean, a number or a string, as a value.
    Literal(Value),
    Array(Vec<HclExpr>),
    /// An object: its keys as written, with their expressions.
    Object(Vec<(String, HclExpr)>),
    Variable(String),
    /// An expression followed by traversal operators.
    Traversal(Box<HclExpr>, Vec<HclOperator>),
    /// A function call: namespace, name and arguments.
    FuncCall(Vec<String>, String, Vec<HclExpr>),
    /// Condition, value when true, value when false.
    Conditional(Box<HclExpr>, Box<HclExpr>, Box<HclExpr>),
    /// A binary operation's operands.
    Binary(Box<HclExpr>, Box<HclExpr>),
    /// A unary operation's operand.
    Unary(Box<HclExpr>),
    /// A `for` expression: value variable, key variable, collection.
    For(String, Option<String>, Box<HclExpr>),
    /// A template, by the text of the attribute `_t = <template>`.
    Template(String),
    /// Anything else: the text of the attribute `_v = <expression>` where
    /// it could be written, and its debug text.
    Other(Option<String>, String),
}

/// A traversal operator.
#[derive(Debug)]
pub enum HclOperator {
    GetAttr(String),
    Index(HclExpr),
    AttrSplat,
    FullSplat,
    Unknown,
}

/// A body item: an attribute, or a block with its type, labels and body.
#[derive(Debug)]
pub enum HclStructure {
    Attribute(String, HclExpr),
    Block(String, Vec<String>, Vec<HclStructure>),
}

// ── Texts ──────────────────────────────────────────────────────────

/// How many characters `c` the text starts with.
pub open spec fn char_prefix(s: Seq<char>, c: char) -> nat
    decreases s.len(),
{
    if s.len() == 0 || s[0] != c {
        0
    } else {
        1 + char_prefix(s.drop_first(), c)
    }
}

/// How many characters `c` the text ends with.
pub open spec fn char_suffix(s: Seq<char>, c: char) -> nat
    decreases s.len(),
{
    if s.len() == 0 || s.last() != c {
        0
    } else {
        1 + char_suffix(s.drop_last(), c)
    }
}

/// The text without the characters `c` at either end.
pub open spec fn strip_char(s: Seq<char>, c: char) -> Seq<char> {
    let a = char_prefix(s, c);
    if a >= s.len() {
        Seq::empty()
    } else {
        s.subrange(a as int, s.len() - char_suffix(s, c))
    }
}

/// What follows the first ` = ` of an attribute's text, up to the next.
pub open spec fn assigned_text(s: Seq<char>) -> Option<Seq<char>> {
    let pieces = split_by_spec(s, " = "@);
    if pieces.len() >= 2 {
        Some(pieces[1])
    } else {
        None
    }
}

/// The text of a template: what its attribute assigns, trimmed and
/// without quotes at either end; empty when there is nothing assigned.
pub open spec fn template_text(rendered: Seq<char>) -> Seq<char> {
    match assigned_text(rendered) {
        Some(t) => strip_char(trim_spec(t), '"'),
        None => Seq::empty(),
    }
}

/// The text of another expression: what its attribute assigns, trimmed,
/// or its debug text.
pub open spec fn raw_text(rendered: Option<Seq<char>>, debug: Seq<char>) -> Seq<char> {
    match rendered {
        Some(r) => match assigned_text(r) {
            Some(t) => trim_spec(t),
            None => debug,
        },
        None => debug,
    }
}

/// A function's full name: its namespace and name joined by `::`.
pub open spec fn full_name(ns: Seq<Seq<char>>, name: Seq<char>) -> Seq<char> {
    if ns.len() == 0 {
        name
    } else {
        join_spec(ns, "::"@) + "::"@ + name
    }
}

// ── Values ─────────────────────────────────────────────────────────

/// An expression node of kind `kind` with further entries.
pub open spec fn node(kind: Seq<char>, rest: Seq<(Seq<char>, Val)>) -> Val {
    Val::Object(seq![("__expr"@, Val::Str(kind))] + rest)
}

/// The value an expression stands for.
pub open spec fn expr_val(e: HclExpr) -> Val
    decreases e,
{
    match e {
        HclExpr::Literal(v) => v@,
        HclExpr::Array(a) => Val::Array(expr_vals(a@)),
        HclExpr::Object(m) => Val::Object(insert_all(Seq::empty(), object_pairs(m@), m@.len() as int)),
        HclExpr::Variable(n) => node("variable"@, seq![("name"@, Val::Str(n@))]),
        HclExpr::Traversal(root, ops) => node("traversal"@, seq![
            ("root"@, expr_val(*root)),
            ("operators"@, Val::Array(op_vals(ops@))),
        ]),
        HclExpr::FuncCall(ns, name, args) => node("func_call"@, seq![
            ("name"@, Val::Str(full_name(view_strings(ns@), name@))),
            ("args"@, Val::Array(expr_vals(args@))),
        ]),
        HclExpr::Conditional(c, t, f) => node("conditional"@, seq![
            ("condition"@, expr_val(*c)),
            ("true_val"@, expr_val(*t)),
            ("false_val"@, expr_val(*f)),
        ]),
        HclExpr::Binary(l, r) => node("binary_op"@, seq![("lhs"@, expr_val(*l)), ("rhs"@, expr_val(*r))]),
        HclExpr::Unary(x) => node("unary_op"@, seq![("expr"@, expr_val(*x))]),
        HclExpr::For(value_var, key_var, coll) => node("for_expr"@, seq![
            ("value_var"@, Val::Str(value_var@)),
            ("collection"@, expr_val(*coll)),
        ] + match key_var {
            Some(k) => seq![("key_var"@, Val::Str(k@))],
            None => Seq::empty(),
        }),
        HclExpr::Template(rendered) => node("template"@, seq![("template"@, Val::Str(template_text(rendered@)))]),
        HclExpr::Other(rendered, debug) => node("other"@, seq![("raw"@, Val::Str(raw_text(
            match rendered {
                Some(r) => Some(r@),
                None => None,
            },
            debug@,
        )))]),
    }
}

/// The values of a list of expressions.
pub open spec fn expr_vals(a: Seq<HclExpr>) -> Seq<Val>
    decreases a,
{
    Seq::new(a.len(), |i: int| if 0 <= i < a.len() { expr_val(a[i]) } else { Val::Null })
}

/// The values of a list of traversal operators.
pub open spec fn op_vals(a: Seq<HclOperator>) -> Seq<Val>
    decreases a,
{
    Seq::new(a.len(), |i: int| if 0 <= i < a.len() { op_val(a[i]) } else { Val::Null })
}

/// The keys of an object with the values of their expressions.
pub open spec fn object_pairs(m: Seq<(String, HclExpr)>) -> Seq<(Seq<char>, Val)>
    decreases m,
{
    Seq::new(m.len(), |i: int| if 0 <= i < m.len() { (m[i].0@, expr_val(m[i].1)) } else { (Seq::empty(), Val::Null) })
}

/// The value a traversal operator stands for.
pub open spec fn op_val(op: HclOperator) -> Val
    decreases op,
{
    match op {
        HclOperator::GetAttr(n) => Val::Object(seq![("type"@, Val::Str("get_attr"@)), ("name"@, Val::Str(n@))]),
        HclOperator::Index(e) => Val::Object(seq![("type"@, Val::Str("index"@)), ("expr"@, expr_val(e))]),
        HclOperator::AttrSplat => Val::Object(seq![("type"@, Val::Str("attr_splat"@))]),
        HclOperator::FullSplat => Val::Object(seq![("type"@, Val::Str("full_splat"@))]),
        HclOperator::Unknown => Val::Object(seq![("type"@, Val::Str("unknown_op"@))]),
    }
}

/// A block added to a body's entries under its type: appended to the
/// list of blocks already there, paired with any other value there, or
/// as a new list of one.
pub open spec fn add_block(acc: Seq<(Seq<char>, Val)>, t: Seq<char>, b: Val) -> Seq<(Seq<char>, Val)> {
    match obj_get(acc, t) {
        Some(Val::Array(a)) => obj_insert(acc, t, Val::Array(a.push(b))),
        Some(other) => obj_insert(acc, t, Val::Array(seq![other, b])),
        None => obj_insert(acc, t, Val::Array(seq![b])),
    }
}

/// The entries of the first `n` items of a body.
pub open spec fn body_entries(items: Seq<HclStructure>, n: int) -> Seq<(Seq<char>, Val)>
    decreases items, n,
{
    if n <= 0 || n > items.len() {
        Seq::empty()
    } else {
        let acc = body_entries(items, n - 1);
        match items[n - 1] {
            HclStructure::Attribute(k, e) => obj_insert(acc, k@, expr_val(e)),
            HclStructure::Block(t, labels, inner) => add_block(
                acc,
                t@,
                Val::Block(t@, view_strings(labels@), body_entries(inner@, inner@.len() as int)),
            ),
        }
    }
}


// ── Computing the texts ────────────────────────────────────────────

proof fn lemma_char_prefix(s: Seq<char>, c: char, a: int)
    requires
        0 <= a <= s.len(),
        forall|k: int| 0 <= k < a ==> s[k] == c,
        a == s.len() || s[a] != c,
    ensures
        char_prefix(s, c) == a,
    decreases s.len(),
{
    if a > 0 {
        assert forall|k: int| 0 <= k < a - 1 implies s.drop_first()[k] == c by {
            assert(s.drop_first()[k] == s[k + 1]);
        }
        if a < s.len() {
            assert(s.drop_first()[a - 1] == s[a]);
        }
        lemma_char_prefix(s.drop_first(), c, a - 1);
    }
}

proof fn lemma_char_suffix(s: Seq<char>, c: char, b: int)
    requires
        0 <= b <= s.len(),
        forall|k: int| s.len() - b <= k < s.len() ==> s[k] == c,
        b == s.len() || s[s.len() - b - 1] != c,
    ensures
        char_suffix(s, c) == b,
    decreases s.len(),
{
    if b > 0 {
        let t = s.drop_last();
        assert forall|k: int| t.len() - (b - 1) <= k < t.len() implies t[k] == c by {
            assert(t[k] == s[k]);
        }
        if b < s.len() {
            assert(t[t.len() - (b - 1) - 1] == s[s.len() - b - 1]);
        }
        lemma_char_suffix(t, c, b - 1);
    }
}

/// `s` without the characters `c` at either end.
pub fn strip_char_of(s: &str, c: char) -> (r: String)
    ensures
        r@ == strip_char(s@, c),
{
    let cs = chars_of(s);
    let n = cs.len();
    let mut a: usize = 0;
    while a < n && cs[a] == c
        invariant
            n == cs@.len(),
            a <= n,
            forall|k: int| 0 <= k < a ==> cs@[k] == c,
        decreases n - a,
    {
        a = a + 1;
    }
    proof {
        lemma_char_prefix(cs@, c, a as int);
    }
    if a >= n {
        return String::new();
    }
    let mut b: usize = 0;
    while b < n && cs[n - 1 - b] == c
        invariant
            n == cs@.len(),
            b <= n,
            forall|k: int| n - b <= k < n ==> cs@[k] == c,
        decreases n - b,
    {
        b = b + 1;
    }
    proof {
        lemma_char_suffix(cs@, c, b as int);
    }
    string_from_range(cs.as_slice(), a, n - b)
}

fn assigned_text_of(s: &str) -> (r: Option<String>)
    ensures
        match r {
            Some(t) => assigned_text(s@) == Some(t@),
            None => assigned_text(s@) is None,
        },
{
    let pieces = split_by(s, " = ");
    if pieces.len() >= 2 {
        Some(to_owned_string(pieces[1].as_str()))
    } else {
        None
    }
}

/// The text of a template expression (see [`template_text`]).
pub fn template_text_of(rendered: &str) -> (r: String)
    ensures
        r@ == template_text(rendered@),
{
    match assigned_text_of(rendered) {
        Some(t) => strip_char_of(trim(t.as_str()), '"'),
        None => String::new(),
    }
}

/// The text of another expression (see [`raw_text`]).
pub fn raw_text_of(rendered: &Option<String>, debug: &str) -> (r: String)
    ensures
        r@ == raw_text(match rendered { Some(x) => Some(x@), None => None }, debug@),
{
    match rendered {
        Some(x) => match assigned_text_of(x.as_str()) {
            Some(t) => to_owned_string(trim(t.as_str())),
            None => to_owned_string(debug),
        },
        None => to_owned_string(debug),
    }
}

fn full_name_of(ns: &Vec<String>, name: &str) -> (r: String)
    ensures
        r@ == full_name(view_strings(ns@), name@),
{
    if ns.len() == 0 {
        to_owned_string(name)
    } else {
        let mut r = join_with(ns, "::");
        assert(strings_view(ns@) == view_strings(ns@));
        push_str(&mut r, "::");
        push_str(&mut r, name);
        r
    }
}


// ── Computing the values ───────────────────────────────────────────

/// An expression node of kind `kind` followed by `rest`.
fn node_value(kind: &str, rest: Vec<(String, Value)>) -> (r: Value)
    ensures
        r@ == node(kind@, view_entries(rest@)),
{
    let mut m: Vec<(String, Value)> = vec![(to_owned_string("__expr"), Value::string(kind))];
    let ghost head = m@;
    let mut rest = rest;
    let ghost tail = rest@;
    m.append(&mut rest);
    assert(m@ == head + tail);
    assert(view_entries(m@) =~= seq![("__expr"@, Val::Str(kind@))] + view_entries(tail));
    Value::map(m)
}

fn exprs_value(a: &Vec<HclExpr>) -> (r: Vec<Value>)
    ensures
        view_values(r@) == expr_vals(a@),
    decreases a,
{
    let mut r: Vec<Value> = Vec::new();
    let mut i: usize = 0;
    while i < a.len()
        invariant
            i <= a@.len(),
            view_values(r@) == Seq::new(i as nat, |k: int| expr_val(a@[k])),
        decreases a@.len() - i,
    {
        proof {
            assert(decreases_to!(a => a@[i as int]));
        }
        let x = expr_value(&a[i]);
        let ghost before = view_values(r@);
        r.push(x);
        assert(view_values(r@) =~= before.push(expr_val(a@[i as int])));
        assert(Seq::new((i + 1) as nat, |k: int| expr_val(a@[k])) =~= Seq::new(i as nat, |k: int| expr_val(a@[k])).push(expr_val(a@[i as int])));
        i = i + 1;
    }
    assert(expr_vals(a@) =~= Seq::new(a@.len() as nat, |k: int| expr_val(a@[k])));
    r
}

fn ops_value(a: &Vec<HclOperator>) -> (r: Vec<Value>)
    ensures
        view_values(r@) == op_vals(a@),
    decreases a,
{
    let mut r: Vec<Value> = Vec::new();
    let mut i: usize = 0;
    while i < a.len()
        invariant
            i <= a@.len(),
            view_values(r@) == Seq::new(i as nat, |k: int| op_val(a@[k])),
        decreases a@.len() - i,
    {
        proof {
            assert(decreases_to!(a => a@[i as int]));
        }
        let x = op_value(&a[i]);
        let ghost before = view_values(r@);
        r.push(x);
        assert(view_values(r@) =~= before.push(op_val(a@[i as int])));
        assert(Seq::new((i + 1) as nat, |k: int| op_val(a@[k])) =~= Seq::new(i as nat, |k: int| op_val(a@[k])).push(op_val(a@[i as int])));
        i = i + 1;
    }
    assert(op_vals(a@) =~= Seq::new(a@.len() as nat, |k: int| op_val(a@[k])));
    r
}

fn object_value(m: &Vec<(String, HclExpr)>) -> (r: Value)
    ensures
        r@ == Val::Object(insert_all(Seq::empty(), object_pairs(m@), m@.len() as int)),
    decreases m,
{
    let ghost p = object_pairs(m@);
    let mut r: Vec<(String, Value)> = Vec::new();
    assert(view_entries(r@) =~= Seq::<(Seq<char>, Val)>::empty());
    let mut i: usize = 0;
    while i < m.len()
        invariant
            i <= m@.len(),
            p == object_pairs(m@),
            view_entries(r@) == insert_all(Seq::empty(), p, i as int),
        decreases m@.len() - i,
    {
        proof {
            assert(decreases_to!(m => m@[i as int]));
            assert(decreases_to!(m@[i as int] => m@[i as int].1));
        }
        let x = expr_value(&m[i].1);
        entries_insert(&mut r, to_owned_string(m[i].0.as_str()), x);
        i = i + 1;
    }
    Value::map(r)
}

/// The value of a traversal operator (see [`op_val`]).
pub fn op_value(op: &HclOperator) -> (r: Value)
    ensures
        r@ == op_val(*op),
    decreases op,
{
    let entries: Vec<(String, Value)> = match op {
        HclOperator::GetAttr(n) => vec![(to_owned_string("type"), Value::string("get_attr")), (to_owned_string("name"), Value::string(n.as_str()))],
        HclOperator::Index(e) => {
            proof {
                assert(decreases_to!(op => e));
            }
            vec![(to_owned_string("type"), Value::string("index")), (to_owned_string("expr"), expr_value(e))]
        },
        HclOperator::AttrSplat => vec![(to_owned_string("type"), Value::string("attr_splat"))],
        HclOperator::FullSplat => vec![(to_owned_string("type"), Value::string("full_splat"))],
        HclOperator::Unknown => vec![(to_owned_string("type"), Value::string("unknown_op"))],
    };
    let r = Value::map(entries);
    assert(view_entries(entries@) =~= match op_val(*op) {
        Val::Object(e) => e,
        _ => Seq::empty(),
    });
    r
}

/// The value an expression stands for (see [`expr_val`]).
pub fn expr_value(e: &HclExpr) -> (r: Value)
    ensures
        r@ == expr_val(*e),
    decreases e,
{
    match e {
        HclExpr::Literal(v) => {
            let x = clone_value(v);
            assert(expr_val(*e) == view_value(*v));
            x
        },
        HclExpr::Array(a) => {
            proof {
                assert(decreases_to!(e => a));
            }
            let vs = exprs_value(a);
            Value::array(vs)
        },
        HclExpr::Object(m) => {
            proof {
                assert(decreases_to!(e => m));
            }
            object_value(m)
        },
        HclExpr::Variable(n) => {
            let rest = vec![(to_owned_string("name"), Value::string(n.as_str()))];
            assert(view_entries(rest@) =~= seq![("name"@, Val::Str(n@))]);
            node_value("variable", rest)
        },
        HclExpr::Traversal(root, ops) => {
            proof {
                assert(decreases_to!(e => root));
                assert(decreases_to!(e => ops));
            }
            let rv = expr_value(root);
            let ov = ops_value(ops);
            let ghost ovv = view_values(ov@);
            let rest = vec![(to_owned_string("root"), rv), (to_owned_string("operators"), Value::array(ov))];
            assert(view_entries(rest@) =~= seq![("root"@, expr_val(**root)), ("operators"@, Val::Array(ovv))]);
            node_value("traversal", rest)
        },
        HclExpr::FuncCall(ns, name, args) => {
            proof {
                assert(decreases_to!(e => args));
            }
            let av = exprs_value(args);
            let ghost avv = view_values(av@);
            let fname = full_name_of(ns, name.as_str());
            let rest = vec![(to_owned_string("name"), Value::string(fname.as_str())), (to_owned_string("args"), Value::array(av))];
            assert(view_entries(rest@) =~= seq![("name"@, Val::Str(fname@)), ("args"@, Val::Array(avv))]);
            node_value("func_call", rest)
        },
        HclExpr::Conditional(c, t, f) => {
            proof {
                assert(decreases_to!(e => c));
                assert(decreases_to!(e => t));
                assert(decreases_to!(e => f));
            }
            let rest = vec![
                (to_owned_string("condition"), expr_value(c)),
                (to_owned_string("true_val"), expr_value(t)),
                (to_owned_string("false_val"), expr_value(f)),
            ];
            assert(view_entries(rest@) =~= seq![("condition"@, expr_val(**c)), ("true_val"@, expr_val(**t)), ("false_val"@, expr_val(**f))]);
            node_value("conditional", rest)
        },
        HclExpr::Binary(l, r) => {
            proof {
                assert(decreases_to!(e => l));
                assert(decreases_to!(e => r));
            }
            let rest = vec![(to_owned_string("lhs"), expr_value(l)), (to_owned_string("rhs"), expr_value(r))];
            assert(view_entries(rest@) =~= seq![("lhs"@, expr_val(**l)), ("rhs"@, expr_val(**r))]);
            node_value("binary_op", rest)
        },
        HclExpr::Unary(x) => {
            proof {
                assert(decreases_to!(e => x));
            }
            let rest = vec![(to_owned_string("expr"), expr_value(x))];
            assert(view_entries(rest@) =~= seq![("expr"@, expr_val(**x))]);
            node_value("unary_op", rest)
        },
        HclExpr::For(value_var, key_var, coll) => {
            proof {
                assert(decreases_to!(e => coll));
            }
            let mut rest = vec![(to_owned_string("value_var"), Value::string(value_var.as_str())), (to_owned_string("collection"), expr_value(coll))];
            let ghost head = view_entries(rest@);
            assert(head =~= seq![("value_var"@, Val::Str(value_var@)), ("collection"@, expr_val(**coll))]);
            match key_var {
                Some(k) => {
                    rest.push((to_owned_string("key_var"), Value::string(k.as_str())));
                    assert(view_entries(rest@) =~= head + seq![("key_var"@, Val::Str(k@))]);
                },
                None => {
                    assert(view_entries(rest@) =~= head + Seq::<(Seq<char>, Val)>::empty());
                },
            }
            node_value("for_expr", rest)
        },
        HclExpr::Template(rendered) => {
            let t = template_text_of(rendered.as_str());
            let rest = vec![(to_owned_string("template"), Value::string(t.as_str()))];
            assert(view_entries(rest@) =~= seq![("template"@, Val::Str(t@))]);
            node_value("template", rest)
        },
        HclExpr::Other(rendered, debug) => {
            let t = raw_text_of(rendered, debug.as_str());
            let rest = vec![(to_owned_string("raw"), Value::string(t.as_str()))];
            assert(view_entries(rest@) =~= seq![("raw"@, Val::Str(t@))]);
            node_value("other", rest)
        },
    }
}


// ── Bodies ─────────────────────────────────────────────────────────

fn add_block_value(acc: &mut Vec<(String, Value)>, t: &str, b: Value)
    ensures
        view_entries(final(acc)@) == add_block(view_entries(old(acc)@), t@, b@),
{
    let ghost bv = b@;
    let ghost before = view_entries(acc@);
    let new_value = match find_entry(acc, t) {
        Some(i) => {
            proof {
                lemma_view_variant(acc@[i as int].1);
            }
            assert(before[i as int] == (acc@[i as int].0@, acc@[i as int].1@));
            let existing = clone_value(&acc[i].1);
            proof {
                lemma_view_variant(existing);
            }
            match existing {
                Value::Array(a) => {
                    let mut a = a;
                    let ghost av = view_values(a@);
                    a.push(b);
                    assert(view_values(a@) =~= av.push(bv));
                    Value::Array(a)
                },
                other => {
                    let ghost ov = other@;
                    let v = vec![other, b];
                    assert(view_values(v@) =~= seq![ov, bv]);
                    Value::Array(v)
                },
            }
        },
        None => {
            let v = vec![b];
            assert(view_values(v@) =~= seq![bv]);
            Value::Array(v)
        },
    };
    entries_insert(acc, to_owned_string(t), new_value);
}

/// The entries of a body: each attribute under its name, each block in
/// the list of blocks of its type (see [`body_entries`]).
pub fn body_value(items: &Vec<HclStructure>) -> (r: Vec<(String, Value)>)
    ensures
        view_entries(r@) == body_entries(items@, items@.len() as int),
    decreases items,
{
    let mut acc: Vec<(String, Value)> = Vec::new();
    assert(view_entries(acc@) =~= Seq::<(Seq<char>, Val)>::empty());
    let mut i: usize = 0;
    while i < items.len()
        invariant
            i <= items@.len(),
            view_entries(acc@) == body_entries(items@, i as int),
        decreases items@.len() - i,
    {
        match &items[i] {
            HclStructure::Attribute(k, e) => {
                let v = expr_value(e);
                entries_insert(&mut acc, to_owned_string(k.as_str()), v);
            },
            HclStructure::Block(t, labels, inner) => {
                proof {
                    assert(decreases_to!(items => items@[i as int]));
                    assert(decreases_to!(items@[i as int] => inner));
                }
                let body = body_value(inner);
                let ls = copy_strings(labels);
                assert(view_strings(ls@) =~= view_strings(labels@));
                let bv = Value::Block(Block { block_type: to_owned_string(t.as_str()), labels: ls, body });
                add_block_value(&mut acc, t.as_str(), bv);
            },
        }
        i = i + 1;
    }
    acc
}

/// The value of a parsed body: a map of its entries.
pub fn body_map(items: &Vec<HclStructure>) -> (r: Value)
    ensures
        r@ == Val::Object(body_entries(items@, items@.len() as int)),
{
    Value::map(body_value(items))
}


// ── Writing values as HCL ──────────────────────────────────────────

/// The literal a scalar value is written as: datetimes as strings, bytes
/// as they are (their encoding is the writer's); none for the rest.
pub open spec fn literal_for(v: Val) -> Option<Val> {
    match v {
        Val::Null => Some(Val::Null),
        Val::Bool(b) => Some(Val::Bool(b)),
        Val::Int(n) => Some(Val::Int(n)),
        Val::Float(b, t) => Some(Val::Float(b, t)),
        Val::Str(s) => Some(Val::Str(s)),
        Val::Datetime(s) => Some(Val::Str(s)),
        Val::Bytes(b) => Some(Val::Bytes(b)),
        _ => None,
    }
}

/// `e` is how the value `v` is written as an expression: scalars as
/// literals, arrays element by element, maps and block bodies as objects.
pub open spec fn writes_value(e: HclExpr, v: Val) -> bool
    decreases e,
{
    match e {
        HclExpr::Literal(x) => literal_for(v) == Some(x@),
        HclExpr::Array(es) => match v {
            Val::Array(a) => es@.len() == a.len() && forall|i: int| 0 <= i < a.len() ==> writes_value(#[trigger] es@[i], a[i]),
            _ => false,
        },
        HclExpr::Object(kv) => match v {
            Val::Object(m) => kv@.len() == m.len() && forall|i: int| 0 <= i < m.len() ==>
                (#[trigger] kv@[i]).0@ == m[i].0 && writes_value(kv@[i].1, m[i].1),
            Val::Block(_, _, m) => kv@.len() == m.len() && forall|i: int| 0 <= i < m.len() ==>
                (#[trigger] kv@[i]).0@ == m[i].0 && writes_value(kv@[i].1, m[i].1),
            _ => false,
        },
        _ => false,
    }
}

/// `s` is the attribute `k` = `v`.
pub open spec fn writes_attribute(s: HclStructure, k: Seq<char>, v: Val) -> bool {
    match s {
        HclStructure::Attribute(k2, e) => k2@ == k && writes_value(e, v),
        _ => false,
    }
}

/// Every element is a block.
pub open spec fn all_blocks(a: Seq<Val>) -> bool {
    forall|i: int| 0 <= i < a.len() ==> #[trigger] a[i] is Block
}

/// How many body items an entry's value becomes: a list of blocks one
/// per block, anything else one.
pub open spec fn item_count(v: Val) -> nat {
    match v {
        Val::Array(a) => if all_blocks(a) { a.len() } else { 1 },
        _ => 1,
    }
}

/// `items` is how the entries `m` are written as a body, entry by entry.
pub open spec fn writes_entries(items: Seq<HclStructure>, m: Seq<(Seq<char>, Val)>) -> bool
    decreases m, 2int,
{
    if m.len() == 0 {
        items.len() == 0
    } else {
        let c = item_count(m.last().1);
        let cut = items.len() - c;
        &&& items.len() >= c
        &&& writes_entries(items.take(cut), m.drop_last())
        &&& writes_entry(items.skip(cut), m.last().0, m.last().1)
    }
}

/// `items` is how the entry `k` = `v` is written: a block per block of a
/// list of blocks, a block for a block, an attribute for anything else.
pub open spec fn writes_entry(items: Seq<HclStructure>, k: Seq<char>, v: Val) -> bool
    decreases v, 1int,
{
    match v {
        Val::Array(a) => if all_blocks(a) {
            items.len() == a.len() && forall|i: int| 0 <= i < a.len() ==> writes_block(#[trigger] items[i], k, a[i])
        } else {
            items.len() == 1 && writes_attribute(items[0], k, v)
        },
        Val::Block(_, _, _) => items.len() == 1 && writes_block(items[0], k, v),
        _ => items.len() == 1 && writes_attribute(items[0], k, v),
    }
}

/// `s` is how the block `b` is written under the type `k`.
pub open spec fn writes_block(s: HclStructure, k: Seq<char>, b: Val) -> bool
    decreases b, 0int,
{
    match b {
        Val::Block(_, labels, body) => match s {
            HclStructure::Block(t, ls, inner) => t@ == k && view_strings(ls@) == labels && writes_entries(inner@, body),
            _ => false,
        },
        _ => false,
    }
}


fn values_exprs(a: &Vec<Value>) -> (r: Vec<HclExpr>)
    ensures
        r@.len() == a@.len(),
        forall|i: int| 0 <= i < a@.len() ==> writes_value(#[trigger] r@[i], a@[i]@),
    decreases a,
{
    let mut r: Vec<HclExpr> = Vec::new();
    let mut i: usize = 0;
    while i < a.len()
        invariant
            i <= a@.len(),
            r@.len() == i,
            forall|j: int| 0 <= j < i ==> writes_value(#[trigger] r@[j], a@[j]@),
        decreases a@.len() - i,
    {
        proof {
            assert(decreases_to!(a => a@[i as int]));
        }
        let e = value_expr(&a[i]);
        r.push(e);
        i = i + 1;
    }
    r
}

fn entries_exprs(m: &Vec<(String, Value)>) -> (r: Vec<(String, HclExpr)>)
    ensures
        r@.len() == m@.len(),
        forall|i: int| 0 <= i < m@.len() ==> (#[trigger] r@[i]).0@ == m@[i].0@ && writes_value(r@[i].1, m@[i].1@),
    decreases m,
{
    let mut r: Vec<(String, HclExpr)> = Vec::new();
    let mut i: usize = 0;
    while i < m.len()
        invariant
            i <= m@.len(),
            r@.len() == i,
            forall|j: int| 0 <= j < i ==> (#[trigger] r@[j]).0@ == m@[j].0@ && writes_value(r@[j].1, m@[j].1@),
        decreases m@.len() - i,
    {
        proof {
            assert(decreases_to!(m => m@[i as int]));
            assert(decreases_to!(m@[i as int] => m@[i as int].1));
        }
        let e = value_expr(&m[i].1);
        r.push((to_owned_string(m[i].0.as_str()), e));
        i = i + 1;
    }
    r
}

/// The expression a value is written as (see [`writes_value`]).
pub fn value_expr(v: &Value) -> (e: HclExpr)
    ensures
        writes_value(e, v@),
    decreases v,
{
    match v {
        Value::Datetime(s) => HclExpr::Literal(Value::String(to_owned_string(s.as_str()))),
        Value::Array(a) => {
            proof {
                assert(decreases_to!(v => a));
            }
            let es = values_exprs(a);
            proof {
                assert forall|i: int| 0 <= i < view_values(a@).len() implies writes_value(#[trigger] es@[i], view_values(a@)[i]) by {
                    assert(view_values(a@)[i] == a@[i]@);
                }
            }
            HclExpr::Array(es)
        },
        Value::Object(m) => {
            proof {
                assert(decreases_to!(v => m));
            }
            let kv = entries_exprs(m);
            proof {
                assert forall|i: int| 0 <= i < view_entries(m@).len() implies (#[trigger] kv@[i]).0@ == view_entries(m@)[i].0
                    && writes_value(kv@[i].1, view_entries(m@)[i].1) by {
                    assert(view_entries(m@)[i] == (m@[i].0@, m@[i].1@));
                }
            }
            HclExpr::Object(kv)
        },
        Value::Block(b) => {
            proof {
                assert(decreases_to!(v => b));
                assert(decreases_to!(b => b.body));
            }
            let kv = entries_exprs(&b.body);
            proof {
                assert forall|i: int| 0 <= i < view_entries(b.body@).len() implies (#[trigger] kv@[i]).0@ == view_entries(b.body@)[i].0
                    && writes_value(kv@[i].1, view_entries(b.body@)[i].1) by {
                    assert(view_entries(b.body@)[i] == (b.body@[i].0@, b.body@[i].1@));
                }
            }
            HclExpr::Object(kv)
        },
        _ => HclExpr::Literal(clone_value(v)),
    }
}

proof fn lemma_entry_count(items: Seq<HclStructure>, k: Seq<char>, v: Val)
    requires
        writes_entry(items, k, v),
    ensures
        items.len() == item_count(v),
{
}

proof fn lemma_writes_entries_push(r: Seq<HclStructure>, it: Seq<HclStructure>, ms: Seq<(Seq<char>, Val)>, k: Seq<char>, v: Val)
    requires
        writes_entries(r, ms),
        writes_entry(it, k, v),
    ensures
        writes_entries(r + it, ms.push((k, v))),
{
    lemma_entry_count(it, k, v);
    let m2 = ms.push((k, v));
    assert(m2.drop_last() =~= ms);
    assert(m2.last() == (k, v));
    let all = r + it;
    assert(all.take(r.len() as int) =~= r);
    assert(all.skip(r.len() as int) =~= it);
}

fn all_blocks_in(a: &Vec<Value>) -> (r: bool)
    ensures
        r == all_blocks(view_values(a@)),
{
    let mut i: usize = 0;
    while i < a.len()
        invariant
            i <= a@.len(),
            forall|j: int| 0 <= j < i ==> #[trigger] view_values(a@)[j] is Block,
        decreases a@.len() - i,
    {
        proof {
            lemma_view_variant(a@[i as int]);
            assert(view_values(a@)[i as int] == a@[i as int]@);
        }
        if !a[i].is_block() {
            return false;
        }
        i = i + 1;
    }
    true
}

fn block_item(k: &str, b: &Block) -> (s: HclStructure)
    ensures
        writes_block(s, k@, b@),
    decreases b,
{
    proof {
        assert(decreases_to!(b => b.body));
    }
    let ls = copy_strings(&b.labels);
    assert(view_strings(ls@) =~= view_strings(b.labels@));
    HclStructure::Block(to_owned_string(k), ls, entries_items(&b.body))
}

fn entry_items(k: &str, v: &Value) -> (r: Vec<HclStructure>)
    ensures
        writes_entry(r@, k@, v@),
    decreases v,
{
    proof {
        lemma_view_variant(*v);
    }
    match v {
        Value::Array(a) => {
            if all_blocks_in(a) {
                let mut r: Vec<HclStructure> = Vec::new();
                let mut i: usize = 0;
                proof {
                    assert(decreases_to!(v => a));
                }
                while i < a.len()
                    invariant
                        decreases_to!(v => a),
                        i <= a@.len(),
                        all_blocks(view_values(a@)),
                        r@.len() == i,
                        forall|j: int| 0 <= j < i ==> writes_block(#[trigger] r@[j], k@, view_values(a@)[j]),
                    decreases a@.len() - i,
                {
                    assert(view_values(a@)[i as int] == a@[i as int]@);
                    assert(view_values(a@)[i as int] is Block);
                    proof {
                        lemma_view_variant(a@[i as int]);
                    }
                    match &a[i] {
                        Value::Block(b) => {
                            proof {
                                assert(decreases_to!(a => a@[i as int]));
                                assert(decreases_to!(a@[i as int] => b));
                            }
                            let s = block_item(k, b);
                            r.push(s);
                        },
                        _ => {
                            assert(false);
                        },
                    }
                    i = i + 1;
                }
                r
            } else {
                let e = value_expr(v);
                vec![HclStructure::Attribute(to_owned_string(k), e)]
            }
        },
        Value::Block(b) => {
            proof {
                assert(decreases_to!(v => b));
            }
            let s = block_item(k, b);
            vec![s]
        },
        _ => {
            let e = value_expr(v);
            vec![HclStructure::Attribute(to_owned_string(k), e)]
        },
    }
}

fn entries_items(m: &Vec<(String, Value)>) -> (r: Vec<HclStructure>)
    ensures
        writes_entries(r@, view_entries(m@)),
    decreases m,
{
    let ghost mv = view_entries(m@);
    let mut r: Vec<HclStructure> = Vec::new();
    let mut i: usize = 0;
    assert(mv.take(0) =~= Seq::<(Seq<char>, Val)>::empty());
    while i < m.len()
        invariant
            i <= m@.len(),
            mv == view_entries(m@),
            writes_entries(r@, mv.take(i as int)),
        decreases m@.len() - i,
    {
        proof {
            assert(decreases_to!(m => m@[i as int]));
            assert(decreases_to!(m@[i as int] => m@[i as int].1));
        }
        let mut it = entry_items(m[i].0.as_str(), &m[i].1);
        let ghost before = r@;
        let ghost items = it@;
        r.append(&mut it);
        proof {
            assert(mv[i as int] == (m@[i as int].0@, m@[i as int].1@));
            lemma_writes_entries_push(before, items, mv.take(i as int), m@[i as int].0@, m@[i as int].1@);
            assert(mv.take(i as int).push(mv[i as int]) =~= mv.take(i as int + 1));
        }
        i = i + 1;
    }
    assert(mv.take(m@.len() as int) =~= mv);
    r
}

/// The body a value is written as: the entries of a map or a block, or
/// the attribute `value` for anything else.
pub fn body_items(v: &Value) -> (r: Vec<HclStructure>)
    ensures
        match v@ {
            Val::Object(m) => writes_entries(r@, m),
            Val::Block(_, _, m) => writes_entries(r@, m),
            _ => r@.len() == 1 && writes_attribute(r@[0], "value"@, v@),
        },
{
    proof {
        lemma_view_variant(*v);
    }
    match v {
        Value::Object(m) => entries_items(m),
        Value::Block(b) => entries_items(&b.body),
        _ => {
            let e = value_expr(v);
            vec![HclStructure::Attribute(to_owned_string("value"), e)]
        },
    }
}


// ── Laws ───────────────────────────────────────────────────────────

/// No attribute of the first `n` items is named `t`.
pub open spec fn no_attribute_named(items: Seq<HclStructure>, t: Seq<char>, n: int) -> bool {
    forall|i: int| 0 <= i < n ==> !(#[trigger] items[i] matches HclStructure::Attribute(k, _) && k@ == t)
}

/// Every block type lands as a list of blocks: where no attribute shares
/// its name, a block type's entry is a list holding only blocks.
pub proof fn law_blocks_form_lists(items: Seq<HclStructure>, t: Seq<char>, n: int)
    requires
        0 <= n <= items.len(),
        no_attribute_named(items, t, n),
    ensures
        match obj_get(body_entries(items, n), t) {
            Some(Val::Array(a)) => all_blocks(a),
            Some(_) => false,
            None => true,
        },
    decreases n,
{
    if n > 0 {
        law_blocks_form_lists(items, t, n - 1);
        let acc = body_entries(items, n - 1);
        match items[n - 1] {
            HclStructure::Attribute(k, e) => {
                assert(k@ != t);
                law_insert_then_get(acc, k@, expr_val(e), t);
            },
            HclStructure::Block(ty, labels, inner) => {
                let b = Val::Block(ty@, view_strings(labels@), body_entries(inner@, inner@.len() as int));
                let nv = match obj_get(acc, ty@) {
                    Some(Val::Array(a)) => Val::Array(a.push(b)),
                    Some(other) => Val::Array(seq![other, b]),
                    None => Val::Array(seq![b]),
                };
                assert(add_block(acc, ty@, b) == obj_insert(acc, ty@, nv));
                law_insert_then_get(acc, ty@, nv, t);
                if ty@ == t {
                    match obj_get(acc, t) {
                        Some(Val::Array(a)) => {
                            assert forall|i: int| 0 <= i < a.push(b).len() implies #[trigger] a.push(b)[i] is Block by {
                                if i < a.len() {
                                    assert(a.push(b)[i] == a[i]);
                                }
                            }
                        },
                        _ => {
                            assert(seq![b][0] is Block);
                        },
                    }
                }
            },
        }
    }
}

} // verus!
