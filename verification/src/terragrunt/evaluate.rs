//! Evaluation of the expression nodes of a parsed configuration. An
//! expression node is a map with an `__expr` key; a function call,
//! template, variable or attribute traversal is written back as an HCL
//! assignment `_v = ...` and handed to an evaluator, whose value takes
//! the node's place. A node that cannot be written, or that the evaluator
//! does not evaluate, stays as it is; everything else keeps its shape.
use vstd::prelude::*;
use crate::formats::{expression_func_name, is_hcl_expression};
use crate::text::{i64_text, int_text, join_spec, join_with, push_str, str_eq, strings_view, to_owned_string};
use crate::value::{Block, Val, Value, clone_value, find_entry, obj_find, obj_has, opt_as_str, val_get, view_entries, view_strings, view_value, view_values};

verus! {

/// How a function-call argument is written: strings quoted, numbers and
/// booleans as they are, anything else as `null`.
pub open spec fn arg_text(a: Val) -> Seq<char> {
    match a {
        Val::Str(s) => "\""@ + s + "\""@,
        Val::Int(n) => int_text(n as int),
        Val::Float(_, t) => t,
        Val::Bool(b) => if b { "true"@ } else { "false"@ },
        _ => "null"@,
    }
}

/// The assignment of a call of `name` on arguments that evaluated to `args`.
pub open spec fn call_text(name: Seq<char>, args: Seq<Val>) -> Seq<char> {
    "_v = "@ + name + "("@ + join_spec(Seq::new(args.len(), |i: int| arg_text(args[i])), ", "@) + ")"@
}

/// The traversal of `root` through the operators: attribute accesses
/// only, each with a name.
pub open spec fn traversal_path(root: Seq<char>, ops: Seq<Val>) -> Option<Seq<char>>
    decreases ops.len(),
{
    if ops.len() == 0 {
        Some(root)
    } else {
        match traversal_path(root, ops.drop_last()) {
            Some(t) => if opt_as_str(val_get(ops.last(), "type"@)) == Some("get_attr"@) {
                match opt_as_str(val_get(ops.last(), "name"@)) {
                    Some(n) => Some(t + "."@ + n),
                    None => None,
                }
            } else {
                None
            },
            None => None,
        }
    }
}

/// The assignment a template, variable or traversal node is written as.
pub open spec fn plain_text(v: Val) -> Option<Seq<char>> {
    let kind = opt_as_str(val_get(v, "__expr"@));
    if kind == Some("template"@) {
        match opt_as_str(val_get(v, "template"@)) {
            Some(t) => Some("_v = \""@ + t + "\""@),
            None => None,
        }
    } else if kind == Some("variable"@) {
        match opt_as_str(val_get(v, "name"@)) {
            Some(n) => Some("_v = "@ + n),
            None => None,
        }
    } else if kind == Some("traversal"@) {
        match (val_get(v, "root"@), val_get(v, "operators"@)) {
            (Some(r), Some(Val::Array(ops))) => match opt_as_str(val_get(r, "name"@)) {
                Some(n) => match traversal_path(n, ops) {
                    Some(t) => Some("_v = "@ + t),
                    None => None,
                },
                None => None,
            },
            _ => None,
        }
    } else {
        None
    }
}

/// The name a function-call node calls.
pub open spec fn call_name(v: Val) -> Option<Seq<char>> {
    if opt_as_str(val_get(v, "__expr"@)) == Some("func_call"@) {
        opt_as_str(val_get(v, "name"@))
    } else {
        None
    }
}

/// `r` is what the evaluator can give for the assignment `text`, or `v`
/// itself where it gives nothing.
pub open spec fn outcome<F: Fn(&str) -> Option<Value>>(f: F, text: Seq<char>, v: Value, r: Value) -> bool {
    exists|s: &str, o: Option<Value>|
        s@ == text && #[trigger] call_ensures(f, (s,), o) && r@ == match o {
            Some(x) => x@,
            None => v@,
        }
}

/// `r` is `v` with its expression nodes evaluated by `f`: a function
/// call once its arguments are evaluated, a template, variable or
/// traversal directly; other nodes, and what `f` leaves, unchanged.
pub open spec fn evaluated<F: Fn(&str) -> Option<Value>>(f: F, v: Value, r: Value) -> bool
    decreases v,
{
    match v {
        Value::Object(m) => if obj_has(view_entries(m@), "__expr"@) {
            match call_name(v@) {
                Some(name) => {
                    let k = obj_find(view_entries(m@), "args"@);
                    if 0 <= k < m@.len() {
                        match m@[k].1 {
                            Value::Array(a) => exists|rs: Seq<Value>|
                                rs.len() == a@.len()
                                    && (forall|i: int| 0 <= i < a@.len() ==> evaluated(f, #[trigger] a@[i], rs[i]))
                                    && outcome(f, call_text(name, view_values(rs)), v, r),
                            _ => r@ == v@,
                        }
                    } else {
                        r@ == v@
                    }
                },
                None => match plain_text(v@) {
                    Some(t) => outcome(f, t, v, r),
                    None => r@ == v@,
                },
            }
        } else {
            match r {
                Value::Object(n) => n@.len() == m@.len() && forall|i: int| 0 <= i < m@.len() ==> {
                    &&& n@[i].0@ == (#[trigger] m@[i]).0@
                    &&& evaluated(f, m@[i].1, n@[i].1)
                },
                _ => false,
            }
        },
        Value::Array(a) => match r {
            Value::Array(b) => b@.len() == a@.len() && forall|i: int| 0 <= i < a@.len() ==> evaluated(f, #[trigger] a@[i], b@[i]),
            _ => false,
        },
        Value::Block(bl) => match r {
            Value::Block(b2) => b2.block_type@ == bl.block_type@ && view_strings(b2.labels@) == view_strings(bl.labels@)
                && b2.body@.len() == bl.body@.len() && forall|i: int| 0 <= i < bl.body@.len() ==> {
                    &&& b2.body@[i].0@ == (#[trigger] bl.body@[i]).0@
                    &&& evaluated(f, bl.body@[i].1, b2.body@[i].1)
                },
            _ => false,
        },
        _ => r@ == v@,
    }
}

fn arg_text_of(a: &Value) -> (s: String)
    ensures
        s@ == arg_text(a@),
{
    proof {
        reveal_strlit("\"");
        reveal_strlit("true");
        reveal_strlit("false");
        reveal_strlit("null");
    }
    match a {
        Value::String(t) => {
            let mut s = to_owned_string("\"");
            push_str(&mut s, t.as_str());
            push_str(&mut s, "\"");
            s
        },
        Value::Int(n) => i64_text(*n),
        Value::Float(f) => to_owned_string(f.text.as_str()),
        Value::Bool(b) => if *b {
            to_owned_string("true")
        } else {
            to_owned_string("false")
        },
        _ => to_owned_string("null"),
    }
}

fn call_text_of(name: &str, args: &Vec<Value>) -> (s: String)
    ensures
        s@ == call_text(name@, view_values(args@)),
{
    let ghost av = view_values(args@);
    let mut texts: Vec<String> = Vec::new();
    let mut i: usize = 0;
    while i < args.len()
        invariant
            i <= args@.len(),
            av == view_values(args@),
            strings_view(texts@) == Seq::new(i as nat, |k: int| arg_text(av[k])),
        decreases args@.len() - i,
    {
        let ghost before = strings_view(texts@);
        texts.push(arg_text_of(&args[i]));
        assert(strings_view(texts@) =~= before.push(arg_text(av[i as int])));
        assert(Seq::new((i + 1) as nat, |k: int| arg_text(av[k])) =~= Seq::new(i as nat, |k: int| arg_text(av[k])).push(arg_text(av[i as int])));
        i = i + 1;
    }
    let joined = join_with(&texts, ", ");
    let mut s = to_owned_string("_v = ");
    push_str(&mut s, name);
    push_str(&mut s, "(");
    push_str(&mut s, joined.as_str());
    push_str(&mut s, ")");
    assert(Seq::new(av.len(), |k: int| arg_text(av[k])) =~= Seq::new(args@.len() as nat, |k: int| arg_text(av[k])));
    s
}

fn traversal_text_of(root: &str, ops: &Vec<Value>) -> (r: Option<String>)
    ensures
        match r {
            Some(t) => traversal_path(root@, view_values(ops@)) == Some(t@),
            None => traversal_path(root@, view_values(ops@)) is None,
        },
{
    let ghost ov = view_values(ops@);
    let mut text = to_owned_string(root);
    let mut i: usize = 0;
    while i < ops.len()
        invariant
            i <= ops@.len(),
            ov == view_values(ops@),
            traversal_path(root@, ov.take(i as int)) == Some(text@),
        decreases ops@.len() - i,
    {
        assert(ov.take(i as int + 1).drop_last() =~= ov.take(i as int));
        assert(ov.take(i as int + 1).last() == ops@[i as int]@);
        let op = &ops[i];
        let is_attr = match op.get("type") {
            Some(t) => match t.as_str() {
                Some(k) => str_eq(k, "get_attr"),
                None => false,
            },
            None => false,
        };
        if !is_attr {
            proof {
                lemma_traversal_fails(root@, ov, i as int + 1);
            }
            return None;
        }
        let name = match op.get("name") {
            Some(n) => n.as_str(),
            None => None,
        };
        match name {
            Some(n) => {
                push_str(&mut text, ".");
                push_str(&mut text, n);
            },
            None => {
                proof {
                    lemma_traversal_fails(root@, ov, i as int + 1);
                }
                return None;
            },
        }
        i = i + 1;
    }
    assert(ov.take(ops@.len() as int) =~= ov);
    Some(text)
}

proof fn lemma_traversal_fails(root: Seq<char>, ops: Seq<Val>, k: int)
    requires
        0 <= k <= ops.len(),
        traversal_path(root, ops.take(k)) is None,
    ensures
        traversal_path(root, ops) is None,
    decreases ops.len() - k,
{
    if k < ops.len() {
        assert(ops.take(k + 1).drop_last() =~= ops.take(k));
        lemma_traversal_fails(root, ops, k + 1);
    } else {
        assert(ops.take(k) =~= ops);
    }
}

fn str_at<'a>(v: &'a Value, key: &str) -> (r: Option<&'a str>)
    ensures
        match r {
            Some(t) => opt_as_str(val_get(v@, key@)) == Some(t@),
            None => opt_as_str(val_get(v@, key@)) is None,
        },
{
    match v.get(key) {
        Some(x) => x.as_str(),
        None => None,
    }
}

fn plain_text_of(v: &Value) -> (r: Option<String>)
    ensures
        match r {
            Some(t) => plain_text(v@) == Some(t@),
            None => plain_text(v@) is None,
        },
{
    let kind = match str_at(v, "__expr") {
        Some(k) => k,
        None => return None,
    };
    if str_eq(kind, "template") {
        match str_at(v, "template") {
            Some(t) => {
                let mut s = to_owned_string("_v = \"");
                push_str(&mut s, t);
                push_str(&mut s, "\"");
                Some(s)
            },
            None => None,
        }
    } else if str_eq(kind, "variable") {
        match str_at(v, "name") {
            Some(n) => {
                let mut s = to_owned_string("_v = ");
                push_str(&mut s, n);
                Some(s)
            },
            None => None,
        }
    } else if str_eq(kind, "traversal") {
        let root = match v.get("root") {
            Some(r) => r,
            None => return None,
        };
        let ops = match v.get("operators") {
            Some(o) => match o {
                Value::Array(a) => a,
                _ => return None,
            },
            None => return None,
        };
        let name = match str_at(root, "name") {
            Some(n) => n,
            None => return None,
        };
        match traversal_text_of(name, ops) {
            Some(t) => {
                let mut s = to_owned_string("_v = ");
                push_str(&mut s, t.as_str());
                Some(s)
            },
            None => None,
        }
    } else {
        None
    }
}

fn evaluate_values<F: Fn(&str) -> Option<Value>>(a: &Vec<Value>, f: &F) -> (r: Vec<Value>)
    requires
        forall|s: &str| f.requires((s,)),
    ensures
        r@.len() == a@.len(),
        forall|i: int| 0 <= i < a@.len() ==> evaluated(*f, #[trigger] a@[i], r@[i]),
    decreases a,
{
    let mut r: Vec<Value> = Vec::new();
    let mut i: usize = 0;
    while i < a.len()
        invariant
            forall|s: &str| f.requires((s,)),
            i <= a@.len(),
            r@.len() == i,
            forall|j: int| 0 <= j < i ==> evaluated(*f, #[trigger] a@[j], r@[j]),
        decreases a@.len() - i,
    {
        proof {
            assert(decreases_to!(a => a@[i as int]));
        }
        let x = evaluate_expressions(&a[i], f);
        r.push(x);
        i = i + 1;
    }
    r
}

fn evaluate_entries<F: Fn(&str) -> Option<Value>>(m: &Vec<(String, Value)>, f: &F) -> (r: Vec<(String, Value)>)
    requires
        forall|s: &str| f.requires((s,)),
    ensures
        r@.len() == m@.len(),
        forall|i: int| 0 <= i < m@.len() ==> {
            &&& r@[i].0@ == (#[trigger] m@[i]).0@
            &&& evaluated(*f, m@[i].1, r@[i].1)
        },
    decreases m,
{
    let mut r: Vec<(String, Value)> = Vec::new();
    let mut i: usize = 0;
    while i < m.len()
        invariant
            forall|s: &str| f.requires((s,)),
            i <= m@.len(),
            r@.len() == i,
            forall|j: int| 0 <= j < i ==> {
                &&& r@[j].0@ == (#[trigger] m@[j]).0@
                &&& evaluated(*f, m@[j].1, r@[j].1)
            },
        decreases m@.len() - i,
    {
        proof {
            assert(decreases_to!(m => m@[i as int]));
            assert(decreases_to!(m@[i as int] => m@[i as int].1));
        }
        let x = evaluate_expressions(&m[i].1, f);
        r.push((to_owned_string(m[i].0.as_str()), x));
        i = i + 1;
    }
    r
}

fn labels_copy(l: &Vec<String>) -> (r: Vec<String>)
    ensures
        view_strings(r@) == view_strings(l@),
{
    let mut r: Vec<String> = Vec::new();
    let mut i: usize = 0;
    while i < l.len()
        invariant
            i <= l@.len(),
            view_strings(r@) == view_strings(l@).take(i as int),
        decreases l@.len() - i,
    {
        let ghost before = view_strings(r@);
        r.push(to_owned_string(l[i].as_str()));
        assert(view_strings(r@) =~= before.push(l@[i as int]@));
        assert(view_strings(l@).take(i + 1) =~= view_strings(l@).take(i as int).push(l@[i as int]@));
        i = i + 1;
    }
    assert(view_strings(l@).take(l@.len() as int) =~= view_strings(l@));
    r
}

/// Hands `text` to the evaluator: its value, or a copy of `v` where it
/// gives none.
fn evaluate_text<F: Fn(&str) -> Option<Value>>(v: &Value, text: &String, f: &F) -> (r: Value)
    requires
        forall|s: &str| f.requires((s,)),
    ensures
        outcome(*f, text@, *v, r),
{
    let t = text.as_str();
    let o = f(t);
    let ghost og = o;
    let r = match o {
        Some(x) => x,
        None => clone_value(v),
    };
    assert(call_ensures(*f, (t,), og) && t@ == text@);
    r
}

/// `value` with its expression nodes evaluated by `f`, which takes the
/// assignment `_v = <expression>` and gives the value of `_v`, or
/// nothing where it cannot evaluate it. The arguments of a function
/// call are evaluated first and written into the call.
pub fn evaluate_expressions<F: Fn(&str) -> Option<Value>>(value: &Value, f: &F) -> (r: Value)
    requires
        forall|s: &str| f.requires((s,)),
    ensures
        evaluated(*f, *value, r),
    decreases value,
{
    match value {
        Value::Object(m) => {
            if is_hcl_expression(value) {
                match expression_func_name(value) {
                    Some(name) => match find_entry(m, "args") {
                        Some(k) => match &m[k].1 {
                            Value::Array(a) => {
                                proof {
                                    assert(decreases_to!(value => m));
                                    assert(decreases_to!(m => m@[k as int]));
                                    assert(decreases_to!(m@[k as int] => m@[k as int].1));
                                    assert(decreases_to!(m@[k as int].1 => a));
                                }
                                let rs = evaluate_values(a, f);
                                let text = call_text_of(name, &rs);
                                evaluate_text(value, &text, f)
                            },
                            _ => clone_value(value),
                        },
                        None => clone_value(value),
                    },
                    None => match plain_text_of(value) {
                        Some(text) => evaluate_text(value, &text, f),
                        None => clone_value(value),
                    },
                }
            } else {
                proof {
                    assert(decreases_to!(value => m));
                }
                Value::Object(evaluate_entries(m, f))
            }
        },
        Value::Array(a) => {
            proof {
                assert(decreases_to!(value => a));
            }
            Value::Array(evaluate_values(a, f))
        },
        Value::Block(b) => {
            proof {
                assert(decreases_to!(value => b));
                assert(decreases_to!(b => b.body));
            }
            let labels = labels_copy(&b.labels);
            Value::Block(Block { block_type: to_owned_string(b.block_type.as_str()), labels, body: evaluate_entries(&b.body, f) })
        },
        _ => clone_value(value),
    }
}

/// `v` holds no expression node.
pub open spec fn expression_free(v: Value) -> bool
    decreases v,
{
    match v {
        Value::Object(m) => !obj_has(view_entries(m@), "__expr"@)
            && forall|i: int| 0 <= i < m@.len() ==> expression_free(#[trigger] m@[i].1),
        Value::Array(a) => forall|i: int| 0 <= i < a@.len() ==> expression_free(#[trigger] a@[i]),
        Value::Block(b) => forall|i: int| 0 <= i < b.body@.len() ==> expression_free(#[trigger] b.body@[i].1),
        _ => true,
    }
}

/// A value that holds no expression node comes out of evaluation as it
/// went in, whatever the evaluator would give.
pub proof fn law_expression_free_unchanged<F: Fn(&str) -> Option<Value>>(f: F, v: Value, r: Value)
    requires
        expression_free(v),
        evaluated(f, v, r),
    ensures
        r@ == v@,
    decreases v,
{
    match v {
        Value::Object(m) => match r {
            Value::Object(n) => {
                assert forall|i: int| 0 <= i < m@.len() implies view_value(#[trigger] n@[i].1) == view_value(m@[i].1) by {
                    assert(decreases_to!(v => m));
                    assert(decreases_to!(m => m@[i]));
                    assert(decreases_to!(m@[i] => m@[i].1));
                    assert(expression_free(m@[i].1));
                    law_expression_free_unchanged(f, m@[i].1, n@[i].1);
                }
                assert(view_entries(n@) =~= view_entries(m@));
            },
            _ => {},
        },
        Value::Array(a) => match r {
            Value::Array(b) => {
                assert forall|i: int| 0 <= i < a@.len() implies view_value(#[trigger] b@[i]) == view_value(a@[i]) by {
                    assert(decreases_to!(v => a));
                    assert(decreases_to!(a => a@[i]));
                    law_expression_free_unchanged(f, a@[i], b@[i]);
                }
                assert(view_values(b@) =~= view_values(a@));
            },
            _ => {},
        },
        Value::Block(bl) => match r {
            Value::Block(b2) => {
                assert forall|i: int| 0 <= i < bl.body@.len() implies view_value(#[trigger] b2.body@[i].1) == view_value(bl.body@[i].1) by {
                    assert(decreases_to!(v => bl));
                    assert(decreases_to!(bl => bl.body));
                    assert(decreases_to!(bl.body => bl.body@[i]));
                    assert(decreases_to!(bl.body@[i] => bl.body@[i].1));
                    assert(expression_free(bl.body@[i].1));
                    law_expression_free_unchanged(f, bl.body@[i].1, b2.body@[i].1);
                }
                assert(view_entries(b2.body@) =~= view_entries(bl.body@));
            },
            _ => {},
        },
        _ => {},
    }
}

} // verus!
