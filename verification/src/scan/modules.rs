//! Reusable Terraform modules: the resources, variables and outputs their
//! parsed `.tf` files declare, and the record each module is reported as.
use vstd::prelude::*;
use crate::text::{str_eq, strings_view, to_owned_string};
use crate::value::{Value, Val, view_values, view_entries};
use crate::verify_mermaid::{pair_add, pair_insert, pairs_view};
use crate::viz::groups::name_insert;

verus! {

/// One reusable Terraform module: its cloud directory, its name, its
/// path, and the sorted distinct resources (type, name), variables and
/// outputs its files declare.
#[derive(Debug)]
pub struct TerraformModule {
    pub cloud: String,
    pub name: String,
    pub path: String,
    pub resources: Vec<(String, String)>,
    pub variables: Vec<String>,
    pub outputs: Vec<String>,
}

/// The blocks an entry of a parsed file holds: the elements of a list, or
/// a block alone.
pub open spec fn entry_blocks(v: Val) -> Seq<Val> {
    match v {
        Val::Array(a) => a,
        Val::Block(t, l, b) => seq![Val::Block(t, l, b)],
        _ => Seq::empty(),
    }
}

/// The resource (type, name) a block declares, when it has two labels.
pub open spec fn block_pair(b: Val) -> Seq<(Seq<char>, Seq<char>)> {
    match b {
        Val::Block(_, l, _) => if l.len() >= 2 { seq![(l[0], l[1])] } else { Seq::empty() },
        _ => Seq::empty(),
    }
}

/// The name a block declares, when it has a label.
pub open spec fn block_name(b: Val) -> Seq<Seq<char>> {
    match b {
        Val::Block(_, l, _) => if l.len() >= 1 { seq![l[0]] } else { Seq::empty() },
        _ => Seq::empty(),
    }
}

/// The resources the first `n` blocks of `bs` declare.
pub open spec fn resource_labels(bs: Seq<Val>, n: int) -> Seq<(Seq<char>, Seq<char>)>
    decreases n,
{
    if n <= 0 || n > bs.len() {
        Seq::empty()
    } else {
        resource_labels(bs, n - 1) + block_pair(bs[n - 1])
    }
}

/// The names the first `n` blocks of `bs` declare.
pub open spec fn first_labels(bs: Seq<Val>, n: int) -> Seq<Seq<char>>
    decreases n,
{
    if n <= 0 || n > bs.len() {
        Seq::empty()
    } else {
        first_labels(bs, n - 1) + block_name(bs[n - 1])
    }
}

/// The resources declared by the first `n` entries of a parsed file.
pub open spec fn entries_resources(m: Seq<(Seq<char>, Val)>, n: int) -> Seq<(Seq<char>, Seq<char>)>
    decreases n,
{
    if n <= 0 || n > m.len() {
        Seq::empty()
    } else {
        entries_resources(m, n - 1) + if m[n - 1].0 == "resource"@ {
            resource_labels(entry_blocks(m[n - 1].1), entry_blocks(m[n - 1].1).len() as int)
        } else {
            Seq::empty()
        }
    }
}

/// The names of the blocks of type `kind` among the first `n` entries of
/// a parsed file.
pub open spec fn entries_names(m: Seq<(Seq<char>, Val)>, kind: Seq<char>, n: int) -> Seq<Seq<char>>
    decreases n,
{
    if n <= 0 || n > m.len() {
        Seq::empty()
    } else {
        entries_names(m, kind, n - 1) + if m[n - 1].0 == kind {
            first_labels(entry_blocks(m[n - 1].1), entry_blocks(m[n - 1].1).len() as int)
        } else {
            Seq::empty()
        }
    }
}

/// The resources a parsed file declares (none unless it is a map).
pub open spec fn file_resources(v: Val) -> Seq<(Seq<char>, Seq<char>)> {
    match v {
        Val::Object(m) => entries_resources(m, m.len() as int),
        _ => Seq::empty(),
    }
}

/// The names of the blocks of type `kind` a parsed file declares.
pub open spec fn file_names(v: Val, kind: Seq<char>) -> Seq<Seq<char>> {
    match v {
        Val::Object(m) => entries_names(m, kind, m.len() as int),
        _ => Seq::empty(),
    }
}

/// The first `n` pairs added one by one to a sorted set of pairs.
pub open spec fn pairs_added(s: Seq<(Seq<char>, Seq<char>)>, p: Seq<(Seq<char>, Seq<char>)>, n: int) -> Seq<(Seq<char>, Seq<char>)>
    decreases n,
{
    if n <= 0 || n > p.len() {
        s
    } else {
        pair_add(pairs_added(s, p, n - 1), p[n - 1])
    }
}

/// The first `n` names added one by one to a sorted name set.
pub open spec fn names_added(s: Seq<Seq<char>>, p: Seq<Seq<char>>, n: int) -> Seq<Seq<char>>
    decreases n,
{
    if n <= 0 || n > p.len() {
        s
    } else {
        crate::viz::groups::name_add(names_added(s, p, n - 1), p[n - 1])
    }
}

/// The sorted distinct resources of the first `n` files.
pub open spec fn module_resources(files: Seq<Val>, n: int) -> Seq<(Seq<char>, Seq<char>)>
    decreases n,
{
    if n <= 0 || n > files.len() {
        Seq::empty()
    } else {
        let r = file_resources(files[n - 1]);
        pairs_added(module_resources(files, n - 1), r, r.len() as int)
    }
}

/// The sorted distinct names of blocks of type `kind` of the first `n`
/// files.
pub open spec fn module_names(files: Seq<Val>, kind: Seq<char>, n: int) -> Seq<Seq<char>>
    decreases n,
{
    if n <= 0 || n > files.len() {
        Seq::empty()
    } else {
        let r = file_names(files[n - 1], kind);
        names_added(module_names(files, kind, n - 1), r, r.len() as int)
    }
}

fn add_block_labels(b: &Value, is_resource: bool, resources: &mut Vec<(String, String)>, names: &mut Vec<String>)
    ensures
        is_resource ==> pairs_view(final(resources)@) == pairs_added(pairs_view(old(resources)@), block_pair(b@), block_pair(b@).len() as int),
        is_resource ==> strings_view(final(names)@) == strings_view(old(names)@),
        !is_resource ==> strings_view(final(names)@) == names_added(strings_view(old(names)@), block_name(b@), block_name(b@).len() as int),
        !is_resource ==> pairs_view(final(resources)@) == pairs_view(old(resources)@),
{
    let ghost r0 = pairs_view(resources@);
    let ghost n0 = strings_view(names@);
    assert(pairs_added(r0, block_pair(b@), 0) == r0);
    assert(names_added(n0, block_name(b@), 0) == n0);
    match b {
        Value::Block(blk) => {
            let ghost lv = crate::value::view_strings(blk.labels@);
            if is_resource {
                if blk.labels.len() >= 2 {
                    assert(lv[0] == blk.labels@[0]@ && lv[1] == blk.labels@[1]@);
                    pair_insert(resources, blk.labels[0].as_str(), blk.labels[1].as_str());
                }
            } else if blk.labels.len() >= 1 {
                assert(lv[0] == blk.labels@[0]@);
                name_insert(names, blk.labels[0].as_str());
            }
        },
        _ => {},
    }
}

proof fn lemma_pairs_added_concat(s: Seq<(Seq<char>, Seq<char>)>, a: Seq<(Seq<char>, Seq<char>)>, b: Seq<(Seq<char>, Seq<char>)>)
    ensures
        pairs_added(s, a + b, (a + b).len() as int) == pairs_added(pairs_added(s, a, a.len() as int), b, b.len() as int),
    decreases b.len(),
{
    if b.len() > 0 {
        lemma_pairs_added_concat(s, a, b.drop_last());
        assert((a + b).drop_last() =~= a + b.drop_last());
        lemma_pairs_added_prefix(s, a + b, (a + b).len() - 1);
        lemma_pairs_added_prefix(pairs_added(s, a, a.len() as int), b, b.len() - 1);
    }
}

proof fn lemma_pairs_added_prefix(s: Seq<(Seq<char>, Seq<char>)>, p: Seq<(Seq<char>, Seq<char>)>, n: int)
    requires
        0 <= n <= p.len(),
    ensures
        pairs_added(s, p, n) == pairs_added(s, p.take(n), n),
    decreases n,
{
    if n > 0 {
        lemma_pairs_added_prefix(s, p, n - 1);
        lemma_pairs_added_prefix(s, p.take(n), n - 1);
        assert(p.take(n).take(n - 1) =~= p.take(n - 1));
    }
}

proof fn lemma_names_added_concat(s: Seq<Seq<char>>, a: Seq<Seq<char>>, b: Seq<Seq<char>>)
    ensures
        names_added(s, a + b, (a + b).len() as int) == names_added(names_added(s, a, a.len() as int), b, b.len() as int),
    decreases b.len(),
{
    if b.len() > 0 {
        lemma_names_added_concat(s, a, b.drop_last());
        assert((a + b).drop_last() =~= a + b.drop_last());
        lemma_names_added_prefix(s, a + b, (a + b).len() - 1);
        lemma_names_added_prefix(names_added(s, a, a.len() as int), b, b.len() - 1);
    }
}

proof fn lemma_names_added_prefix(s: Seq<Seq<char>>, p: Seq<Seq<char>>, n: int)
    requires
        0 <= n <= p.len(),
    ensures
        names_added(s, p, n) == names_added(s, p.take(n), n),
    decreases n,
{
    if n > 0 {
        lemma_names_added_prefix(s, p, n - 1);
        lemma_names_added_prefix(s, p.take(n), n - 1);
        assert(p.take(n).take(n - 1) =~= p.take(n - 1));
    }
}

fn harvest_entry(kind: &str, inner: &Value, resources: &mut Vec<(String, String)>, names: &mut Vec<String>, is_resource: bool)
    ensures
        is_resource ==> pairs_view(final(resources)@) == pairs_added(pairs_view(old(resources)@), resource_labels(entry_blocks(inner@), entry_blocks(inner@).len() as int), resource_labels(entry_blocks(inner@), entry_blocks(inner@).len() as int).len() as int),
        is_resource ==> strings_view(final(names)@) == strings_view(old(names)@),
        !is_resource ==> strings_view(final(names)@) == names_added(strings_view(old(names)@), first_labels(entry_blocks(inner@), entry_blocks(inner@).len() as int), first_labels(entry_blocks(inner@), entry_blocks(inner@).len() as int).len() as int),
        !is_resource ==> pairs_view(final(resources)@) == pairs_view(old(resources)@),
{
    let ghost r0 = pairs_view(resources@);
    let ghost n0 = strings_view(names@);
    match inner {
        Value::Array(items) => {
            let ghost bv = view_values(items@);
            let mut i: usize = 0;
            while i < items.len()
                invariant
                    bv == view_values(items@),
                    i <= items@.len(),
                    is_resource ==> pairs_view(resources@) == pairs_added(r0, resource_labels(bv, i as int), resource_labels(bv, i as int).len() as int),
                    is_resource ==> strings_view(names@) == n0,
                    !is_resource ==> strings_view(names@) == names_added(n0, first_labels(bv, i as int), first_labels(bv, i as int).len() as int),
                    !is_resource ==> pairs_view(resources@) == r0,
                decreases items@.len() - i,
            {
                assert(bv[i as int] == items@[i as int]@);
                let ghost rl = resource_labels(bv, i as int);
                let ghost fl = first_labels(bv, i as int);
                add_block_labels(&items[i], is_resource, resources, names);
                proof {
                    assert(resource_labels(bv, i + 1) == rl + block_pair(bv[i as int]));
                    assert(first_labels(bv, i + 1) == fl + block_name(bv[i as int]));
                    lemma_pairs_added_concat(r0, rl, block_pair(bv[i as int]));
                    lemma_names_added_concat(n0, fl, block_name(bv[i as int]));
                }
                i = i + 1;
            }
        },
        Value::Block(_) => {
            add_block_labels(inner, is_resource, resources, names);
            assert(entry_blocks(inner@) =~= seq![inner@]);
            assert(seq![inner@][0] == inner@);
            assert(resource_labels(seq![inner@], 0) =~= Seq::<(Seq<char>, Seq<char>)>::empty());
            assert(first_labels(seq![inner@], 0) =~= Seq::<Seq<char>>::empty());
            assert(resource_labels(seq![inner@], 1) =~= block_pair(inner@));
            assert(first_labels(seq![inner@], 1) =~= block_name(inner@));
        },
        _ => {},
    }
}

fn harvest_file(v: &Value, resources: &mut Vec<(String, String)>, variables: &mut Vec<String>, outputs: &mut Vec<String>)
    ensures
        pairs_view(final(resources)@) == pairs_added(pairs_view(old(resources)@), file_resources(v@), file_resources(v@).len() as int),
        strings_view(final(variables)@) == names_added(strings_view(old(variables)@), file_names(v@, "variable"@), file_names(v@, "variable"@).len() as int),
        strings_view(final(outputs)@) == names_added(strings_view(old(outputs)@), file_names(v@, "output"@), file_names(v@, "output"@).len() as int),
{
    let ghost r0 = pairs_view(resources@);
    let ghost v0 = strings_view(variables@);
    let ghost o0 = strings_view(outputs@);
    match v {
        Value::Object(m) => {
            let ghost mv = view_entries(m@);
            let mut i: usize = 0;
            while i < m.len()
                invariant
                    mv == view_entries(m@),
                    i <= m@.len(),
                    pairs_view(resources@) == pairs_added(r0, entries_resources(mv, i as int), entries_resources(mv, i as int).len() as int),
                    strings_view(variables@) == names_added(v0, entries_names(mv, "variable"@, i as int), entries_names(mv, "variable"@, i as int).len() as int),
                    strings_view(outputs@) == names_added(o0, entries_names(mv, "output"@, i as int), entries_names(mv, "output"@, i as int).len() as int),
                decreases m@.len() - i,
            {
                assert(mv[i as int] == (m@[i as int].0@, m@[i as int].1@));
                let key = m[i].0.as_str();
                let inner = &m[i].1;
                let ghost er = entries_resources(mv, i as int);
                let ghost ev = entries_names(mv, "variable"@, i as int);
                let ghost eo = entries_names(mv, "output"@, i as int);
                let ghost bl = entry_blocks(inner@);
                proof {
                    reveal_strlit("resource");
                    reveal_strlit("variable");
                    reveal_strlit("output");
                    assert("resource"@[0] == 'r' && "variable"@[0] == 'v' && "output"@[0] == 'o');
                }
                if str_eq(key, "resource") {
                    let mut unused: Vec<String> = Vec::new();
                    harvest_entry(key, inner, resources, &mut unused, true);
                    proof {
                        lemma_pairs_added_concat(r0, er, resource_labels(bl, bl.len() as int));
                        assert(entries_names(mv, "variable"@, i + 1) =~= ev);
                        assert(entries_names(mv, "output"@, i + 1) =~= eo);
                    }
                } else if str_eq(key, "variable") {
                    let mut unused: Vec<(String, String)> = Vec::new();
                    harvest_entry(key, inner, &mut unused, variables, false);
                    proof {
                        lemma_names_added_concat(v0, ev, first_labels(bl, bl.len() as int));
                        assert(entries_resources(mv, i + 1) =~= er);
                        assert(entries_names(mv, "output"@, i + 1) =~= eo);
                    }
                } else if str_eq(key, "output") {
                    let mut unused: Vec<(String, String)> = Vec::new();
                    harvest_entry(key, inner, &mut unused, outputs, false);
                    proof {
                        lemma_names_added_concat(o0, eo, first_labels(bl, bl.len() as int));
                        assert(entries_resources(mv, i + 1) =~= er);
                        assert(entries_names(mv, "variable"@, i + 1) =~= ev);
                    }
                } else {
                    assert(entries_resources(mv, i + 1) =~= er);
                    assert(entries_names(mv, "variable"@, i + 1) =~= ev);
                    assert(entries_names(mv, "output"@, i + 1) =~= eo);
                }
                i = i + 1;
            }
        },
        _ => {},
    }
}

/// The record of one module from its parsed `.tf` files (those that did
/// not parse left out): its sorted distinct resources, variables and
/// outputs.
pub fn build_module(cloud: &str, name: &str, path: &str, files: &[Value]) -> (r: TerraformModule)
    ensures
        r.cloud@ == cloud@,
        r.name@ == name@,
        r.path@ == path@,
        pairs_view(r.resources@) == module_resources(view_values(files@), files@.len() as int),
        strings_view(r.variables@) == module_names(view_values(files@), "variable"@, files@.len() as int),
        strings_view(r.outputs@) == module_names(view_values(files@), "output"@, files@.len() as int),
{
    let ghost fv = view_values(files@);
    let mut resources: Vec<(String, String)> = Vec::new();
    let mut variables: Vec<String> = Vec::new();
    let mut outputs: Vec<String> = Vec::new();
    assert(pairs_view(resources@) =~= Seq::<(Seq<char>, Seq<char>)>::empty());
    assert(strings_view(variables@) =~= Seq::<Seq<char>>::empty());
    assert(strings_view(outputs@) =~= Seq::<Seq<char>>::empty());
    let mut i: usize = 0;
    while i < files.len()
        invariant
            fv == view_values(files@),
            i <= files@.len(),
            pairs_view(resources@) == module_resources(fv, i as int),
            strings_view(variables@) == module_names(fv, "variable"@, i as int),
            strings_view(outputs@) == module_names(fv, "output"@, i as int),
        decreases files@.len() - i,
    {
        assert(fv[i as int] == files@[i as int]@);
        harvest_file(&files[i], &mut resources, &mut variables, &mut outputs);
        i = i + 1;
    }
    TerraformModule {
        cloud: to_owned_string(cloud),
        name: to_owned_string(name),
        path: to_owned_string(path),
        resources,
        variables,
        outputs,
    }
}

/// Model of a list of strings as values.
pub open spec fn str_vals(s: Seq<Seq<char>>) -> Seq<Val> {
    Seq::new(s.len(), |i: int| Val::Str(s[i]))
}

/// The record of a resource: its type and name.
pub open spec fn resource_val(p: (Seq<char>, Seq<char>)) -> Val {
    Val::Object(seq![("type"@, Val::Str(p.0)), ("name"@, Val::Str(p.1))])
}

/// The record of a module.
pub open spec fn module_val(m: TerraformModule) -> Val {
    let rs = pairs_view(m.resources@);
    Val::Object(seq![
        ("cloud"@, Val::Str(m.cloud@)),
        ("name"@, Val::Str(m.name@)),
        ("path"@, Val::Str(m.path@)),
        ("resources"@, Val::Array(Seq::new(rs.len(), |i: int| resource_val(rs[i])))),
        ("variables"@, Val::Array(str_vals(strings_view(m.variables@)))),
        ("outputs"@, Val::Array(str_vals(strings_view(m.outputs@)))),
    ])
}

fn string_values(s: &Vec<String>) -> (r: Vec<Value>)
    ensures
        view_values(r@) == str_vals(strings_view(s@)),
{
    let mut r: Vec<Value> = Vec::new();
    let mut i: usize = 0;
    while i < s.len()
        invariant
            i <= s@.len(),
            view_values(r@) == str_vals(strings_view(s@)).take(i as int),
        decreases s@.len() - i,
    {
        let ghost before = view_values(r@);
        r.push(Value::string(s[i].as_str()));
        assert(view_values(r@) =~= before.push(Val::Str(s@[i as int]@)));
        assert(str_vals(strings_view(s@)).take(i + 1) =~= str_vals(strings_view(s@)).take(i as int).push(Val::Str(s@[i as int]@)));
        i = i + 1;
    }
    assert(str_vals(strings_view(s@)).take(s@.len() as int) =~= str_vals(strings_view(s@)));
    r
}

/// The record of a module: cloud, name, path, resources (type and name),
/// variables and outputs.
pub fn module_to_value(m: &TerraformModule) -> (r: Value)
    ensures
        r@ == module_val(*m),
{
    let ghost rs = pairs_view(m.resources@);
    let mut resources: Vec<Value> = Vec::new();
    let mut i: usize = 0;
    while i < m.resources.len()
        invariant
            rs == pairs_view(m.resources@),
            i <= m.resources@.len(),
            view_values(resources@) == Seq::new(i as nat, |k: int| resource_val(rs[k])),
        decreases m.resources@.len() - i,
    {
        let entry = vec![
            (to_owned_string("type"), Value::string(m.resources[i].0.as_str())),
            (to_owned_string("name"), Value::string(m.resources[i].1.as_str())),
        ];
        proof {
            reveal_strlit("type");
            reveal_strlit("name");
        }
        let rec = Value::map(entry);
        assert(rec@ == resource_val(rs[i as int])) by {
            assert(view_entries(entry@) =~= seq![("type"@, Val::Str(rs[i as int].0)), ("name"@, Val::Str(rs[i as int].1))]);
        }
        let ghost before = view_values(resources@);
        resources.push(rec);
        assert(view_values(resources@) =~= before.push(resource_val(rs[i as int])));
        assert(Seq::new((i + 1) as nat, |k: int| resource_val(rs[k])) =~= Seq::new(i as nat, |k: int| resource_val(rs[k])).push(resource_val(rs[i as int])));
        i = i + 1;
    }
    let entries = vec![
        (to_owned_string("cloud"), Value::string(m.cloud.as_str())),
        (to_owned_string("name"), Value::string(m.name.as_str())),
        (to_owned_string("path"), Value::string(m.path.as_str())),
        (to_owned_string("resources"), Value::array(resources)),
        (to_owned_string("variables"), Value::array(string_values(&m.variables))),
        (to_owned_string("outputs"), Value::array(string_values(&m.outputs))),
    ];
    let r = Value::map(entries);
    assert(view_entries(entries@) =~= match module_val(*m) { Val::Object(e) => e, _ => Seq::empty() });
    r
}

/// The records of a list of modules, as an array.
pub fn modules_to_value(modules: &[TerraformModule]) -> (r: Value)
    ensures
        r@ == Val::Array(Seq::new(modules@.len(), |i: int| module_val(modules@[i]))),
{
    let mut items: Vec<Value> = Vec::new();
    let mut i: usize = 0;
    while i < modules.len()
        invariant
            i <= modules@.len(),
            view_values(items@) == Seq::new(i as nat, |k: int| module_val(modules@[k])),
        decreases modules@.len() - i,
    {
        let ghost before = view_values(items@);
        let v = module_to_value(&modules[i]);
        items.push(v);
        assert(view_values(items@) =~= before.push(module_val(modules@[i as int])));
        assert(Seq::new((i + 1) as nat, |k: int| module_val(modules@[k])) =~= Seq::new(i as nat, |k: int| module_val(modules@[k])).push(module_val(modules@[i as int])));
        i = i + 1;
    }
    Value::array(items)
}

} // verus!
