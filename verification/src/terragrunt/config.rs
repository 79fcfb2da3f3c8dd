//! Typed blocks of a parsed `terragrunt.hcl`: terraform, remote_state,
//! include, dependency, dependencies, generate, locals and inputs.
use vstd::prelude::*;
use crate::error::Error;
use crate::text::{str_eq, strings_view, to_owned_string};
use crate::value::{Value, Val, val_get, opt_view, opt_as_str, opt_array_or_empty, opt_str_or_empty, strs_in, view_values, view_entries, clone_value, strings_of, array_or_empty, str_or_empty, opt_string};

verus! {

/// How an included configuration is merged into the including one.
#[derive(Debug, Clone, Copy, PartialEq, Eq, Structural)]
pub enum MergeStrategy {
    Shallow,
    Deep,
    NoMerge,
}

/// The `terraform` block: module source, extra arguments and hooks.
#[derive(Debug)]
pub struct TerraformBlock {
    pub source: Option<String>,
    pub extra_arguments: Vec<Value>,
    pub before_hooks: Vec<Value>,
    pub after_hooks: Vec<Value>,
    pub raw: Value,
}

/// The `remote_state` block: backend and its configuration.
#[derive(Debug)]
pub struct RemoteStateBlock {
    pub backend: String,
    pub config: Value,
    pub generate: Option<Value>,
    pub raw: Value,
}

/// An `include` block.
#[derive(Debug)]
pub struct IncludeBlock {
    pub label: String,
    pub path: String,
    pub expose: bool,
    pub merge_strategy: MergeStrategy,
    pub raw: Value,
}

/// A `dependency` block.
#[derive(Debug)]
pub struct DependencyBlock {
    pub label: String,
    pub config_path: String,
    pub enabled: bool,
    pub skip_outputs: bool,
    pub mock_outputs: Option<Value>,
    pub raw: Value,
}

/// A `generate` block.
#[derive(Debug)]
pub struct GenerateBlock {
    pub label: String,
    pub path: String,
    pub contents: String,
    pub if_exists: String,
    pub raw: Value,
}

/// A parsed Terragrunt configuration: the file's path, its whole parsed
/// body, and its blocks. Labeled blocks are kept by label in first-seen
/// order, a later block with the same label replacing the earlier one.
#[derive(Debug)]
pub struct TerragruntConfig {
    pub path: String,
    pub raw: Value,
    pub terraform: Option<TerraformBlock>,
    pub remote_state: Option<RemoteStateBlock>,
    pub includes: Vec<(String, IncludeBlock)>,
    pub dependencies: Vec<(String, DependencyBlock)>,
    pub dependency_paths: Vec<String>,
    pub generates: Vec<(String, GenerateBlock)>,
    pub locals: Vec<(String, Value)>,
    pub inputs: Vec<(String, Value)>,
}

// ── Models ─────────────────────────────────────────────────────────

/// Model of a `terraform` block.
pub struct TerraformView {
    pub source: Option<Seq<char>>,
    pub extra_arguments: Seq<Val>,
    pub before_hooks: Seq<Val>,
    pub after_hooks: Seq<Val>,
    pub raw: Val,
}

/// Model of a `remote_state` block.
pub struct RemoteStateView {
    pub backend: Seq<char>,
    pub config: Val,
    pub generate: Option<Val>,
    pub raw: Val,
}

/// Model of an `include` block.
pub struct IncludeView {
    pub label: Seq<char>,
    pub path: Seq<char>,
    pub expose: bool,
    pub merge_strategy: MergeStrategy,
    pub raw: Val,
}

/// Model of a `dependency` block.
pub struct DependencyView {
    pub label: Seq<char>,
    pub config_path: Seq<char>,
    pub enabled: bool,
    pub skip_outputs: bool,
    pub mock_outputs: Option<Val>,
    pub raw: Val,
}

/// Model of a `generate` block.
pub struct GenerateView {
    pub label: Seq<char>,
    pub path: Seq<char>,
    pub contents: Seq<char>,
    pub if_exists: Seq<char>,
    pub raw: Val,
}

/// Model of a configuration.
pub struct ConfigView {
    pub path: Seq<char>,
    pub raw: Val,
    pub terraform: Option<TerraformView>,
    pub remote_state: Option<RemoteStateView>,
    pub includes: Seq<(Seq<char>, IncludeView)>,
    pub dependencies: Seq<(Seq<char>, DependencyView)>,
    pub dependency_paths: Seq<Seq<char>>,
    pub generates: Seq<(Seq<char>, GenerateView)>,
    pub locals: Seq<(Seq<char>, Val)>,
    pub inputs: Seq<(Seq<char>, Val)>,
}

impl View for TerraformBlock {
    type V = TerraformView;

    open spec fn view(&self) -> TerraformView {
        TerraformView {
            source: match self.source { Some(s) => Some(s@), None => None },
            extra_arguments: view_values(self.extra_arguments@),
            before_hooks: view_values(self.before_hooks@),
            after_hooks: view_values(self.after_hooks@),
            raw: self.raw@,
        }
    }
}

impl View for RemoteStateBlock {
    type V = RemoteStateView;

    open spec fn view(&self) -> RemoteStateView {
        RemoteStateView {
            backend: self.backend@,
            config: self.config@,
            generate: match self.generate { Some(g) => Some(g@), None => None },
            raw: self.raw@,
        }
    }
}

impl View for IncludeBlock {
    type V = IncludeView;

    open spec fn view(&self) -> IncludeView {
        IncludeView { label: self.label@, path: self.path@, expose: self.expose, merge_strategy: self.merge_strategy, raw: self.raw@ }
    }
}

impl View for DependencyBlock {
    type V = DependencyView;

    open spec fn view(&self) -> DependencyView {
        DependencyView {
            label: self.label@,
            config_path: self.config_path@,
            enabled: self.enabled,
            skip_outputs: self.skip_outputs,
            mock_outputs: match self.mock_outputs { Some(m) => Some(m@), None => None },
            raw: self.raw@,
        }
    }
}

impl View for GenerateBlock {
    type V = GenerateView;

    open spec fn view(&self) -> GenerateView {
        GenerateView { label: self.label@, path: self.path@, contents: self.contents@, if_exists: self.if_exists@, raw: self.raw@ }
    }
}

/// Model of a list of labeled entries.
pub open spec fn keyed_view<T: View>(m: Seq<(String, T)>) -> Seq<(Seq<char>, T::V)> {
    Seq::new(m.len(), |i: int| (m[i].0@, m[i].1@))
}

impl View for TerragruntConfig {
    type V = ConfigView;

    open spec fn view(&self) -> ConfigView {
        ConfigView {
            path: self.path@,
            raw: self.raw@,
            terraform: match self.terraform { Some(t) => Some(t@), None => None },
            remote_state: match self.remote_state { Some(r) => Some(r@), None => None },
            includes: keyed_view(self.includes@),
            dependencies: keyed_view(self.dependencies@),
            dependency_paths: strings_view(self.dependency_paths@),
            generates: keyed_view(self.generates@),
            locals: view_entries(self.locals@),
            inputs: view_entries(self.inputs@),
        }
    }
}

// ── Labeled entries ────────────────────────────────────────────────

/// Position of the first of the first `n` entries keyed `k`, or -1.
pub open spec fn key_index<T>(m: Seq<(Seq<char>, T)>, k: Seq<char>, n: int) -> int
    decreases n,
{
    if n <= 0 || n > m.len() {
        -1
    } else {
        let i = key_index(m, k, n - 1);
        if i >= 0 { i } else if m[n - 1].0 == k { n - 1 } else { -1 }
    }
}

/// `v` stored under `k`: replacing the entry keyed `k` in place, or
/// appended.
pub open spec fn keyed_insert<T>(m: Seq<(Seq<char>, T)>, k: Seq<char>, v: T) -> Seq<(Seq<char>, T)> {
    let i = key_index(m, k, m.len() as int);
    if i >= 0 { m.update(i, (k, v)) } else { m.push((k, v)) }
}

proof fn lemma_key_index_bounds<T>(m: Seq<(Seq<char>, T)>, k: Seq<char>, n: int)
    ensures
        -1 <= key_index(m, k, n) < m.len(),
        key_index(m, k, n) >= 0 ==> m[key_index(m, k, n)].0 == k && key_index(m, k, n) < n,
    decreases n,
{
    if 0 < n <= m.len() {
        lemma_key_index_bounds(m, k, n - 1);
    }
}

/// Stores `v` under `k` (see [`keyed_insert`]).
pub fn keyed_put<T: View>(m: &mut Vec<(String, T)>, k: &str, v: T)
    ensures
        keyed_view(final(m)@) == keyed_insert(keyed_view(old(m)@), k@, v@),
{
    let ghost mv = keyed_view(m@);
    let mut i: usize = 0;
    while i < m.len()
        invariant
            mv == keyed_view(m@),
            mv == keyed_view(old(m)@),
            i <= m@.len(),
            key_index(mv, k@, i as int) == -1,
        decreases m@.len() - i,
    {
        assert(mv[i as int].0 == m@[i as int].0@);
        if str_eq(m[i].0.as_str(), k) {
            assert(key_index(mv, k@, i + 1) == i);
            proof {
                lemma_key_index_prefix(mv, k@, i + 1);
            }
            let ghost vv = v@;
            m.set(i, (to_owned_string(k), v));
            assert(keyed_view(m@) =~= mv.update(i as int, (k@, vv)));
            assert(key_index(mv, k@, mv.len() as int) == i);
            assert(keyed_insert(mv, k@, vv) == mv.update(i as int, (k@, vv)));
            return;
        }
        i = i + 1;
    }
    let ghost vv = v@;
    m.push((to_owned_string(k), v));
    assert(keyed_view(m@) =~= mv.push((k@, vv)));
}

proof fn lemma_key_index_prefix<T>(m: Seq<(Seq<char>, T)>, k: Seq<char>, n: int)
    requires
        0 <= n <= m.len(),
        key_index(m, k, n) >= 0,
    ensures
        key_index(m, k, m.len() as int) == key_index(m, k, n),
    decreases m.len() - n,
{
    if n < m.len() {
        lemma_key_index_prefix(m, k, n + 1);
    }
}

/// The label of a block value: its first label, or `default`.
pub open spec fn block_label(labels: Seq<Seq<char>>) -> Seq<char> {
    if labels.len() > 0 { labels[0] } else { "default"@ }
}

/// The labeled entries of the first `n` array elements: each block with
/// its label; other elements are skipped.
pub open spec fn labeled_items(a: Seq<Val>, n: int) -> Seq<(Seq<char>, Val)>
    decreases n,
{
    if n <= 0 || n > a.len() {
        Seq::empty()
    } else {
        labeled_items(a, n - 1) + match a[n - 1] {
            Val::Block(_, labels, _) => seq![(block_label(labels), a[n - 1])],
            _ => Seq::empty(),
        }
    }
}

/// The labeled entries a value holds: a block with its label, the blocks
/// of an array, or the entries of a map.
pub open spec fn labeled(v: Option<Val>) -> Seq<(Seq<char>, Val)> {
    match v {
        Some(Val::Block(t, labels, body)) => seq![(block_label(labels), Val::Block(t, labels, body))],
        Some(Val::Array(a)) => labeled_items(a, a.len() as int),
        Some(Val::Object(m)) => m,
        _ => Seq::empty(),
    }
}

fn labeled_exec(v: Option<&Value>) -> (r: Vec<(String, &Value)>)
    ensures
        Seq::new(r@.len(), |i: int| (r@[i].0@, r@[i].1@)) == labeled(opt_view(v)),
{
    let mut r: Vec<(String, &Value)> = Vec::new();
    match v {
        Some(x) => match x {
            Value::Block(b) => {
                let label = if b.labels.len() > 0 { to_owned_string(b.labels[0].as_str()) } else { to_owned_string("default") };
                proof {
                    reveal_strlit("default");
                    if b.labels@.len() > 0 {
                        assert(crate::value::view_strings(b.labels@)[0] == b.labels@[0]@);
                    }
                }
                r.push((label, x));
                assert(Seq::new(r@.len(), |i: int| (r@[i].0@, r@[i].1@)) =~= labeled(opt_view(v)));
            },
            Value::Array(a) => {
                let ghost av = view_values(a@);
                let mut i: usize = 0;
                assert(Seq::new(r@.len(), |j: int| (r@[j].0@, r@[j].1@)) =~= labeled_items(av, 0));
                while i < a.len()
                    invariant
                        av == view_values(a@),
                        i <= a@.len(),
                        Seq::new(r@.len(), |j: int| (r@[j].0@, r@[j].1@)) == labeled_items(av, i as int),
                    decreases a@.len() - i,
                {
                    assert(av[i as int] == a@[i as int]@);
                    match &a[i] {
                        Value::Block(b) => {
                            let label = if b.labels.len() > 0 { to_owned_string(b.labels[0].as_str()) } else { to_owned_string("default") };
                            proof {
                                reveal_strlit("default");
                                if b.labels@.len() > 0 {
                                    assert(crate::value::view_strings(b.labels@)[0] == b.labels@[0]@);
                                }
                            }
                            r.push((label, &a[i]));
                        },
                        _ => {},
                    }
                    assert(Seq::new(r@.len(), |j: int| (r@[j].0@, r@[j].1@)) =~= labeled_items(av, i + 1));
                    i = i + 1;
                }
            },
            Value::Object(m) => {
                let ghost mv = view_entries(m@);
                let mut i: usize = 0;
                while i < m.len()
                    invariant
                        mv == view_entries(m@),
                        i <= m@.len(),
                        Seq::new(r@.len(), |j: int| (r@[j].0@, r@[j].1@)) == mv.take(i as int),
                    decreases m@.len() - i,
                {
                    assert(mv[i as int] == (m@[i as int].0@, m@[i as int].1@));
                    let ghost before = Seq::new(r@.len(), |j: int| (r@[j].0@, r@[j].1@));
                    let key = to_owned_string(m[i].0.as_str());
                    let ghost kv = key@;
                    r.push((key, &m[i].1));
                    assert(Seq::new(r@.len(), |j: int| (r@[j].0@, r@[j].1@)) =~= before.push((kv, m@[i as int].1@)));
                    assert(mv.take(i + 1) =~= mv.take(i as int).push(mv[i as int]));
                    i = i + 1;
                }
                assert(mv.take(m@.len() as int) =~= mv);
            },
            _ => {
                assert(Seq::new(r@.len(), |i: int| (r@[i].0@, r@[i].1@)) =~= labeled(opt_view(v)));
            },
        },
        None => {
            assert(Seq::new(r@.len(), |i: int| (r@[i].0@, r@[i].1@)) =~= labeled(opt_view(v)));
        },
    }
    r
}

// ── Blocks ─────────────────────────────────────────────────────────

/// The hooks a `before_hook` or `after_hook` value holds: a block or a
/// map as one hook, the elements of an array.
pub open spec fn hooks_of(v: Option<Val>) -> Seq<Val> {
    match v {
        Some(Val::Block(t, l, b)) => seq![Val::Block(t, l, b)],
        Some(Val::Array(a)) => a,
        Some(Val::Object(m)) => seq![Val::Object(m)],
        _ => Seq::empty(),
    }
}

/// A boolean field, or a default.
pub open spec fn bool_or(v: Option<Val>, d: bool) -> bool {
    match v {
        Some(Val::Bool(b)) => b,
        _ => d,
    }
}

/// The `terraform` block of a body value.
pub open spec fn terraform_of(tf: Val) -> TerraformView {
    TerraformView {
        source: opt_as_str(val_get(tf, "source"@)),
        extra_arguments: opt_array_or_empty(val_get(tf, "extra_arguments"@)),
        before_hooks: hooks_of(val_get(tf, "before_hook"@)),
        after_hooks: hooks_of(val_get(tf, "after_hook"@)),
        raw: tf,
    }
}

/// The `remote_state` block of a body value.
pub open spec fn remote_state_of(rs: Val) -> RemoteStateView {
    RemoteStateView {
        backend: opt_str_or_empty(val_get(rs, "backend"@)),
        config: match val_get(rs, "config"@) { Some(c) => c, None => Val::Null },
        generate: val_get(rs, "generate"@),
        raw: rs,
    }
}

/// The merge strategy an include names: `deep`, `no_merge`, or shallow.
pub open spec fn strategy_of(v: Option<Val>) -> MergeStrategy {
    match opt_as_str(v) {
        Some(s) => if s == "deep"@ { MergeStrategy::Deep } else if s == "no_merge"@ { MergeStrategy::NoMerge } else { MergeStrategy::Shallow },
        None => MergeStrategy::Shallow,
    }
}

/// An `include` block.
pub open spec fn include_of(label: Seq<char>, v: Val) -> IncludeView {
    IncludeView {
        label,
        path: opt_str_or_empty(val_get(v, "path"@)),
        expose: bool_or(val_get(v, "expose"@), false),
        merge_strategy: strategy_of(val_get(v, "merge_strategy"@)),
        raw: v,
    }
}

/// A `dependency` block.
pub open spec fn dependency_of(label: Seq<char>, v: Val) -> DependencyView {
    DependencyView {
        label,
        config_path: opt_str_or_empty(val_get(v, "config_path"@)),
        enabled: bool_or(val_get(v, "enabled"@), true),
        skip_outputs: bool_or(val_get(v, "skip_outputs"@), false),
        mock_outputs: val_get(v, "mock_outputs"@),
        raw: v,
    }
}

/// A `generate` block.
pub open spec fn generate_of(label: Seq<char>, v: Val) -> GenerateView {
    GenerateView {
        label,
        path: opt_str_or_empty(val_get(v, "path"@)),
        contents: opt_str_or_empty(val_get(v, "contents"@)),
        if_exists: match opt_as_str(val_get(v, "if_exists"@)) { Some(s) => s, None => "overwrite_terragrunt"@ },
        raw: v,
    }
}

/// The include blocks of the first `n` labeled entries, by label.
pub open spec fn includes_of(e: Seq<(Seq<char>, Val)>, n: int) -> Seq<(Seq<char>, IncludeView)>
    decreases n,
{
    if n <= 0 || n > e.len() {
        Seq::empty()
    } else {
        keyed_insert(includes_of(e, n - 1), e[n - 1].0, include_of(e[n - 1].0, e[n - 1].1))
    }
}

/// The dependency blocks of the first `n` labeled entries, by label.
pub open spec fn dependencies_of(e: Seq<(Seq<char>, Val)>, n: int) -> Seq<(Seq<char>, DependencyView)>
    decreases n,
{
    if n <= 0 || n > e.len() {
        Seq::empty()
    } else {
        keyed_insert(dependencies_of(e, n - 1), e[n - 1].0, dependency_of(e[n - 1].0, e[n - 1].1))
    }
}

/// The generate blocks of the first `n` labeled entries, by label.
pub open spec fn generates_of(e: Seq<(Seq<char>, Val)>, n: int) -> Seq<(Seq<char>, GenerateView)>
    decreases n,
{
    if n <= 0 || n > e.len() {
        Seq::empty()
    } else {
        keyed_insert(generates_of(e, n - 1), e[n - 1].0, generate_of(e[n - 1].0, e[n - 1].1))
    }
}

/// A singular block as the parser may give it: a list whose first
/// element is a block stands for that block.
pub open spec fn unwrap_block(v: Val) -> Val {
    match v {
        Val::Array(a) => if a.len() > 0 && a[0] is Block { a[0] } else { v },
        _ => v,
    }
}

/// An optional singular block (see [`unwrap_block`]).
pub open spec fn single(v: Option<Val>) -> Option<Val> {
    match v {
        Some(x) => Some(unwrap_block(x)),
        None => None,
    }
}

/// The entries of a map or of a block's body.
pub open spec fn inner_map(v: Option<Val>) -> Seq<(Seq<char>, Val)> {
    match v {
        Some(Val::Object(m)) => m,
        Some(Val::Block(_, _, body)) => body,
        _ => Seq::empty(),
    }
}

/// The paths of a `dependencies` block.
pub open spec fn dependency_paths_of(v: Option<Val>) -> Seq<Seq<char>> {
    match v {
        Some(d) => match val_get(d, "paths"@) {
            Some(Val::Array(a)) => strs_in(a),
            _ => Seq::empty(),
        },
        None => Seq::empty(),
    }
}

/// The configuration a parsed body gives.
pub open spec fn config_of(path: Seq<char>, raw: Val) -> ConfigView {
    let inc = labeled(val_get(raw, "include"@));
    let dep = labeled(val_get(raw, "dependency"@));
    let gen = labeled(val_get(raw, "generate"@));
    ConfigView {
        path,
        raw,
        terraform: match single(val_get(raw, "terraform"@)) { Some(tf) => Some(terraform_of(tf)), None => None },
        remote_state: match single(val_get(raw, "remote_state"@)) { Some(rs) => Some(remote_state_of(rs)), None => None },
        includes: includes_of(inc, inc.len() as int),
        dependencies: dependencies_of(dep, dep.len() as int),
        dependency_paths: dependency_paths_of(single(val_get(raw, "dependencies"@))),
        generates: generates_of(gen, gen.len() as int),
        locals: inner_map(single(val_get(raw, "locals"@))),
        inputs: inner_map(single(val_get(raw, "inputs"@))),
    }
}

fn single_block(v: Option<&Value>) -> (r: Option<&Value>)
    ensures
        opt_view(r) == single(opt_view(v)),
{
    match v {
        Some(x) => match x {
            Value::Array(a) => {
                if a.len() > 0 && a[0].is_block() {
                    assert(view_values(a@)[0] == a@[0]@);
                    Some(&a[0])
                } else {
                    Some(x)
                }
            },
            _ => Some(x),
        },
        None => None,
    }
}

fn clone_values(a: &[Value]) -> (r: Vec<Value>)
    ensures
        view_values(r@) == view_values(a@),
{
    let mut r: Vec<Value> = Vec::new();
    let mut i: usize = 0;
    while i < a.len()
        invariant
            i <= a@.len(),
            view_values(r@) == view_values(a@).take(i as int),
        decreases a@.len() - i,
    {
        let ghost before = view_values(r@);
        r.push(clone_value(&a[i]));
        assert(view_values(r@) =~= before.push(a@[i as int]@));
        assert(view_values(a@).take(i + 1) =~= view_values(a@).take(i as int).push(a@[i as int]@));
        i = i + 1;
    }
    assert(view_values(a@).take(a@.len() as int) =~= view_values(a@));
    r
}

fn clone_entries(m: &Vec<(String, Value)>) -> (r: Vec<(String, Value)>)
    ensures
        view_entries(r@) == view_entries(m@),
{
    let mut r: Vec<(String, Value)> = Vec::new();
    let mut i: usize = 0;
    while i < m.len()
        invariant
            i <= m@.len(),
            view_entries(r@) == view_entries(m@).take(i as int),
        decreases m@.len() - i,
    {
        let ghost before = view_entries(r@);
        r.push((to_owned_string(m[i].0.as_str()), clone_value(&m[i].1)));
        assert(view_entries(r@) =~= before.push((m@[i as int].0@, m@[i as int].1@)));
        assert(view_entries(m@).take(i + 1) =~= view_entries(m@).take(i as int).push((m@[i as int].0@, m@[i as int].1@)));
        i = i + 1;
    }
    assert(view_entries(m@).take(m@.len() as int) =~= view_entries(m@));
    r
}

fn opt_clone(v: Option<&Value>) -> (r: Option<Value>)
    ensures
        match r { Some(x) => opt_view(v) == Some(x@), None => opt_view(v) is None },
{
    match v {
        Some(x) => Some(clone_value(x)),
        None => None,
    }
}

fn bool_field(v: Option<&Value>, d: bool) -> (r: bool)
    ensures
        r == bool_or(opt_view(v), d),
{
    match v {
        Some(Value::Bool(b)) => *b,
        _ => d,
    }
}

fn hooks(v: Option<&Value>) -> (r: Vec<Value>)
    ensures
        view_values(r@) == hooks_of(opt_view(v)),
{
    match v {
        Some(x) => match x {
            Value::Block(_) => {
                let r = vec![clone_value(x)];
                assert(view_values(r@) =~= hooks_of(opt_view(v)));
                r
            },
            Value::Array(a) => clone_values(a.as_slice()),
            Value::Object(_) => {
                let r = vec![clone_value(x)];
                assert(view_values(r@) =~= hooks_of(opt_view(v)));
                r
            },
            _ => {
                let r: Vec<Value> = Vec::new();
                assert(view_values(r@) =~= Seq::<Val>::empty());
                r
            },
        },
        None => {
            let r: Vec<Value> = Vec::new();
            assert(view_values(r@) =~= Seq::<Val>::empty());
            r
        },
    }
}

fn terraform_block(tf: &Value) -> (r: TerraformBlock)
    ensures
        r@ == terraform_of(tf@),
{
    let source = opt_string(tf.get("source"));
    let extra = clone_values(array_or_empty(tf.get("extra_arguments")));
    let before_hooks = hooks(tf.get("before_hook"));
    let after_hooks = hooks(tf.get("after_hook"));
    let r = TerraformBlock { source, extra_arguments: extra, before_hooks, after_hooks, raw: clone_value(tf) };
    assert(r@.source == terraform_of(tf@).source);
    r
}

fn remote_state_block(rs: &Value) -> (r: RemoteStateBlock)
    ensures
        r@ == remote_state_of(rs@),
{
    let config = match rs.get("config") {
        Some(c) => clone_value(c),
        None => Value::Null,
    };
    RemoteStateBlock { backend: str_or_empty(rs.get("backend")), config, generate: opt_clone(rs.get("generate")), raw: clone_value(rs) }
}

fn strategy(v: Option<&Value>) -> (r: MergeStrategy)
    ensures
        r == strategy_of(opt_view(v)),
{
    proof {
        reveal_strlit("deep");
        reveal_strlit("no_merge");
    }
    match v {
        Some(x) => match x.as_str() {
            Some(s) => if str_eq(s, "deep") { MergeStrategy::Deep } else if str_eq(s, "no_merge") { MergeStrategy::NoMerge } else { MergeStrategy::Shallow },
            None => MergeStrategy::Shallow,
        },
        None => MergeStrategy::Shallow,
    }
}

fn include_block(label: &str, v: &Value) -> (r: IncludeBlock)
    ensures
        r@ == include_of(label@, v@),
{
    IncludeBlock {
        label: to_owned_string(label),
        path: str_or_empty(v.get("path")),
        expose: bool_field(v.get("expose"), false),
        merge_strategy: strategy(v.get("merge_strategy")),
        raw: clone_value(v),
    }
}

fn dependency_block(label: &str, v: &Value) -> (r: DependencyBlock)
    ensures
        r@ == dependency_of(label@, v@),
{
    let r = DependencyBlock {
        label: to_owned_string(label),
        config_path: str_or_empty(v.get("config_path")),
        enabled: bool_field(v.get("enabled"), true),
        skip_outputs: bool_field(v.get("skip_outputs"), false),
        mock_outputs: opt_clone(v.get("mock_outputs")),
        raw: clone_value(v),
    };
    assert(r@.mock_outputs == dependency_of(label@, v@).mock_outputs);
    r
}

fn generate_block(label: &str, v: &Value) -> (r: GenerateBlock)
    ensures
        r@ == generate_of(label@, v@),
{
    let if_exists = match opt_string(v.get("if_exists")) {
        Some(s) => s,
        None => to_owned_string("overwrite_terragrunt"),
    };
    GenerateBlock {
        label: to_owned_string(label),
        path: str_or_empty(v.get("path")),
        contents: str_or_empty(v.get("contents")),
        if_exists,
        raw: clone_value(v),
    }
}

fn includes(raw: &Value) -> (r: Vec<(String, IncludeBlock)>)
    ensures
        keyed_view(r@) == includes_of(labeled(val_get(raw@, "include"@)), labeled(val_get(raw@, "include"@)).len() as int),
{
    let items = labeled_exec(raw.get("include"));
    let ghost ev = Seq::new(items@.len(), |i: int| (items@[i].0@, items@[i].1@));
    let mut r: Vec<(String, IncludeBlock)> = Vec::new();
    let mut i: usize = 0;
    assert(keyed_view(r@) =~= includes_of(ev, 0));
    while i < items.len()
        invariant
            ev == Seq::new(items@.len(), |j: int| (items@[j].0@, items@[j].1@)),
            i <= items@.len(),
            keyed_view(r@) == includes_of(ev, i as int),
        decreases items@.len() - i,
    {
        let b = include_block(items[i].0.as_str(), items[i].1);
        keyed_put(&mut r, items[i].0.as_str(), b);
        i = i + 1;
    }
    r
}

fn dependencies(raw: &Value) -> (r: Vec<(String, DependencyBlock)>)
    ensures
        keyed_view(r@) == dependencies_of(labeled(val_get(raw@, "dependency"@)), labeled(val_get(raw@, "dependency"@)).len() as int),
{
    let items = labeled_exec(raw.get("dependency"));
    let ghost ev = Seq::new(items@.len(), |i: int| (items@[i].0@, items@[i].1@));
    let mut r: Vec<(String, DependencyBlock)> = Vec::new();
    let mut i: usize = 0;
    assert(keyed_view(r@) =~= dependencies_of(ev, 0));
    while i < items.len()
        invariant
            ev == Seq::new(items@.len(), |j: int| (items@[j].0@, items@[j].1@)),
            i <= items@.len(),
            keyed_view(r@) == dependencies_of(ev, i as int),
        decreases items@.len() - i,
    {
        let b = dependency_block(items[i].0.as_str(), items[i].1);
        keyed_put(&mut r, items[i].0.as_str(), b);
        i = i + 1;
    }
    r
}

fn generates(raw: &Value) -> (r: Vec<(String, GenerateBlock)>)
    ensures
        keyed_view(r@) == generates_of(labeled(val_get(raw@, "generate"@)), labeled(val_get(raw@, "generate"@)).len() as int),
{
    let items = labeled_exec(raw.get("generate"));
    let ghost ev = Seq::new(items@.len(), |i: int| (items@[i].0@, items@[i].1@));
    let mut r: Vec<(String, GenerateBlock)> = Vec::new();
    let mut i: usize = 0;
    assert(keyed_view(r@) =~= generates_of(ev, 0));
    while i < items.len()
        invariant
            ev == Seq::new(items@.len(), |j: int| (items@[j].0@, items@[j].1@)),
            i <= items@.len(),
            keyed_view(r@) == generates_of(ev, i as int),
        decreases items@.len() - i,
    {
        let b = generate_block(items[i].0.as_str(), items[i].1);
        keyed_put(&mut r, items[i].0.as_str(), b);
        i = i + 1;
    }
    r
}

fn inner_entries(v: Option<&Value>) -> (r: Vec<(String, Value)>)
    ensures
        view_entries(r@) == inner_map(opt_view(v)),
{
    match v {
        Some(x) => match x {
            Value::Object(m) => clone_entries(m),
            Value::Block(b) => clone_entries(&b.body),
            _ => {
                let r: Vec<(String, Value)> = Vec::new();
                assert(view_entries(r@) =~= Seq::<(Seq<char>, Val)>::empty());
                r
            },
        },
        None => {
            let r: Vec<(String, Value)> = Vec::new();
            assert(view_entries(r@) =~= Seq::<(Seq<char>, Val)>::empty());
            r
        },
    }
}

fn dependency_paths(v: Option<&Value>) -> (r: Vec<String>)
    ensures
        strings_view(r@) == dependency_paths_of(opt_view(v)),
{
    match v {
        Some(d) => match d.get("paths") {
            Some(p) => match p {
                Value::Array(a) => {
                    let r = strings_of(a.as_slice());
                    r
                },
                _ => {
                    let r: Vec<String> = Vec::new();
                    assert(strings_view(r@) =~= Seq::<Seq<char>>::empty());
                    r
                },
            },
            None => {
                let r: Vec<String> = Vec::new();
                assert(strings_view(r@) =~= Seq::<Seq<char>>::empty());
                r
            },
        },
        None => {
            let r: Vec<String> = Vec::new();
            assert(strings_view(r@) =~= Seq::<Seq<char>>::empty());
            r
        },
    }
}

impl TerragruntConfig {
    /// Reads the blocks of a parsed `terragrunt.hcl` body; a body always
    /// gives a configuration. The parser gives every block type as a list
    /// of blocks: for the singular ones (terraform, remote_state,
    /// dependencies, locals, inputs) the first block of such a list is
    /// read.
    pub fn from_value(path: String, raw: Value) -> (r: Result<TerragruntConfig, Error>)
        ensures
            r matches Ok(c) && c@ == config_of(path@, raw@),
    {
        let terraform = match single_block(raw.get("terraform")) {
            Some(tf) => Some(terraform_block(tf)),
            None => None,
        };
        let remote_state = match single_block(raw.get("remote_state")) {
            Some(rs) => Some(remote_state_block(rs)),
            None => None,
        };
        let includes = includes(&raw);
        let dependencies = dependencies(&raw);
        let dependency_paths = dependency_paths(single_block(raw.get("dependencies")));
        let generates = generates(&raw);
        let locals = inner_entries(single_block(raw.get("locals")));
        let inputs = inner_entries(single_block(raw.get("inputs")));
        let c = TerragruntConfig {
            path,
            raw,
            terraform,
            remote_state,
            includes,
            dependencies,
            dependency_paths,
            generates,
            locals,
            inputs,
        };
        assert(c@.terraform == config_of(c.path@, c.raw@).terraform);
        assert(c@.remote_state == config_of(c.path@, c.raw@).remote_state);
        Ok(c)
    }
}


/// The config paths of the first `n` dependency blocks that are enabled.
pub open spec fn enabled_paths(d: Seq<(Seq<char>, DependencyView)>, n: int) -> Seq<Seq<char>>
    decreases n,
{
    if n <= 0 || n > d.len() {
        Seq::empty()
    } else {
        enabled_paths(d, n - 1) + (if d[n - 1].1.enabled { seq![d[n - 1].1.config_path] } else { Seq::empty() })
    }
}

/// The paths of the first `n` include blocks.
pub open spec fn include_paths(i: Seq<(Seq<char>, IncludeView)>, n: int) -> Seq<Seq<char>>
    decreases n,
{
    if n <= 0 || n > i.len() {
        Seq::empty()
    } else {
        include_paths(i, n - 1).push(i[n - 1].1.path)
    }
}

impl TerragruntConfig {
    /// The config paths this module depends on: those of the enabled
    /// dependency blocks, then those of the dependencies block.
    pub fn all_dependency_paths(&self) -> (r: Vec<String>)
        ensures
            strings_view(r@) == enabled_paths(self@.dependencies, self@.dependencies.len() as int) + self@.dependency_paths,
    {
        let ghost dv = keyed_view(self.dependencies@);
        let mut r: Vec<String> = Vec::new();
        let mut i: usize = 0;
        while i < self.dependencies.len()
            invariant
                dv == keyed_view(self.dependencies@),
                i <= self.dependencies@.len(),
                strings_view(r@) == enabled_paths(dv, i as int),
            decreases self.dependencies@.len() - i,
        {
            assert(dv[i as int].1 == self.dependencies@[i as int].1@);
            if self.dependencies[i].1.enabled {
                let ghost before = strings_view(r@);
                r.push(to_owned_string(self.dependencies[i].1.config_path.as_str()));
                assert(strings_view(r@) =~= before.push(dv[i as int].1.config_path));
            }
            assert(strings_view(r@) =~= enabled_paths(dv, i + 1));
            i = i + 1;
        }
        let ghost e = strings_view(r@);
        let mut j: usize = 0;
        while j < self.dependency_paths.len()
            invariant
                j <= self.dependency_paths@.len(),
                strings_view(r@) == e + strings_view(self.dependency_paths@).take(j as int),
            decreases self.dependency_paths@.len() - j,
        {
            let ghost before = strings_view(r@);
            r.push(to_owned_string(self.dependency_paths[j].as_str()));
            assert(strings_view(r@) =~= before.push(self.dependency_paths@[j as int]@));
            assert(strings_view(self.dependency_paths@).take(j + 1) =~= strings_view(self.dependency_paths@).take(j as int).push(self.dependency_paths@[j as int]@));
            j = j + 1;
        }
        assert(strings_view(self.dependency_paths@).take(self.dependency_paths@.len() as int) =~= strings_view(self.dependency_paths@));
        r
    }

    /// The paths of the include blocks, in label order.
    pub fn all_include_paths(&self) -> (r: Vec<String>)
        ensures
            strings_view(r@) == include_paths(self@.includes, self@.includes.len() as int),
    {
        let ghost iv = keyed_view(self.includes@);
        let mut r: Vec<String> = Vec::new();
        let mut i: usize = 0;
        while i < self.includes.len()
            invariant
                iv == keyed_view(self.includes@),
                i <= self.includes@.len(),
                strings_view(r@) == include_paths(iv, i as int),
            decreases self.includes@.len() - i,
        {
            assert(iv[i as int].1 == self.includes@[i as int].1@);
            let ghost before = strings_view(r@);
            r.push(to_owned_string(self.includes[i].1.path.as_str()));
            assert(strings_view(r@) =~= before.push(iv[i as int].1.path));
            i = i + 1;
        }
        r
    }
}

} // verus!
