//! Include chains: the configurations from a leaf module up to its roots,
//! and the value they merge into.
use vstd::prelude::*;
use crate::merge::{merge, merge_spec, Strategy, StrategyView};
use crate::error::Error;
use crate::terragrunt::config::{ConfigView, MergeStrategy, TerragruntConfig, include_paths};
use crate::text::{push_str, push_string, strings_contain, strings_view, to_owned_string};
use crate::value::{Value, Val, clone_value, entries_insert, insert_all, view_entries, view_values};

verus! {

/// A resolved include chain: configurations leaf first, with their paths.
#[derive(Debug)]
pub struct IncludeChain {
    pub configs: Vec<TerragruntConfig>,
    pub paths: Vec<String>,
}

/// Model of a list of configurations.
pub open spec fn configs_view(c: Seq<TerragruntConfig>) -> Seq<ConfigView> {
    Seq::new(c.len(), |i: int| c[i]@)
}

/// The merge strategy a configuration is merged with: that of its first
/// include block (no_merge replaces), shallow when it has none.
pub open spec fn layer_strategy(c: ConfigView) -> StrategyView {
    if c.includes.len() > 0 {
        match c.includes[0].1.merge_strategy {
            MergeStrategy::Shallow => StrategyView::Shallow,
            MergeStrategy::Deep => StrategyView::Deep,
            MergeStrategy::NoMerge => StrategyView::Replace,
        }
    } else {
        StrategyView::Shallow
    }
}

/// The chain merged from its root (the last configuration) down to the
/// `k`-th configuration, each one merged over the others with its own
/// strategy.
pub open spec fn merged_from(c: Seq<ConfigView>, k: int) -> Val
    decreases c.len() - k,
{
    if k < 0 || k >= c.len() {
        Val::Null
    } else if k == c.len() - 1 {
        c[k].raw
    } else {
        merge_spec(merged_from(c, k + 1), c[k].raw, layer_strategy(c[k]))
    }
}

/// A layer whose first include asks for `no_merge` replaces everything
/// below it: the chain merged down to that layer is the layer's own body,
/// whatever the layers above the root hold.
pub proof fn law_no_merge_layer_replaces(c: Seq<ConfigView>, k: int)
    requires
        0 <= k < c.len(),
        c[k].includes.len() > 0,
        c[k].includes[0].1.merge_strategy == MergeStrategy::NoMerge,
    ensures
        merged_from(c, k) == c[k].raw,
{
}

/// A layer with no include block, or whose first include asks for
/// `shallow`, is merged over the layers below it key by key: the result
/// is the shallow merge of its body over what lies below.
pub proof fn law_shallow_layer_merges(c: Seq<ConfigView>, k: int)
    requires
        0 <= k < c.len() - 1,
        c[k].includes.len() == 0 || c[k].includes[0].1.merge_strategy == MergeStrategy::Shallow,
    ensures
        merged_from(c, k) == merge_spec(merged_from(c, k + 1), c[k].raw, StrategyView::Shallow),
{
}

/// A layer whose first include asks for `deep` is merged over the layers
/// below it deeply: maps merge key by key and arrays concatenate.
pub proof fn law_deep_layer_merges(c: Seq<ConfigView>, k: int)
    requires
        0 <= k < c.len() - 1,
        c[k].includes.len() > 0,
        c[k].includes[0].1.merge_strategy == MergeStrategy::Deep,
    ensures
        merged_from(c, k) == merge_spec(merged_from(c, k + 1), c[k].raw, StrategyView::Deep),
{
}

fn strategy_of_layer(c: &TerragruntConfig) -> (r: Strategy)
    ensures
        crate::merge::strategy_view(r) == layer_strategy(c@),
{
    if c.includes.len() > 0 {
        assert(c@.includes[0].1 == c.includes@[0].1@);
        match c.includes[0].1.merge_strategy {
            MergeStrategy::Shallow => Strategy::Shallow,
            MergeStrategy::Deep => Strategy::Deep,
            MergeStrategy::NoMerge => Strategy::Replace,
        }
    } else {
        Strategy::Shallow
    }
}

/// Merges an include chain into one value: the root's body first (lowest
/// priority), each configuration closer to the leaf merged over it with
/// the strategy of its first include; null for an empty chain.
pub fn merge_include_chain(chain: &IncludeChain) -> (r: Value)
    ensures
        r@ == merged_from(configs_view(chain.configs@), 0),
{
    let ghost cv = configs_view(chain.configs@);
    let n = chain.configs.len();
    if n == 0 {
        return Value::Null;
    }
    let mut result = clone_value(&chain.configs[n - 1].raw);
    let mut k: usize = n - 1;
    assert(cv[k as int] == chain.configs@[k as int]@);
    while k > 0
        invariant
            cv == configs_view(chain.configs@),
            n == chain.configs@.len(),
            k < n,
            result@ == merged_from(cv, k as int),
        decreases k,
    {
        k = k - 1;
        assert(cv[k as int] == chain.configs@[k as int]@);
        let s = strategy_of_layer(&chain.configs[k]);
        result = merge(&result, &chain.configs[k].raw, s);
    }
    result
}


// ── Walking the includes ───────────────────────────────────────────

/// The state of a walk of the include tree: the chain so far and the
/// canonical paths of the files entered.
#[derive(Debug)]
pub struct IncludeWalk {
    pub chain: IncludeChain,
    pub visited: Vec<String>,
}

/// The message of a file entered twice.
pub open spec fn cycle_message(canonical: Seq<char>) -> Seq<char> {
    "include cycle detected: "@ + canonical + " already visited"@
}

impl IncludeWalk {
    /// A walk that has entered nothing.
    pub fn new() -> (w: IncludeWalk)
        ensures
            w.chain.configs@.len() == 0,
            w.chain.paths@.len() == 0,
            w.visited@.len() == 0,
    {
        IncludeWalk { chain: IncludeChain { configs: Vec::new(), paths: Vec::new() }, visited: Vec::new() }
    }

    /// Enters the file whose canonical path is `canonical`. A file entered
    /// before closes a cycle: that is an error and the walk is left as it
    /// was; otherwise the file is marked entered.
    pub fn enter(&mut self, canonical: &str) -> (r: Result<(), Error>)
        ensures
            strings_view(old(self).visited@).contains(canonical@) ==> {
                &&& r matches Err(Error::Other(m)) && m@ == cycle_message(canonical@)
                &&& strings_view(final(self).visited@) == strings_view(old(self).visited@)
            },
            !strings_view(old(self).visited@).contains(canonical@) ==> {
                &&& r is Ok
                &&& strings_view(final(self).visited@) == strings_view(old(self).visited@).push(canonical@)
            },
            final(self).chain == old(self).chain,
            strings_view(old(self).visited@).no_duplicates() ==> strings_view(final(self).visited@).no_duplicates(),
    {
        if strings_contain(&self.visited, canonical) {
            let mut m = to_owned_string("include cycle detected: ");
            push_str(&mut m, canonical);
            push_str(&mut m, " already visited");
            return Err(Error::Other(m));
        }
        let ghost before = strings_view(self.visited@);
        push_string(&mut self.visited, canonical);
        proof {
            let after = strings_view(self.visited@);
            if before.no_duplicates() {
                assert forall|i: int, j: int| 0 <= i < after.len() && 0 <= j < after.len() && i != j implies after[i] != after[j] by {
                    if i == after.len() - 1 {
                        assert(after[j] == before[j]);
                    } else if j == after.len() - 1 {
                        assert(after[i] == before[i]);
                    } else {
                        assert(after[i] == before[i] && after[j] == before[j]);
                    }
                }
            }
        }
        Ok(())
    }

    /// Records the configuration read from `path` at the end of the
    /// chain, and gives the paths of its includes, to follow in order.
    pub fn record(&mut self, path: String, config: TerragruntConfig) -> (r: Vec<String>)
        ensures
            strings_view(final(self).chain.paths@) == strings_view(old(self).chain.paths@).push(path@),
            configs_view(final(self).chain.configs@) == configs_view(old(self).chain.configs@).push(config@),
            strings_view(final(self).visited@) == strings_view(old(self).visited@),
            strings_view(r@) == include_paths(config@.includes, config@.includes.len() as int),
    {
        let r = config.all_include_paths();
        let ghost paths_before = strings_view(self.chain.paths@);
        let ghost configs_before = configs_view(self.chain.configs@);
        let ghost cv = config@;
        self.chain.paths.push(path);
        self.chain.configs.push(config);
        assert(strings_view(self.chain.paths@) =~= paths_before.push(self.chain.paths@.last()@));
        assert(configs_view(self.chain.configs@) =~= configs_before.push(cv));
        r
    }
}


// ── Rendering ──────────────────────────────────────────────────────

/// The rendered configuration of a module: its source file, the paths of
/// its include chain, then the entries of the merged chain (where it
/// merged into a map), each inserted in turn.
pub open spec fn rendered_spec(source: Seq<char>, paths: Seq<Seq<char>>, merged: Val) -> Val {
    let head = seq![
        ("_source"@, Val::Str(source)),
        ("_include_chain"@, Val::Array(Seq::new(paths.len(), |i: int| Val::Str(paths[i])))),
    ];
    match merged {
        Val::Object(m) => Val::Object(insert_all(head, m, m.len() as int)),
        _ => Val::Object(head),
    }
}

/// Renders a module from its configuration file and its resolved
/// include chain (see [`rendered_spec`]).
pub fn render_chain(source: &str, chain: &IncludeChain) -> (r: Value)
    ensures
        r@ == rendered_spec(source@, strings_view(chain.paths@), merged_from(configs_view(chain.configs@), 0)),
{
    let merged = merge_include_chain(chain);
    let ghost pv = strings_view(chain.paths@);
    let mut paths: Vec<Value> = Vec::new();
    let mut i: usize = 0;
    while i < chain.paths.len()
        invariant
            i <= chain.paths@.len(),
            pv == strings_view(chain.paths@),
            view_values(paths@) == Seq::new(i as nat, |k: int| Val::Str(pv[k])),
        decreases chain.paths@.len() - i,
    {
        let ghost before = view_values(paths@);
        paths.push(Value::string(chain.paths[i].as_str()));
        assert(view_values(paths@) =~= before.push(Val::Str(pv[i as int])));
        assert(Seq::new((i + 1) as nat, |k: int| Val::Str(pv[k])) =~= Seq::new(i as nat, |k: int| Val::Str(pv[k])).push(Val::Str(pv[i as int])));
        i = i + 1;
    }
    let mut result: Vec<(String, Value)> = Vec::new();
    result.push((to_owned_string("_source"), Value::string(source)));
    result.push((to_owned_string("_include_chain"), Value::array(paths)));
    proof {
        reveal_strlit("_source");
        reveal_strlit("_include_chain");
    }
    let ghost head = seq![
        ("_source"@, Val::Str(source@)),
        ("_include_chain"@, Val::Array(Seq::new(pv.len(), |k: int| Val::Str(pv[k])))),
    ];
    assert(view_entries(result@) =~= head);
    match &merged {
        Value::Object(m) => {
            let ghost mv = view_entries(m@);
            let mut j: usize = 0;
            while j < m.len()
                invariant
                    j <= m@.len(),
                    mv == view_entries(m@),
                    view_entries(result@) == insert_all(head, mv, j as int),
                decreases m@.len() - j,
            {
                assert(mv[j as int] == (m@[j as int].0@, m@[j as int].1@));
                entries_insert(&mut result, to_owned_string(m[j].0.as_str()), clone_value(&m[j].1));
                j = j + 1;
            }
        },
        _ => {},
    }
    Value::Object(result)
}

} // verus!
