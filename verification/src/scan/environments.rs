//! The environment hierarchy:
//! `{environments_dir}/{tenant}/{environment}/{cloudProvider}/{config_subdir}/{region}/...`.
//! Walking it yields one [`ConfigPath`] per file; aggregating those gives
//! the [`Taxonomy`] of tenants, environments, clouds and regions.
use vstd::prelude::*;
use crate::scan::config::{ScanConfig, env_dir_label};
use crate::scan::discovery::{FileSystem, sorted_paths, sort_paths};
use crate::text::{contains_str, contains_seq, strings_view, strip_components, relative_components, to_owned_string, insert_sorted, strictly_sorted, str_eq, str_less, str_lt, lemma_str_lt_order};

verus! {

/// A configuration file and its place in the hierarchy.
#[derive(Debug)]
pub struct ConfigPath {
    /// Tenant name.
    pub tenant: String,
    /// Environment name (such as `production`).
    pub environment: String,
    /// Cloud provider code (such as `AWS`).
    pub cloud_provider: String,
    /// Region within the cloud provider.
    pub region: Option<String>,
    /// Semantic file type label, from the configuration's directory table.
    pub file_type: String,
    /// Path of the file.
    pub path: String,
}

/// Model of an optional string.
pub open spec fn opt_str(o: Option<String>) -> Option<Seq<char>> {
    match o {
        Some(s) => Some(s@),
        None => None,
    }
}

/// Model of a configuration path.
pub open spec fn config_path_view(c: ConfigPath) -> (Seq<char>, Seq<char>, Seq<char>, Option<Seq<char>>, Seq<char>, Seq<char>) {
    (c.tenant@, c.environment@, c.cloud_provider@, opt_str(c.region), c.file_type@, c.path@)
}

/// Model of a list of configuration paths.
pub open spec fn config_path_views(s: Seq<ConfigPath>) -> Seq<(Seq<char>, Seq<char>, Seq<char>, Option<Seq<char>>, Seq<char>, Seq<char>)> {
    Seq::new(s.len(), |i: int| config_path_view(s[i]))
}

/// File type and region of a file from the components below its cloud
/// provider directory.
pub open spec fn env_file_class(rem: Seq<Seq<char>>, cfg: ScanConfig) -> (Seq<char>, Option<Seq<char>>) {
    if rem.len() == 0 {
        ("other"@, None)
    } else {
        (env_dir_label(cfg.type_map(), rem[0]), if rem.len() >= 3 { Some(rem[1]) } else { None })
    }
}

/// The configuration path of one file, if the file sits deep enough below
/// a tenant directory (a tenant name holds no `.`).
pub open spec fn config_path_of(path: Seq<char>, root: Seq<char>, cfg: ScanConfig) -> Option<(Seq<char>, Seq<char>, Seq<char>, Option<Seq<char>>, Seq<char>, Seq<char>)> {
    match relative_components(path, root) {
        Some(c) => if c.len() < 4 || contains_seq(c[0], "."@) {
            None
        } else {
            let (ft, region) = env_file_class(c.subrange(3, c.len() as int), cfg);
            Some((c[0], c[1], c[2], region, ft, path))
        },
        None => None,
    }
}

/// The configuration paths among the first `n` paths.
pub open spec fn walk_seq(paths: Seq<Seq<char>>, root: Seq<char>, cfg: ScanConfig, n: int) -> Seq<(Seq<char>, Seq<char>, Seq<char>, Option<Seq<char>>, Seq<char>, Seq<char>)>
    decreases n,
{
    if n <= 0 || n > paths.len() {
        Seq::empty()
    } else {
        let pre = walk_seq(paths, root, cfg, n - 1);
        match config_path_of(paths[n - 1], root, cfg) {
            Some(c) => pre.push(c),
            None => pre,
        }
    }
}

/// The configuration paths of a listing below `root`, in path order.
pub open spec fn walk_spec(listing: Seq<Seq<char>>, root: Seq<char>, cfg: ScanConfig) -> Seq<(Seq<char>, Seq<char>, Seq<char>, Option<Seq<char>>, Seq<char>, Seq<char>)> {
    let s = sorted_paths(listing);
    walk_seq(s, root, cfg, s.len() as int)
}

/// Classifies a file from the components below its cloud provider
/// directory: the first names the file type, the second (when a file name
/// follows it) the region.
pub fn classify_env_file(remaining: &[&str], config: &ScanConfig) -> (r: (String, Option<String>))
    ensures
        (r.0@, opt_str(r.1)) == env_file_class(Seq::new(remaining@.len(), |i: int| remaining@[i]@), *config),
{
    let ghost rv = Seq::new(remaining@.len(), |i: int| remaining@[i]@);
    if remaining.len() == 0 {
        return (to_owned_string("other"), None);
    }
    let file_type = config.classify_env_dir(remaining[0]);
    let region = if remaining.len() >= 3 { Some(to_owned_string(remaining[1])) } else { None };
    (file_type, region)
}

fn classify_rest(c: &Vec<String>, config: &ScanConfig) -> (r: (String, Option<String>))
    requires
        c@.len() >= 4,
    ensures
        (r.0@, opt_str(r.1)) == env_file_class(strings_view(c@).subrange(3, c@.len() as int), *config),
{
    let ghost rem = strings_view(c@).subrange(3, c@.len() as int);
    let file_type = config.classify_env_dir(c[3].as_str());
    assert(rem[0] == c@[3]@);
    let region = if c.len() >= 6 {
        assert(rem[1] == c@[4]@);
        Some(to_owned_string(c[4].as_str()))
    } else {
        None
    };
    (file_type, region)
}

/// The configuration paths of a listing below `root` (see [`walk_spec`]).
pub fn walk_listing(listing: Vec<String>, root: &str, config: &ScanConfig) -> (r: Vec<ConfigPath>)
    ensures
        config_path_views(r@) == walk_spec(strings_view(listing@), root@, *config),
{
    let sorted = sort_paths(listing);
    let ghost sv = strings_view(sorted@);
    let mut out: Vec<ConfigPath> = Vec::new();
    let mut i: usize = 0;
    assert(config_path_views(out@) =~= walk_seq(sv, root@, *config, 0));
    while i < sorted.len()
        invariant
            sv == strings_view(sorted@),
            i <= sorted@.len(),
            config_path_views(out@) == walk_seq(sv, root@, *config, i as int),
        decreases sorted@.len() - i,
    {
        let path = sorted[i].as_str();
        assert(sv[i as int] == path@);
        let ghost before = config_path_views(out@);
        match strip_components(path, root) {
            Some(c) => {
                if c.len() >= 4 && !contains_str(c[0].as_str(), ".") {
                    let (file_type, region) = classify_rest(&c, config);
                    let cp = ConfigPath {
                        tenant: to_owned_string(c[0].as_str()),
                        environment: to_owned_string(c[1].as_str()),
                        cloud_provider: to_owned_string(c[2].as_str()),
                        region,
                        file_type,
                        path: to_owned_string(path),
                    };
                    out.push(cp);
                    assert(config_path_views(out@) =~= before.push(config_path_view(cp)));
                }
            },
            None => {},
        }
        i = i + 1;
    }
    out
}

/// Walks the environments directory on `fs`.  Whatever the listing
/// holds, the result is [`walk_listing`] of it; an error of the listing
/// is handed back.
pub fn walk_environments<F: FileSystem>(fs: &F, environments_root: &str, config: &ScanConfig) -> (r: std::io::Result<Vec<ConfigPath>>)
    ensures
        r matches Ok(v) ==> exists|l: Seq<Seq<char>>| config_path_views(v@) == walk_spec(l, environments_root@, *config),
{
    match fs.walk_files(environments_root) {
        Ok(listing) => {
            let v = walk_listing(listing, environments_root, config);
            assert(config_path_views(v@) == walk_spec(strings_view(listing@), environments_root@, *config));
            Ok(v)
        },
        Err(e) => Err(e),
    }
}


// ── Taxonomy ───────────────────────────────────────────────────────

/// Aggregated taxonomy of the environments directory.  Every list is
/// strictly sorted (each name once); regions are grouped by cloud
/// provider, with the providers strictly sorted.
#[derive(Debug)]
pub struct Taxonomy {
    /// All tenant names found.
    pub tenants: Vec<String>,
    /// All environment names found.
    pub environments: Vec<String>,
    /// All cloud provider codes found.
    pub cloud_providers: Vec<String>,
    /// Regions, grouped by cloud provider.
    pub regions: Vec<(String, Vec<String>)>,
}

/// Cloud provider codes of a region table.
pub open spec fn region_keys(r: Seq<(String, Vec<String>)>) -> Seq<Seq<char>> {
    Seq::new(r.len(), |i: int| r[i].0@)
}

/// The tenants of the first `n` configuration paths.
pub open spec fn tenant_set(c: Seq<ConfigPath>) -> Set<Seq<char>> {
    Set::new(|t: Seq<char>| exists|i: int| 0 <= i < c.len() && #[trigger] c[i].tenant@ == t)
}

/// The environments of the configuration paths.
pub open spec fn environment_set(c: Seq<ConfigPath>) -> Set<Seq<char>> {
    Set::new(|t: Seq<char>| exists|i: int| 0 <= i < c.len() && #[trigger] c[i].environment@ == t)
}

/// The cloud providers of the configuration paths.
pub open spec fn cloud_set(c: Seq<ConfigPath>) -> Set<Seq<char>> {
    Set::new(|t: Seq<char>| exists|i: int| 0 <= i < c.len() && #[trigger] c[i].cloud_provider@ == t)
}

/// The cloud providers of the configuration paths that name a region.
pub open spec fn cloud_with_region_set(c: Seq<ConfigPath>) -> Set<Seq<char>> {
    Set::new(|t: Seq<char>| exists|i: int| 0 <= i < c.len() && #[trigger] c[i].cloud_provider@ == t && c[i].region is Some)
}

/// The regions named under cloud provider `k`.
pub open spec fn region_set(c: Seq<ConfigPath>, k: Seq<char>) -> Set<Seq<char>> {
    Set::new(|x: Seq<char>| exists|i: int| 0 <= i < c.len() && #[trigger] c[i].cloud_provider@ == k && opt_str(c[i].region) == Some(x))
}

/// `t` is the taxonomy of the configuration paths `c`.
pub open spec fn taxonomy_of(t: Taxonomy, c: Seq<ConfigPath>) -> bool {
    &&& strictly_sorted(strings_view(t.tenants@))
    &&& strings_view(t.tenants@).to_set() == tenant_set(c)
    &&& strictly_sorted(strings_view(t.environments@))
    &&& strings_view(t.environments@).to_set() == environment_set(c)
    &&& strictly_sorted(strings_view(t.cloud_providers@))
    &&& strings_view(t.cloud_providers@).to_set() == cloud_set(c)
    &&& strictly_sorted(region_keys(t.regions@))
    &&& region_keys(t.regions@).to_set() == cloud_with_region_set(c)
    &&& forall|i: int| 0 <= i < t.regions@.len() ==>
            strictly_sorted(strings_view(#[trigger] t.regions@[i].1@))
            && strings_view(t.regions@[i].1@).to_set() == region_set(c, t.regions@[i].0@)
}

/// The region table holds the regions of `c`.
pub open spec fn regions_of(r: Seq<(String, Vec<String>)>, c: Seq<ConfigPath>) -> bool {
    &&& strictly_sorted(region_keys(r))
    &&& region_keys(r).to_set() == cloud_with_region_set(c)
    &&& forall|i: int| 0 <= i < r.len() ==>
            strictly_sorted(strings_view(#[trigger] r[i].1@))
            && strings_view(r[i].1@).to_set() == region_set(c, r[i].0@)
}

proof fn lemma_push_sets(c: Seq<ConfigPath>, x: ConfigPath)
    ensures
        tenant_set(c.push(x)) == tenant_set(c).insert(x.tenant@),
        environment_set(c.push(x)) == environment_set(c).insert(x.environment@),
        cloud_set(c.push(x)) == cloud_set(c).insert(x.cloud_provider@),
        x.region is Some ==> cloud_with_region_set(c.push(x)) == cloud_with_region_set(c).insert(x.cloud_provider@),
        x.region is None ==> cloud_with_region_set(c.push(x)) == cloud_with_region_set(c),
        forall|k: Seq<char>| #![trigger region_set(c.push(x), k)]
            region_set(c.push(x), k) == if k == x.cloud_provider@ && x.region is Some {
                region_set(c, k).insert(x.region->0@)
            } else {
                region_set(c, k)
            },
{
    let d = c.push(x);
    let n = c.len() as int;
    assert(d[n] == x);
    assert forall|t: Seq<char>| tenant_set(d).contains(t) <==> tenant_set(c).insert(x.tenant@).contains(t) by {
        if tenant_set(d).contains(t) {
            let i = choose|i: int| 0 <= i < d.len() && #[trigger] d[i].tenant@ == t;
            if i < n { assert(c[i] == d[i]); }
        }
        if tenant_set(c).contains(t) {
            let i = choose|i: int| 0 <= i < c.len() && #[trigger] c[i].tenant@ == t;
            assert(d[i] == c[i]);
        }
    }
    assert(tenant_set(d) =~= tenant_set(c).insert(x.tenant@));
    assert forall|t: Seq<char>| environment_set(d).contains(t) <==> environment_set(c).insert(x.environment@).contains(t) by {
        if environment_set(d).contains(t) {
            let i = choose|i: int| 0 <= i < d.len() && #[trigger] d[i].environment@ == t;
            if i < n { assert(c[i] == d[i]); }
        }
        if environment_set(c).contains(t) {
            let i = choose|i: int| 0 <= i < c.len() && #[trigger] c[i].environment@ == t;
            assert(d[i] == c[i]);
        }
    }
    assert(environment_set(d) =~= environment_set(c).insert(x.environment@));
    assert forall|t: Seq<char>| cloud_set(d).contains(t) <==> cloud_set(c).insert(x.cloud_provider@).contains(t) by {
        if cloud_set(d).contains(t) {
            let i = choose|i: int| 0 <= i < d.len() && #[trigger] d[i].cloud_provider@ == t;
            if i < n { assert(c[i] == d[i]); }
        }
        if cloud_set(c).contains(t) {
            let i = choose|i: int| 0 <= i < c.len() && #[trigger] c[i].cloud_provider@ == t;
            assert(d[i] == c[i]);
        }
    }
    assert(cloud_set(d) =~= cloud_set(c).insert(x.cloud_provider@));
    assert forall|t: Seq<char>| cloud_with_region_set(d).contains(t) <==> (if x.region is Some { cloud_with_region_set(c).insert(x.cloud_provider@) } else { cloud_with_region_set(c) }).contains(t) by {
        if cloud_with_region_set(d).contains(t) {
            let i = choose|i: int| 0 <= i < d.len() && #[trigger] d[i].cloud_provider@ == t && d[i].region is Some;
            if i < n { assert(c[i] == d[i]); }
        }
        if cloud_with_region_set(c).contains(t) {
            let i = choose|i: int| 0 <= i < c.len() && #[trigger] c[i].cloud_provider@ == t && c[i].region is Some;
            assert(d[i] == c[i]);
        }
    }
    if x.region is Some {
        assert(cloud_with_region_set(d) =~= cloud_with_region_set(c).insert(x.cloud_provider@));
    } else {
        assert(cloud_with_region_set(d) =~= cloud_with_region_set(c));
    }
    assert forall|k: Seq<char>| #![trigger region_set(c.push(x), k)]
        region_set(c.push(x), k) == if k == x.cloud_provider@ && x.region is Some {
            region_set(c, k).insert(x.region->0@)
        } else {
            region_set(c, k)
        } by {
        let want = if k == x.cloud_provider@ && x.region is Some {
            region_set(c, k).insert(x.region->0@)
        } else {
            region_set(c, k)
        };
        assert forall|y: Seq<char>| region_set(d, k).contains(y) <==> want.contains(y) by {
            if region_set(d, k).contains(y) {
                let i = choose|i: int| 0 <= i < d.len() && #[trigger] d[i].cloud_provider@ == k && opt_str(d[i].region) == Some(y);
                if i < n { assert(c[i] == d[i]); }
            }
            if region_set(c, k).contains(y) {
                let i = choose|i: int| 0 <= i < c.len() && #[trigger] c[i].cloud_provider@ == k && opt_str(c[i].region) == Some(y);
                assert(d[i] == c[i]);
            }
            if k == x.cloud_provider@ && x.region is Some && y == x.region->0@ {
                assert(d[n].cloud_provider@ == k && opt_str(d[n].region) == Some(y));
            }
        }
        assert(region_set(d, k) =~= want);
    }
}

fn key_position(r: &Vec<(String, Vec<String>)>, k: &str) -> (p: usize)
    requires
        strictly_sorted(region_keys(r@)),
    ensures
        p <= r@.len(),
        forall|j: int| 0 <= j < p ==> str_lt(#[trigger] region_keys(r@)[j], k@),
        p < r@.len() ==> !str_lt(region_keys(r@)[p as int], k@),
{
    let mut p: usize = 0;
    while p < r.len() && str_less(r[p].0.as_str(), k)
        invariant
            p <= r@.len(),
            forall|j: int| 0 <= j < p ==> str_lt(#[trigger] region_keys(r@)[j], k@),
        decreases r@.len() - p,
    {
        assert(region_keys(r@)[p as int] == r@[p as int].0@);
        p = p + 1;
    }
    if p < r.len() {
        assert(region_keys(r@)[p as int] == r@[p as int].0@);
    }
    p
}

fn add_region(r: &mut Vec<(String, Vec<String>)>, c: Ghost<Seq<ConfigPath>>, x: &ConfigPath)
    requires
        regions_of(old(r)@, c@),
        x.region is Some,
    ensures
        regions_of(final(r)@, c@.push(*x)),
{
    let ghost d = c@.push(*x);
    proof { lemma_push_sets(c@, *x); }
    let cloud = x.cloud_provider.as_str();
    let region = match &x.region { Some(g) => g.as_str(), None => "" };
    let ghost before = r@;
    let p = key_position(r, cloud);
    if p < r.len() && str_eq(r[p].0.as_str(), cloud) {
        let (k, mut list) = r.remove(p);
        assert(list@ == before[p as int].1@);
        assert(k@ == before[p as int].0@);
        assert(strictly_sorted(strings_view(list@))) by {
            assert(strictly_sorted(strings_view(before[p as int].1@)));
        }
        insert_sorted(&mut list, region);
        r.insert(p, (k, list));
        proof {
            assert(r@.len() == before.len());
            assert(forall|j: int| 0 <= j < r@.len() && j != p ==> r@[j] == before[j]);
            assert(r@[p as int].0@ == before[p as int].0@);
            assert(region_keys(r@) =~= region_keys(before));
            assert(region_keys(before).to_set().contains(cloud@)) by {
                assert(region_keys(before)[p as int] == cloud@);
            }
            assert(region_keys(r@).to_set() =~= cloud_with_region_set(d));
            assert forall|i: int| 0 <= i < r@.len() implies
                strictly_sorted(strings_view(#[trigger] r@[i].1@))
                && strings_view(r@[i].1@).to_set() == region_set(d, r@[i].0@) by {
                assert(region_set(d, r@[i].0@) == (if r@[i].0@ == x.cloud_provider@ && x.region is Some {
                    region_set(c@, r@[i].0@).insert(x.region->0@)
                } else {
                    region_set(c@, r@[i].0@)
                }));
                if i != p {
                    assert(region_keys(before)[i] != region_keys(before)[p as int]) by {
                        if i < p { assert(str_lt(region_keys(before)[i], region_keys(before)[p as int])); }
                        else { assert(str_lt(region_keys(before)[p as int], region_keys(before)[i])); }
                        lemma_str_lt_order(region_keys(before)[i], region_keys(before)[p as int]);
                    }
                }
            }
        }
    } else {
        let mut list: Vec<String> = Vec::new();
        insert_sorted(&mut list, region);
        let ghost newl = list@;
        r.insert(p, (to_owned_string(cloud), list));
        proof {
            let keys0 = region_keys(before);
            let keys1 = region_keys(r@);
            assert(keys1 =~= keys0.insert(p as int, cloud@));
            if p < before.len() {
                lemma_str_lt_order(keys0[p as int], cloud@);
            }
            assert(!keys0.contains(cloud@)) by {
                if keys0.contains(cloud@) {
                    let j = choose|j: int| 0 <= j < keys0.len() && keys0[j] == cloud@;
                    if j < p {
                        lemma_str_lt_order(keys0[j], cloud@);
                    } else if j > p {
                        assert(str_lt(keys0[p as int], keys0[j]));
                        lemma_str_lt_order(keys0[p as int], cloud@);
                        lemma_str_lt_order(keys0[j], keys0[p as int]);
                    }
                }
            }
            assert(!cloud_with_region_set(c@).contains(cloud@)) by {
                assert(keys0.to_set().contains(cloud@) == keys0.contains(cloud@));
            }
            assert(region_set(c@, cloud@) =~= Set::<Seq<char>>::empty()) by {
                assert forall|y: Seq<char>| !region_set(c@, cloud@).contains(y) by {
                    if region_set(c@, cloud@).contains(y) {
                        let i = choose|i: int| 0 <= i < c@.len() && #[trigger] c@[i].cloud_provider@ == cloud@ && opt_str(c@[i].region) == Some(y);
                        assert(cloud_with_region_set(c@).contains(cloud@));
                    }
                }
            }
            assert(strings_view(newl).to_set() =~= Set::<Seq<char>>::empty().insert(region@)) by {
                assert(strings_view(Seq::<String>::empty()).to_set() =~= Set::<Seq<char>>::empty());
            }
            assert forall|a: int, b: int| 0 <= a < b < keys1.len() implies str_lt(#[trigger] keys1[a], #[trigger] keys1[b]) by {
                if b < p {
                } else if a < p && b == p {
                } else if a < p && b > p {
                    if b - 1 > p {
                        crate::text::lemma_str_lt_trans(cloud@, keys0[p as int], keys0[b - 1]);
                    }
                    crate::text::lemma_str_lt_trans(keys0[a], cloud@, keys0[b - 1]);
                } else if a == p {
                    if b - 1 > p {
                        crate::text::lemma_str_lt_trans(cloud@, keys0[p as int], keys0[b - 1]);
                    }
                } else {
                }
            }
            assert forall|y: Seq<char>| keys1.to_set().contains(y) <==> keys0.to_set().insert(cloud@).contains(y) by {
                if keys1.contains(y) {
                    let k = choose|k: int| 0 <= k < keys1.len() && keys1[k] == y;
                    if k < p { assert(keys0[k] == y); } else if k > p { assert(keys0[k - 1] == y); }
                }
                if keys0.contains(y) {
                    let k = choose|k: int| 0 <= k < keys0.len() && keys0[k] == y;
                    if k < p { assert(keys1[k] == y); } else { assert(keys1[k + 1] == y); }
                }
                if y == cloud@ { assert(keys1[p as int] == y); }
            }
            assert(keys1.to_set() =~= cloud_with_region_set(d));
            assert forall|i: int| 0 <= i < r@.len() implies
                strictly_sorted(strings_view(#[trigger] r@[i].1@))
                && strings_view(r@[i].1@).to_set() == region_set(d, r@[i].0@) by {
                assert(region_set(d, r@[i].0@) == (if r@[i].0@ == x.cloud_provider@ && x.region is Some {
                    region_set(c@, r@[i].0@).insert(x.region->0@)
                } else {
                    region_set(c@, r@[i].0@)
                }));
                if i < p {
                    assert(r@[i] == before[i]);
                    assert(keys0[i] != cloud@);
                } else if i > p {
                    assert(r@[i] == before[i - 1]);
                    assert(keys0[i - 1] != cloud@);
                }
            }
        }
    }
}

/// Aggregates configuration paths into their taxonomy.
pub fn build_taxonomy(paths: &[ConfigPath]) -> (t: Taxonomy)
    ensures
        taxonomy_of(t, paths@),
{
    let mut tenants: Vec<String> = Vec::new();
    let mut environments: Vec<String> = Vec::new();
    let mut cloud_providers: Vec<String> = Vec::new();
    let mut regions: Vec<(String, Vec<String>)> = Vec::new();
    let mut i: usize = 0;
    proof {
        let e = paths@.subrange(0, 0);
        assert(strings_view(tenants@).to_set() =~= tenant_set(e));
        assert(strings_view(environments@).to_set() =~= environment_set(e));
        assert(strings_view(cloud_providers@).to_set() =~= cloud_set(e));
        assert(region_keys(regions@).to_set() =~= cloud_with_region_set(e));
    }
    while i < paths.len()
        invariant
            i <= paths@.len(),
            strictly_sorted(strings_view(tenants@)),
            strings_view(tenants@).to_set() == tenant_set(paths@.subrange(0, i as int)),
            strictly_sorted(strings_view(environments@)),
            strings_view(environments@).to_set() == environment_set(paths@.subrange(0, i as int)),
            strictly_sorted(strings_view(cloud_providers@)),
            strings_view(cloud_providers@).to_set() == cloud_set(paths@.subrange(0, i as int)),
            regions_of(regions@, paths@.subrange(0, i as int)),
        decreases paths@.len() - i,
    {
        let p = &paths[i];
        let ghost pre = paths@.subrange(0, i as int);
        assert(paths@.subrange(0, i + 1) =~= pre.push(*p));
        proof { lemma_push_sets(pre, *p); }
        insert_sorted(&mut tenants, p.tenant.as_str());
        insert_sorted(&mut environments, p.environment.as_str());
        insert_sorted(&mut cloud_providers, p.cloud_provider.as_str());
        if p.region.is_some() {
            add_region(&mut regions, Ghost(pre), p);
        } else {
            proof {
                assert forall|j: int| 0 <= j < regions@.len() implies
                    strictly_sorted(strings_view(#[trigger] regions@[j].1@))
                    && strings_view(regions@[j].1@).to_set() == region_set(pre.push(*p), regions@[j].0@) by {
                    assert(region_set(pre.push(*p), regions@[j].0@) == region_set(pre, regions@[j].0@));
                }
            }
        }
        i = i + 1;
    }
    assert(paths@.subrange(0, paths@.len() as int) =~= paths@);
    Taxonomy { tenants, environments, cloud_providers, regions }
}


// ── Laws of the taxonomy ───────────────────────────────────────────

/// Two strictly sorted lists with the same elements are the same list.
pub proof fn lemma_sorted_same_set_eq(s: Seq<Seq<char>>, t: Seq<Seq<char>>)
    requires
        strictly_sorted(s),
        strictly_sorted(t),
        s.to_set() == t.to_set(),
    ensures
        s == t,
    decreases s.len(),
{
    if s.len() == 0 {
        if t.len() > 0 {
            assert(t.to_set().contains(t[0]));
            assert(s.contains(t[0]));
        }
        assert(s =~= t);
    } else {
        assert(s.to_set().contains(s[0]));
        assert(t.contains(s[0]));
        let j = choose|j: int| 0 <= j < t.len() && t[j] == s[0];
        assert(t.to_set().contains(t[0]));
        assert(s.contains(t[0]));
        let i = choose|i: int| 0 <= i < s.len() && s[i] == t[0];
        lemma_str_lt_order(s[0], s[0]);
        if j > 0 {
            assert(str_lt(t[0], t[j]));
            if i > 0 {
                assert(str_lt(s[0], s[i]));
                lemma_str_lt_order(s[0], s[i]);
            }
        }
        assert(t[0] == s[0]);
        let s1 = s.drop_first();
        let t1 = t.drop_first();
        assert forall|x: Seq<char>| s1.to_set().contains(x) implies t1.to_set().contains(x) by {
            assert(s1.contains(x));
            let k = choose|k: int| 0 <= k < s1.len() && s1[k] == x;
            assert(str_lt(s[0], s[k + 1]));
            lemma_str_lt_order(s[0], s[0]);
            assert(s.to_set().contains(x));
            assert(t.contains(x));
            let m = choose|m: int| 0 <= m < t.len() && t[m] == x;
            assert(m != 0);
            assert(t1[m - 1] == x);
        }
        assert forall|x: Seq<char>| t1.to_set().contains(x) implies s1.to_set().contains(x) by {
            assert(t1.contains(x));
            let k = choose|k: int| 0 <= k < t1.len() && t1[k] == x;
            assert(str_lt(t[0], t[k + 1]));
            lemma_str_lt_order(t[0], t[0]);
            assert(t.to_set().contains(x));
            assert(s.contains(x));
            let m = choose|m: int| 0 <= m < s.len() && s[m] == x;
            assert(m != 0);
            assert(s1[m - 1] == x);
        }
        assert(s1.to_set() =~= t1.to_set());
        assert forall|a: int, b: int| 0 <= a < b < s1.len() implies str_lt(#[trigger] s1[a], #[trigger] s1[b]) by {
            assert(s1[a] == s[a + 1] && s1[b] == s[b + 1]);
        }
        assert forall|a: int, b: int| 0 <= a < b < t1.len() implies str_lt(#[trigger] t1[a], #[trigger] t1[b]) by {
            assert(t1[a] == t[a + 1] && t1[b] == t[b + 1]);
        }
        lemma_sorted_same_set_eq(s1, t1);
        assert(s =~= seq![s[0]] + s1);
        assert(t =~= seq![t[0]] + t1);
    }
}

/// Every name set of `c1` is within that of `c2` when every path of `c1`
/// occurs in `c2`.
proof fn lemma_name_sets_within(c1: Seq<ConfigPath>, c2: Seq<ConfigPath>)
    requires
        forall|i: int| 0 <= i < c1.len() ==> c2.contains(#[trigger] c1[i]),
    ensures
        tenant_set(c1).subset_of(tenant_set(c2)),
        environment_set(c1).subset_of(environment_set(c2)),
        cloud_set(c1).subset_of(cloud_set(c2)),
        cloud_with_region_set(c1).subset_of(cloud_with_region_set(c2)),
        forall|k: Seq<char>| #[trigger] region_set(c1, k).subset_of(region_set(c2, k)),
{
    assert forall|x: Seq<char>| tenant_set(c1).contains(x) implies tenant_set(c2).contains(x) by {
        let i = choose|i: int| 0 <= i < c1.len() && #[trigger] c1[i].tenant@ == x;
        assert(c2.contains(c1[i]));
        let j = choose|j: int| 0 <= j < c2.len() && c2[j] == c1[i];
        assert(c2[j].tenant@ == x);
    }
    assert forall|x: Seq<char>| environment_set(c1).contains(x) implies environment_set(c2).contains(x) by {
        let i = choose|i: int| 0 <= i < c1.len() && #[trigger] c1[i].environment@ == x;
        assert(c2.contains(c1[i]));
        let j = choose|j: int| 0 <= j < c2.len() && c2[j] == c1[i];
        assert(c2[j].environment@ == x);
    }
    assert forall|x: Seq<char>| cloud_set(c1).contains(x) implies cloud_set(c2).contains(x) by {
        let i = choose|i: int| 0 <= i < c1.len() && #[trigger] c1[i].cloud_provider@ == x;
        assert(c2.contains(c1[i]));
        let j = choose|j: int| 0 <= j < c2.len() && c2[j] == c1[i];
        assert(c2[j].cloud_provider@ == x);
    }
    assert forall|x: Seq<char>| cloud_with_region_set(c1).contains(x) implies cloud_with_region_set(c2).contains(x) by {
        let i = choose|i: int| 0 <= i < c1.len() && #[trigger] c1[i].cloud_provider@ == x && c1[i].region is Some;
        assert(c2.contains(c1[i]));
        let j = choose|j: int| 0 <= j < c2.len() && c2[j] == c1[i];
        assert(c2[j].cloud_provider@ == x && c2[j].region is Some);
    }
    assert forall|k: Seq<char>| #[trigger] region_set(c1, k).subset_of(region_set(c2, k)) by {
        assert forall|x: Seq<char>| region_set(c1, k).contains(x) implies region_set(c2, k).contains(x) by {
            let i = choose|i: int| 0 <= i < c1.len() && #[trigger] c1[i].cloud_provider@ == k && opt_str(c1[i].region) == Some(x);
            assert(c2.contains(c1[i]));
            let j = choose|j: int| 0 <= j < c2.len() && c2[j] == c1[i];
            assert(c2[j].cloud_provider@ == k && opt_str(c2[j].region) == Some(x));
        }
    }
}

/// The taxonomy depends only on which configuration paths occur: lists
/// that hold the same paths, in any order and any number of times, have
/// the same taxonomy.
pub proof fn law_taxonomy_ignores_order(t1: Taxonomy, c1: Seq<ConfigPath>, t2: Taxonomy, c2: Seq<ConfigPath>)
    requires
        taxonomy_of(t1, c1),
        taxonomy_of(t2, c2),
        c1.to_set() == c2.to_set(),
    ensures
        strings_view(t1.tenants@) == strings_view(t2.tenants@),
        strings_view(t1.environments@) == strings_view(t2.environments@),
        strings_view(t1.cloud_providers@) == strings_view(t2.cloud_providers@),
        region_keys(t1.regions@) == region_keys(t2.regions@),
        forall|i: int| 0 <= i < t1.regions@.len() ==>
            strings_view(#[trigger] t1.regions@[i].1@) == strings_view(t2.regions@[i].1@),
{
    assert forall|i: int| 0 <= i < c1.len() implies c2.contains(#[trigger] c1[i]) by {
        assert(c1.to_set().contains(c1[i]));
    }
    assert forall|i: int| 0 <= i < c2.len() implies c1.contains(#[trigger] c2[i]) by {
        assert(c2.to_set().contains(c2[i]));
    }
    lemma_name_sets_within(c1, c2);
    lemma_name_sets_within(c2, c1);
    assert(tenant_set(c1) =~= tenant_set(c2));
    assert(environment_set(c1) =~= environment_set(c2));
    assert(cloud_set(c1) =~= cloud_set(c2));
    assert(cloud_with_region_set(c1) =~= cloud_with_region_set(c2));
    lemma_sorted_same_set_eq(strings_view(t1.tenants@), strings_view(t2.tenants@));
    lemma_sorted_same_set_eq(strings_view(t1.environments@), strings_view(t2.environments@));
    lemma_sorted_same_set_eq(strings_view(t1.cloud_providers@), strings_view(t2.cloud_providers@));
    lemma_sorted_same_set_eq(region_keys(t1.regions@), region_keys(t2.regions@));
    assert forall|i: int| 0 <= i < t1.regions@.len() implies
        strings_view(#[trigger] t1.regions@[i].1@) == strings_view(t2.regions@[i].1@) by {
        let k = t1.regions@[i].0@;
        assert(region_keys(t1.regions@)[i] == k);
        assert(region_keys(t1.regions@).len() == t1.regions@.len());
        assert(region_keys(t2.regions@).len() == t2.regions@.len());
        assert(0 <= i < t2.regions@.len());
        assert(region_keys(t2.regions@)[i] == t2.regions@[i].0@);
        assert(strictly_sorted(strings_view(t2.regions@[i].1@)));
        assert(region_set(c1, k) =~= region_set(c2, k));
        lemma_sorted_same_set_eq(strings_view(t1.regions@[i].1@), strings_view(t2.regions@[i].1@));
    }
}

/// The taxonomy of two lists of configuration paths joined holds the
/// names of both: each of its name sets is the union of theirs.
pub proof fn law_taxonomy_of_concat(t: Taxonomy, a: Seq<ConfigPath>, b: Seq<ConfigPath>)
    requires
        taxonomy_of(t, a + b),
    ensures
        strings_view(t.tenants@).to_set() == tenant_set(a).union(tenant_set(b)),
        strings_view(t.environments@).to_set() == environment_set(a).union(environment_set(b)),
        strings_view(t.cloud_providers@).to_set() == cloud_set(a).union(cloud_set(b)),
        region_keys(t.regions@).to_set() == cloud_with_region_set(a).union(cloud_with_region_set(b)),
        forall|i: int| 0 <= i < t.regions@.len() ==>
            strings_view(#[trigger] t.regions@[i].1@).to_set()
                == region_set(a, t.regions@[i].0@).union(region_set(b, t.regions@[i].0@)),
{
    let ab = a + b;
    assert forall|i: int| 0 <= i < a.len() implies ab.contains(#[trigger] a[i]) by {
        assert(ab[i] == a[i]);
    }
    assert forall|i: int| 0 <= i < b.len() implies ab.contains(#[trigger] b[i]) by {
        assert(ab[a.len() + i] == b[i]);
    }
    lemma_name_sets_within(a, ab);
    lemma_name_sets_within(b, ab);
    assert forall|x: Seq<char>| tenant_set(ab).contains(x) implies tenant_set(a).union(tenant_set(b)).contains(x) by {
        let i = choose|i: int| 0 <= i < ab.len() && #[trigger] ab[i].tenant@ == x;
        if i < a.len() { assert(a[i] == ab[i]); } else { assert(b[i - a.len()] == ab[i]); }
    }
    assert forall|x: Seq<char>| environment_set(ab).contains(x) implies environment_set(a).union(environment_set(b)).contains(x) by {
        let i = choose|i: int| 0 <= i < ab.len() && #[trigger] ab[i].environment@ == x;
        if i < a.len() { assert(a[i] == ab[i]); } else { assert(b[i - a.len()] == ab[i]); }
    }
    assert forall|x: Seq<char>| cloud_set(ab).contains(x) implies cloud_set(a).union(cloud_set(b)).contains(x) by {
        let i = choose|i: int| 0 <= i < ab.len() && #[trigger] ab[i].cloud_provider@ == x;
        if i < a.len() { assert(a[i] == ab[i]); } else { assert(b[i - a.len()] == ab[i]); }
    }
    assert forall|x: Seq<char>| cloud_with_region_set(ab).contains(x) implies cloud_with_region_set(a).union(cloud_with_region_set(b)).contains(x) by {
        let i = choose|i: int| 0 <= i < ab.len() && #[trigger] ab[i].cloud_provider@ == x && ab[i].region is Some;
        if i < a.len() { assert(a[i] == ab[i]); } else { assert(b[i - a.len()] == ab[i]); }
    }
    assert(tenant_set(ab) =~= tenant_set(a).union(tenant_set(b)));
    assert(environment_set(ab) =~= environment_set(a).union(environment_set(b)));
    assert(cloud_set(ab) =~= cloud_set(a).union(cloud_set(b)));
    assert(cloud_with_region_set(ab) =~= cloud_with_region_set(a).union(cloud_with_region_set(b)));
    assert forall|i: int| 0 <= i < t.regions@.len() implies
        strings_view(#[trigger] t.regions@[i].1@).to_set() == region_set(a, t.regions@[i].0@).union(region_set(b, t.regions@[i].0@)) by {
        let k = t.regions@[i].0@;
        assert forall|x: Seq<char>| region_set(ab, k).contains(x) implies region_set(a, k).union(region_set(b, k)).contains(x) by {
            let j = choose|j: int| 0 <= j < ab.len() && #[trigger] ab[j].cloud_provider@ == k && opt_str(ab[j].region) == Some(x);
            if j < a.len() { assert(a[j] == ab[j]); } else { assert(b[j - a.len()] == ab[j]); }
        }
        assert(region_set(a, k).subset_of(region_set(ab, k)));
        assert(region_set(b, k).subset_of(region_set(ab, k)));
        assert(region_set(ab, k) =~= region_set(a, k).union(region_set(b, k)));
    }
}

} // verus!
