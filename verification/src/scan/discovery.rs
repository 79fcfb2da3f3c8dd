//! File discovery: list the files below a root, keep those with a
//! configured extension, and classify each by its name and location.
use vstd::prelude::*;
use crate::scan::config::{ScanConfig, env_dir_label};
use crate::text::{rooted, rooted_components, str_less, str_lt, lemma_str_lt_order, lemma_str_lt_trans, push_str, strings_contain, chars_of, strings_view, contains_str, contains_seq, str_eq, to_lowercase, lowercase_of, file_name, extension, file_name_spec, extension_spec, to_owned_string};

verus! {

broadcast use vstd::seq_lib::group_to_multiset_ensures;

/// `std::io::Error`, the error a [`FileSystem`] reports.
#[verifier::external_type_specification]
#[verifier::external_body]
pub struct ExIoError(std::io::Error);

/// A file found during scanning.
#[derive(Debug)]
pub struct DiscoveredFile {
    /// Path of the file.
    pub path: String,
    /// Wire format, from the extension.
    pub format: FileFormat,
    /// Semantic category, from the name and location.
    pub category: FileCategory,
}

/// Wire format of a discovered file.
#[derive(Debug, Clone, Copy, PartialEq, Eq, Structural, Hash)]
pub enum FileFormat {
    Yaml,
    Json,
    Other,
}

/// Semantic category of a discovered file within the repository.
#[derive(Debug, Clone, Copy, PartialEq, Eq, Structural, Hash)]
pub enum FileCategory {
    /// An ArgoCD ApplicationSet YAML.
    ApplicationSet,
    /// A Helm `Chart.yaml`.
    Chart,
    /// A Helm values file.
    Values,
    /// An ArgoCD cluster configuration file.
    Config,
    /// Anything else.
    Unknown,
}

/// Filesystem access, abstracted so that scans can run over any tree.
/// Paths are `/`-separated strings.
pub trait FileSystem {
    /// Every file below `root`, recursively.
    fn walk_files(&self, root: &str) -> std::io::Result<Vec<String>>;
    /// The contents of a file.
    fn read_file(&self, path: &str) -> std::io::Result<Vec<u8>>;
}

// ── Path order ─────────────────────────────────────────────────────

/// The sort key of one path component, ranked as `std::path::Component`
/// orders them: the root, then `.`, then `..`, then a named component by
/// its text.
pub open spec fn component_key(c: Seq<char>) -> Seq<char> {
    if c == "/"@ {
        seq!['\u{1}']
    } else if c == "."@ {
        seq!['\u{2}']
    } else if c == ".."@ {
        seq!['\u{3}']
    } else {
        seq!['\u{4}'] + c
    }
}

/// The sort key of a path: the keys of its components, root first.
pub open spec fn path_key(p: Seq<char>) -> Seq<Seq<char>> {
    let c = rooted_components(p);
    Seq::new(c.len(), |i: int| component_key(c[i]))
}

/// Lexicographic order over lists of keys, each compared by [`str_lt`].
pub open spec fn keys_lt(a: Seq<Seq<char>>, b: Seq<Seq<char>>) -> bool
    decreases a.len(),
{
    if a.len() == 0 {
        b.len() > 0
    } else if b.len() == 0 {
        false
    } else if a[0] != b[0] {
        str_lt(a[0], b[0])
    } else {
        keys_lt(a.drop_first(), b.drop_first())
    }
}

/// Strict path order, as `Path` orders paths: component by component.
pub open spec fn path_lt(a: Seq<char>, b: Seq<char>) -> bool {
    keys_lt(path_key(a), path_key(b))
}

/// The first position in `s` whose path comes after `x`.
pub open spec fn first_after(s: Seq<Seq<char>>, x: Seq<char>) -> int
    decreases s.len(),
{
    if s.len() == 0 {
        0
    } else if path_lt(x, s[0]) {
        0
    } else {
        1 + first_after(s.drop_first(), x)
    }
}

/// `v` sorted stably in path order: each path goes after every path
/// before it that does not come after it, so paths with the same
/// components keep their order, as a stable sort leaves them.
pub open spec fn sorted_paths(v: Seq<Seq<char>>) -> Seq<Seq<char>>
    decreases v.len(),
{
    if v.len() == 0 {
        Seq::empty()
    } else {
        let s = sorted_paths(v.drop_last());
        s.insert(first_after(s, v.last()), v.last())
    }
}

proof fn lemma_first_after_bounds(s: Seq<Seq<char>>, x: Seq<char>)
    ensures
        0 <= first_after(s, x) <= s.len(),
    decreases s.len(),
{
    if s.len() > 0 && !path_lt(x, s[0]) {
        lemma_first_after_bounds(s.drop_first(), x);
    }
}

proof fn lemma_keys_lt_trans(a: Seq<Seq<char>>, b: Seq<Seq<char>>, c: Seq<Seq<char>>)
    requires
        keys_lt(a, b),
        keys_lt(b, c),
    ensures
        keys_lt(a, c),
    decreases a.len(),
{
    if a.len() > 0 && b.len() > 0 && c.len() > 0 {
        if a[0] == b[0] && b[0] == c[0] {
            lemma_keys_lt_trans(a.drop_first(), b.drop_first(), c.drop_first());
        } else if a[0] == b[0] {
        } else if b[0] == c[0] {
        } else {
            lemma_str_lt_trans(a[0], b[0], c[0]);
            if a[0] == c[0] {
                lemma_str_lt_order(a[0], b[0]);
            }
        }
    }
}

/// No path of the list comes before one placed earlier.
pub open spec fn in_path_order(s: Seq<Seq<char>>) -> bool {
    forall|i: int, j: int| 0 <= i < j < s.len() ==> !path_lt(#[trigger] s[j], #[trigger] s[i])
}

/// Sorting keeps every path and puts them in path order.
pub proof fn law_sorted_paths(v: Seq<Seq<char>>)
    ensures
        in_path_order(sorted_paths(v)),
        sorted_paths(v).to_multiset() == v.to_multiset(),
    decreases v.len(),
{
    if v.len() == 0 {
        assert(v =~= Seq::<Seq<char>>::empty());
    } else {
        let w = v.drop_last();
        let x = v.last();
        law_sorted_paths(w);
        let s = sorted_paths(w);
        let p = first_after(s, x);
        lemma_first_after_bounds(s, x);
        lemma_first_after_spot(s, x);
        let r = s.insert(p, x);
        vstd::seq_lib::to_multiset_insert(s, p, x);
        assert(v =~= w.push(x));
        vstd::seq_lib::lemma_multiset_commutative(w, seq![x]);
        assert(w.push(x) =~= w + seq![x]);
        assert(r.to_multiset() =~= v.to_multiset());
        assert forall|i: int, j: int| 0 <= i < j < r.len() implies !path_lt(#[trigger] r[j], #[trigger] r[i]) by {
            if j < p {
                assert(r[i] == s[i] && r[j] == s[j]);
            } else if j == p {
                assert(r[i] == s[i] && r[j] == x);
            } else if i < p {
                assert(r[i] == s[i] && r[j] == s[j - 1]);
            } else if i == p {
                assert(r[i] == x && r[j] == s[j - 1]);
                if path_lt(s[j - 1], x) {
                    assert(path_lt(x, s[p]));
                    lemma_keys_lt_trans(path_key(s[j - 1]), path_key(x), path_key(s[p]));
                    if j - 1 > p {
                        assert(!path_lt(s[j - 1], s[p]));
                    } else {
                        lemma_keys_irrefl(path_key(s[p]));
                    }
                }
            } else {
                assert(r[i] == s[i - 1] && r[j] == s[j - 1]);
            }
        }
    }
}

proof fn lemma_keys_irrefl(a: Seq<Seq<char>>)
    ensures
        !keys_lt(a, a),
    decreases a.len(),
{
    if a.len() > 0 {
        lemma_keys_irrefl(a.drop_first());
    }
}

proof fn lemma_first_after_spot(s: Seq<Seq<char>>, x: Seq<char>)
    ensures
        forall|k: int| 0 <= k < first_after(s, x) ==> !path_lt(x, #[trigger] s[k]),
        first_after(s, x) < s.len() ==> path_lt(x, s[first_after(s, x)]),
    decreases s.len(),
{
    if s.len() > 0 && !path_lt(x, s[0]) {
        lemma_first_after_spot(s.drop_first(), x);
        lemma_first_after_bounds(s.drop_first(), x);
        let p = first_after(s, x);
        assert forall|k: int| 0 <= k < p implies !path_lt(x, #[trigger] s[k]) by {
            if k > 0 {
                assert(s[k] == s.drop_first()[k - 1]);
            }
        }
        if p < s.len() {
            assert(s[p] == s.drop_first()[p - 1]);
        }
    }
}

proof fn lemma_component_key_injective(p: Seq<char>, q: Seq<char>)
    ensures
        component_key(p) == component_key(q) ==> p == q,
{
    reveal_strlit("/");
    reveal_strlit(".");
    reveal_strlit("..");
    let kp = component_key(p);
    let kq = component_key(q);
    let sp = p == "/"@ || p == "."@ || p == ".."@;
    let sq = q == "/"@ || q == "."@ || q == ".."@;
    if kp == kq {
        assert(kp[0] == kq[0]);
        if !sp && !sq {
            assert(p =~= kp.drop_first());
            assert(q =~= kq.drop_first());
        } else if sp && !sq {
            assert(kp[0] != '\u{4}');
            assert(kq[0] == '\u{4}');
        } else if !sp && sq {
            assert(kq[0] != '\u{4}');
            assert(kp[0] == '\u{4}');
        }
    }
}

fn component_rank(c: &str) -> (r: u8)
    ensures
        r == (if c@ == "/"@ { 1u8 } else if c@ == "."@ { 2u8 } else if c@ == ".."@ { 3u8 } else { 4u8 }),
{
    if str_eq(c, "/") {
        1
    } else if str_eq(c, ".") {
        2
    } else if str_eq(c, "..") {
        3
    } else {
        4
    }
}

fn component_less(x: &str, y: &str) -> (r: bool)
    ensures
        r == str_lt(component_key(x@), component_key(y@)),
{
    proof {
        reveal_strlit("/");
        reveal_strlit(".");
        reveal_strlit("..");
    }
    let rx = component_rank(x);
    let ry = component_rank(y);
    let ghost kx = component_key(x@);
    let ghost ky = component_key(y@);
    if rx != ry {
        assert(kx[0] as u32 == rx as u32 && ky[0] as u32 == ry as u32);
        rx < ry
    } else if rx < 4 {
        assert(kx =~= ky);
        proof { lemma_str_lt_order(kx, kx); }
        false
    } else {
        assert(kx.drop_first() =~= x@);
        assert(ky.drop_first() =~= y@);
        assert(kx[0] == ky[0]);
        str_less(x, y)
    }
}

/// Compares two paths in path order.
pub fn path_less(a: &str, b: &str) -> (r: bool)
    ensures
        r == path_lt(a@, b@),
{
    let x = rooted(a);
    let y = rooted(b);
    let ghost ka = path_key(a@);
    let ghost kb = path_key(b@);
    let mut i: usize = 0;
    assert(ka.subrange(0, ka.len() as int) =~= ka);
    assert(kb.subrange(0, kb.len() as int) =~= kb);
    while i < x.len() && i < y.len() && str_eq(x[i].as_str(), y[i].as_str())
        invariant
            strings_view(x@) == rooted_components(a@),
            strings_view(y@) == rooted_components(b@),
            ka == path_key(a@),
            kb == path_key(b@),
            i <= x@.len(),
            i <= y@.len(),
            keys_lt(ka, kb) == keys_lt(ka.subrange(i as int, ka.len() as int), kb.subrange(i as int, kb.len() as int)),
        decreases x@.len() - i,
    {
        let ghost sa = ka.subrange(i as int, ka.len() as int);
        let ghost sb = kb.subrange(i as int, kb.len() as int);
        assert(sa.drop_first() =~= ka.subrange(i + 1, ka.len() as int));
        assert(sb.drop_first() =~= kb.subrange(i + 1, kb.len() as int));
        assert(sa[0] == component_key(x@[i as int]@));
        assert(sb[0] == component_key(y@[i as int]@));
        i = i + 1;
    }
    let ghost sa = ka.subrange(i as int, ka.len() as int);
    let ghost sb = kb.subrange(i as int, kb.len() as int);
    if i < x.len() && i < y.len() {
        assert(sa[0] == component_key(x@[i as int]@));
        assert(sb[0] == component_key(y@[i as int]@));
        assert(x@[i as int]@ != y@[i as int]@);
        proof { lemma_component_key_injective(x@[i as int]@, y@[i as int]@); }
        component_less(x[i].as_str(), y[i].as_str())
    } else {
        i >= x.len() && i < y.len()
    }
}

/// Sorts paths stably into path order.
pub fn sort_paths(v: Vec<String>) -> (r: Vec<String>)
    ensures
        strings_view(r@) == sorted_paths(strings_view(v@)),
{
    let mut r: Vec<String> = Vec::new();
    let mut i: usize = 0;
    let ghost vv = strings_view(v@);
    assert(vv.subrange(0, 0) =~= Seq::<Seq<char>>::empty());
    while i < v.len()
        invariant
            vv == strings_view(v@),
            i <= v@.len(),
            strings_view(r@) == sorted_paths(vv.subrange(0, i as int)),
        decreases v@.len() - i,
    {
        let x = &v[i];
        let ghost before = strings_view(r@);
        let mut p: usize = 0;
        assert(before.subrange(0, before.len() as int) =~= before);
        while p < r.len() && !path_less(x.as_str(), r[p].as_str())
            invariant
                before == strings_view(r@),
                p <= r@.len(),
                first_after(before, x@) == p + first_after(before.subrange(p as int, before.len() as int), x@),
            decreases r@.len() - p,
        {
            let ghost rest = before.subrange(p as int, before.len() as int);
            assert(rest[0] == r@[p as int]@);
            assert(rest.drop_first() =~= before.subrange(p + 1, before.len() as int));
            p = p + 1;
        }
        proof {
            let rest = before.subrange(p as int, before.len() as int);
            if p < r@.len() {
                assert(rest[0] == r@[p as int]@);
            }
            let w = vv.subrange(0, i + 1);
            assert(w.drop_last() =~= vv.subrange(0, i as int));
            assert(w.last() == x@);
        }
        r.insert(p, x.clone());
        assert(strings_view(r@) =~= before.insert(p as int, x@));
        i = i + 1;
    }
    assert(vv.subrange(0, v@.len() as int) =~= vv);
    r
}


// ── Classification ─────────────────────────────────────────────────

/// Model of a discovered file.
pub open spec fn discovered_view(f: DiscoveredFile) -> (Seq<char>, FileFormat, FileCategory) {
    (f.path@, f.format, f.category)
}

/// Model of a list of discovered files.
pub open spec fn discovered_views(s: Seq<DiscoveredFile>) -> Seq<(Seq<char>, FileFormat, FileCategory)> {
    Seq::new(s.len(), |i: int| discovered_view(s[i]))
}

/// The extension is a YAML one.
pub open spec fn is_yaml_ext(e: Option<Seq<char>>) -> bool {
    e == Some("yaml"@) || e == Some("yml"@)
}

/// Wire format from a path's extension.
pub open spec fn format_of(path: Seq<char>) -> FileFormat {
    let e = extension_spec(path);
    if is_yaml_ext(e) {
        FileFormat::Yaml
    } else if e == Some("json"@) {
        FileFormat::Json
    } else {
        FileFormat::Other
    }
}

/// The file name, or the empty string when the path has none.
pub open spec fn name_or_empty(path: Seq<char>) -> Seq<char> {
    match file_name_spec(path) {
        Some(n) => n,
        None => Seq::empty(),
    }
}

/// Some marker occurs in the path.
pub open spec fn has_marker(path: Seq<char>, markers: Seq<Seq<char>>) -> bool {
    exists|i: int| 0 <= i < markers.len() && contains_seq(path, #[trigger] markers[i])
}

/// Some directory labelled `helm_values` occurs in the path.
pub open spec fn under_values_dir(path: Seq<char>, m: Seq<(Seq<char>, Seq<char>)>) -> bool {
    exists|i: int|
        0 <= i < m.len() && env_dir_label(m, #[trigger] m[i].0) == "helm_values"@ && contains_seq(path, m[i].0)
}

/// The category of a path under a configuration and a marker list.
pub open spec fn classify_spec(path: Seq<char>, cfg: ScanConfig, markers: Seq<Seq<char>>) -> FileCategory {
    let name = name_or_empty(path);
    if name == cfg.chart_filename@ {
        FileCategory::Chart
    } else if has_marker(path, markers) && is_yaml_ext(extension_spec(path)) {
        FileCategory::ApplicationSet
    } else if contains_seq(path, "/"@ + cfg.argocd_config_dir@ + "/"@) && name == cfg.argocd_config_filename@ {
        FileCategory::Config
    } else if under_values_dir(path, cfg.type_map()) {
        FileCategory::Values
    } else {
        FileCategory::Unknown
    }
}

/// The lowercased extension used to filter files (empty when none).
pub open spec fn ext_key(path: Seq<char>) -> Seq<char> {
    lowercase_of(
        match extension_spec(path) {
            Some(e) => e,
            None => Seq::empty(),
        },
    )
}

/// The files kept among the first `n` paths, each classified.
pub open spec fn discover_seq(paths: Seq<Seq<char>>, cfg: ScanConfig, n: int) -> Seq<(Seq<char>, FileFormat, FileCategory)>
    decreases n,
{
    if n <= 0 || n > paths.len() {
        Seq::empty()
    } else {
        let pre = discover_seq(paths, cfg, n - 1);
        let p = paths[n - 1];
        if strings_view(cfg.extensions@).contains(ext_key(p)) {
            pre.push((p, format_of(p), classify_spec(p, cfg, strings_view(cfg.appset_dir_markers@))))
        } else {
            pre
        }
    }
}

/// All discovered files of a listing: sorted in path order, filtered by
/// extension, classified.
pub open spec fn discover_spec(listing: Seq<Seq<char>>, cfg: ScanConfig) -> Seq<(Seq<char>, FileFormat, FileCategory)> {
    let sorted = sorted_paths(listing);
    discover_seq(sorted, cfg, sorted.len() as int)
}

fn any_marker(path: &str, markers: &Vec<String>) -> (r: bool)
    ensures
        r == has_marker(path@, strings_view(markers@)),
{
    let mut i: usize = 0;
    while i < markers.len()
        invariant
            i <= markers@.len(),
            forall|j: int| 0 <= j < i ==> !contains_seq(path@, #[trigger] strings_view(markers@)[j]),
        decreases markers@.len() - i,
    {
        if contains_str(path, markers[i].as_str()) {
            assert(contains_seq(path@, strings_view(markers@)[i as int]));
            return true;
        }
        i = i + 1;
    }
    false
}

fn any_values_dir(path: &str, config: &ScanConfig) -> (r: bool)
    ensures
        r == under_values_dir(path@, config.type_map()),
{
    let m = &config.env_dir_type_map;
    let ghost tm = config.type_map();
    let mut i: usize = 0;
    while i < m.len()
        invariant
            m@ == config.env_dir_type_map@,
            tm == config.type_map(),
            i <= m@.len(),
            forall|j: int| 0 <= j < i ==> !(env_dir_label(tm, #[trigger] tm[j].0) == "helm_values"@ && contains_seq(path@, tm[j].0)),
        decreases m@.len() - i,
    {
        assert(tm[i as int].0 == m@[i as int].0@);
        let label = config.classify_env_dir(m[i].0.as_str());
        if str_eq(label.as_str(), "helm_values") && contains_str(path, m[i].0.as_str()) {
            return true;
        }
        i = i + 1;
    }
    false
}

/// Classifies a path into a semantic category.
pub fn classify_file(path: &str, config: &ScanConfig, appset_markers: &Vec<String>) -> (r: FileCategory)
    ensures
        r == classify_spec(path@, *config, strings_view(appset_markers@)),
{
    let name = match file_name(path) {
        Some(n) => n,
        None => String::new(),
    };
    assert(name@ == name_or_empty(path@));
    if str_eq(name.as_str(), config.chart_filename.as_str()) {
        return FileCategory::Chart;
    }
    if any_marker(path, appset_markers) {
        let e = extension(path);
        let yaml = match &e {
            Some(x) => str_eq(x.as_str(), "yaml") || str_eq(x.as_str(), "yml"),
            None => false,
        };
        if yaml {
            return FileCategory::ApplicationSet;
        }
    }
    let mut pattern = to_owned_string("/");
    push_str(&mut pattern, config.argocd_config_dir.as_str());
    push_str(&mut pattern, "/");
    if contains_str(path, pattern.as_str()) && str_eq(name.as_str(), config.argocd_config_filename.as_str()) {
        return FileCategory::Config;
    }
    if any_values_dir(path, config) {
        return FileCategory::Values;
    }
    FileCategory::Unknown
}

fn format_from(path: &str) -> (r: FileFormat)
    ensures
        r == format_of(path@),
{
    match extension(path) {
        Some(x) => {
            if str_eq(x.as_str(), "yaml") || str_eq(x.as_str(), "yml") {
                FileFormat::Yaml
            } else if str_eq(x.as_str(), "json") {
                FileFormat::Json
            } else {
                FileFormat::Other
            }
        },
        None => FileFormat::Other,
    }
}

proof fn lemma_same_set_contains(a: Seq<Seq<char>>, b: Seq<Seq<char>>, x: Seq<char>)
    requires
        a.to_set() == b.to_set(),
    ensures
        a.contains(x) == b.contains(x),
{
    assert(a.to_set().contains(x) == a.contains(x));
    assert(b.to_set().contains(x) == b.contains(x));
}

proof fn lemma_same_set_marker(path: Seq<char>, a: Seq<Seq<char>>, b: Seq<Seq<char>>)
    requires
        a.to_set() == b.to_set(),
    ensures
        has_marker(path, a) == has_marker(path, b),
{
    if has_marker(path, a) {
        let i = choose|i: int| 0 <= i < a.len() && contains_seq(path, #[trigger] a[i]);
        lemma_same_set_contains(a, b, a[i]);
        let j = choose|j: int| 0 <= j < b.len() && b[j] == a[i];
        assert(contains_seq(path, b[j]));
    }
    if has_marker(path, b) {
        let i = choose|i: int| 0 <= i < b.len() && contains_seq(path, #[trigger] b[i]);
        lemma_same_set_contains(a, b, b[i]);
        let j = choose|j: int| 0 <= j < a.len() && a[j] == b[i];
        assert(contains_seq(path, a[j]));
    }
}

/// Discovers the files of a listing, as [`discover_spec`] states.
pub fn discover_listing(listing: Vec<String>, config: &ScanConfig) -> (r: Vec<DiscoveredFile>)
    ensures
        discovered_views(r@) == discover_spec(strings_view(listing@), *config),
{
    let extensions = config.extension_set();
    let markers = config.appset_marker_set();
    let sorted = sort_paths(listing);
    let ghost sv = strings_view(sorted@);
    let mut out: Vec<DiscoveredFile> = Vec::new();
    let mut i: usize = 0;
    assert(discovered_views(out@) =~= discover_seq(sv, *config, 0));
    while i < sorted.len()
        invariant
            sv == strings_view(sorted@),
            i <= sorted@.len(),
            strings_view(extensions@).to_set() == strings_view(config.extensions@).to_set(),
            strings_view(markers@).to_set() == strings_view(config.appset_dir_markers@).to_set(),
            discovered_views(out@) == discover_seq(sv, *config, i as int),
        decreases sorted@.len() - i,
    {
        let path = sorted[i].as_str();
        assert(sv[i as int] == path@);
        let e = match extension(path) {
            Some(x) => x,
            None => String::new(),
        };
        let key = to_lowercase(e.as_str());
        assert(key@ == ext_key(path@));
        proof {
            lemma_same_set_contains(strings_view(extensions@), strings_view(config.extensions@), key@);
            lemma_same_set_marker(path@, strings_view(markers@), strings_view(config.appset_dir_markers@));
        }
        let ghost before = discovered_views(out@);
        if strings_contain(&extensions, key.as_str()) {
            let format = format_from(path);
            let category = classify_file(path, config, &markers);
            out.push(DiscoveredFile { path: to_owned_string(path), format, category });
            assert(discovered_views(out@) =~= before.push((path@, format, category)));
        }
        i = i + 1;
    }
    out
}

/// Discovers the files below `root` on `fs` that match the configuration,
/// in path order.  Whatever the listing holds, the result is exactly
/// [`discover_listing`] of it; an error of the listing is handed back.
pub fn discover_files<F: FileSystem>(fs: &F, root: &str, config: &ScanConfig) -> (r: std::io::Result<Vec<DiscoveredFile>>)
    ensures
        r matches Ok(v) ==> exists|l: Seq<Seq<char>>| discovered_views(v@) == discover_spec(l, *config),
{
    match fs.walk_files(root) {
        Ok(listing) => {
            let v = discover_listing(listing, config);
            assert(discovered_views(v@) == discover_spec(strings_view(listing@), *config));
            Ok(v)
        },
        Err(e) => Err(e),
    }
}

} // verus!
