//! Scan configuration: every directory name, file type mapping and marker
//! that drives discovery and classification.
use vstd::prelude::*;
use crate::text::{dedup_strings, str_eq, strings_view, to_owned_string};

verus! {

/// Complete scan configuration for a GitOps repository.
#[derive(Debug, Clone)]
pub struct ScanConfig {
    /// Name of the environments directory relative to the repository root.
    pub environments_dir: String,
    /// Directory markers under which YAML files are ApplicationSets.
    pub appset_dir_markers: Vec<String>,
    /// Base file name of Helm chart metadata.
    pub chart_filename: String,
    /// File extensions included in discovery.
    pub extensions: Vec<String>,
    /// Directory names inside the environment hierarchy, each with the
    /// semantic label of the files below it.  Lookups use the first entry
    /// with a given name.
    pub env_dir_type_map: Vec<(String, String)>,
    /// Directory holding ArgoCD cluster configuration files.
    pub argocd_config_dir: String,
    /// File name of an ArgoCD cluster configuration file.
    pub argocd_config_filename: String,
    /// Root of the Terraform module tree, relative to the repository root.
    pub terraform_modules_root: String,
}

/// Model of a name-to-label table.
pub open spec fn pairs_model(m: Seq<(String, String)>) -> Seq<(Seq<char>, Seq<char>)> {
    Seq::new(m.len(), |i: int| (m[i].0@, m[i].1@))
}

/// The label of the first entry named `k`, if any.
pub open spec fn lookup_label(m: Seq<(Seq<char>, Seq<char>)>, k: Seq<char>) -> Option<Seq<char>>
    decreases m.len(),
{
    if m.len() == 0 {
        None
    } else if m[0].0 == k {
        Some(m[0].1)
    } else {
        lookup_label(m.drop_first(), k)
    }
}

/// The label `classify_env_dir` gives a directory name.
pub open spec fn env_dir_label(m: Seq<(Seq<char>, Seq<char>)>, k: Seq<char>) -> Seq<char> {
    match lookup_label(m, k) {
        Some(l) => l,
        None => "other"@,
    }
}

impl ScanConfig {
    /// Model of the directory-type table.
    pub open spec fn type_map(&self) -> Seq<(Seq<char>, Seq<char>)> {
        pairs_model(self.env_dir_type_map@)
    }

    /// The configured extensions, each once.
    pub fn extension_set(&self) -> (r: Vec<String>)
        ensures
            strings_view(r@).no_duplicates(),
            strings_view(r@).to_set() == strings_view(self.extensions@).to_set(),
    {
        dedup_strings(&self.extensions)
    }

    /// The configured ApplicationSet directory markers, each once.
    pub fn appset_marker_set(&self) -> (r: Vec<String>)
        ensures
            strings_view(r@).no_duplicates(),
            strings_view(r@).to_set() == strings_view(self.appset_dir_markers@).to_set(),
    {
        dedup_strings(&self.appset_dir_markers)
    }

    /// The label of a directory in the environment hierarchy, or `"other"`
    /// when the directory is not mapped.
    pub fn classify_env_dir(&self, dir_name: &str) -> (r: String)
        ensures
            r@ == env_dir_label(self.type_map(), dir_name@),
    {
        let m = &self.env_dir_type_map;
        let mut i: usize = 0;
        assert(pairs_model(m@).subrange(0, m@.len() as int) =~= pairs_model(m@));
        while i < m.len()
            invariant
                m@ == self.env_dir_type_map@,
                i <= m@.len(),
                lookup_label(pairs_model(m@), dir_name@) == lookup_label(pairs_model(m@).subrange(i as int, m@.len() as int), dir_name@),
            decreases m@.len() - i,
        {
            let ghost rest = pairs_model(m@).subrange(i as int, m@.len() as int);
            assert(rest.drop_first() =~= pairs_model(m@).subrange(i + 1, m@.len() as int));
            assert(rest[0] == (m@[i as int].0@, m@[i as int].1@));
            if str_eq(m[i].0.as_str(), dir_name) {
                assert(lookup_label(rest, dir_name@) == Some(m@[i as int].1@));
                let r = to_owned_string(m[i].1.as_str());
                assert(r@ == env_dir_label(self.type_map(), dir_name@));
                return r;
            }
            i = i + 1;
        }
        assert(pairs_model(m@).subrange(i as int, m@.len() as int).len() == 0);
        let r = to_owned_string("other");
        assert(r@ == env_dir_label(self.type_map(), dir_name@));
        r
    }
}

impl Default for ScanConfig {
    fn default() -> (r: Self)
        ensures
            r.environments_dir@ == "environments"@,
            strings_view(r.appset_dir_markers@) == seq!["cluster-generator"@, "git-generator"@],
            r.chart_filename@ == "Chart.yaml"@,
            strings_view(r.extensions@) == seq!["yaml"@, "yml"@, "json"@],
            pairs_model(r.env_dir_type_map@) == seq![("helm_values_files"@, "helm_values"@), ("argocd"@, "argocd_config"@)],
            r.argocd_config_dir@ == "argocd"@,
            r.argocd_config_filename@ == "config.json"@,
            r.terraform_modules_root@ == "saas/terraform/modules/"@,
    {
        let r = ScanConfig {
            environments_dir: to_owned_string("environments"),
            appset_dir_markers: vec![to_owned_string("cluster-generator"), to_owned_string("git-generator")],
            chart_filename: to_owned_string("Chart.yaml"),
            extensions: vec![to_owned_string("yaml"), to_owned_string("yml"), to_owned_string("json")],
            env_dir_type_map: vec![
                (to_owned_string("helm_values_files"), to_owned_string("helm_values")),
                (to_owned_string("argocd"), to_owned_string("argocd_config")),
            ],
            argocd_config_dir: to_owned_string("argocd"),
            argocd_config_filename: to_owned_string("config.json"),
            terraform_modules_root: to_owned_string("saas/terraform/modules/"),
        };
        assert(strings_view(r.appset_dir_markers@) =~= seq!["cluster-generator"@, "git-generator"@]);
        assert(strings_view(r.extensions@) =~= seq!["yaml"@, "yml"@, "json"@]);
        assert(pairs_model(r.env_dir_type_map@) =~= seq![("helm_values_files"@, "helm_values"@), ("argocd"@, "argocd_config"@)]);
        r
    }
}

} // verus!
