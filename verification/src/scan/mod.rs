//! Directory analysis and topology mapping for GitOps repositories:
//! ArgoCD ApplicationSets, Helm charts and environment hierarchies,
//! assembled into a typed topology graph and reported as values, DOT or
//! summary statistics.
use vstd::prelude::*;

pub mod config;
pub mod discovery;
pub mod environments;
pub mod argocd;
pub mod helm;
pub mod topology;
pub mod report;
pub mod modules;

verus! {

/// Errors that can occur during scanning.
#[derive(Debug)]
pub enum ScanError {
    /// Reading the tree failed.
    Io(std::io::Error),
    /// A YAML document did not parse.
    YamlParse { path: String, message: String },
    /// A required field is missing.
    MissingField { field: String, path: String },
    /// A document has an unexpected shape.
    UnexpectedStructure { path: String, message: String },
}

} // verus!
