//! `dq`: a universal structured-data toolkit.  Every format parses into one
//! value model; queries, merges, scans of GitOps repositories and their
//! visual reports all operate on it.
use vstd::prelude::*;

pub mod text;
pub mod value;
pub mod error;
pub mod merge;
pub mod flat_keys;
pub mod formats;
pub mod hcl_syntax;
pub mod query;
pub mod path;
pub mod viz;
pub mod terragrunt;
pub mod verify_mermaid;
pub mod scan;

verus! {
}
