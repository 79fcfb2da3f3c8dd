//! Static views of a scanned topology: self-contained HTML pages and
//! GitHub-flavoured Markdown with Mermaid diagrams.
pub mod html;
pub mod index;
pub mod groups;
pub mod dep_walk;
pub mod mermaid;
pub mod deploy_graph;
pub mod chart_deps;
pub mod matrix;
