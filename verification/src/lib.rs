//! Quality-gate evidence adapters: tool-report normalization, signed-envelope
//! encoding, declaration markers and archive inventories, each with a contract.

pub mod text;
pub mod reports;
pub mod attestation;
pub mod policy_approval;
pub mod syntax;
pub mod rules;
pub mod json;
pub mod xml;
pub mod digest;
pub mod provenance;
pub mod compatibility;
pub mod maven_usage;
pub mod paths;
pub mod markers;
pub mod maven;
pub mod python_metadata;
pub mod file_patterns;
pub mod source_patterns;
pub mod shell_conventions;
pub mod project_rules;
