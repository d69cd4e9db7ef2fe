use serde_json::Value;
use vstd::prelude::*;

verus! {

/// Declares `serde_json::Value`, the type of the structured sub-documents
/// (type AST, argument list, source span, ...). Nothing is assumed of it:
/// values are moved through the records unread and persisted as they are.
#[verifier::external_type_specification]
#[verifier::external_body]
pub struct ExValue(Value);

/// A codebase being analyzed.
#[derive(Debug, Clone)]
pub struct Project {
    pub id: i64,
    pub name: String,
    pub repo_path: Option<String>,
    pub description: Option<String>,
}

/// A point-in-time analysis of a project.
#[derive(Debug, Clone)]
pub struct Snapshot {
    pub id: i64,
    pub project_id: i64,
    pub git_hash: Option<String>,
    pub git_ref: Option<String>,
    pub label: Option<String>,
}

/// Association of a package version with a snapshot.
#[derive(Debug, Clone)]
pub struct SnapshotPackage {
    pub snapshot_id: i64,
    pub package_version_id: i64,
    pub source: String,
    pub is_direct: bool,
}

/// A package version, identified by its name and version.
#[derive(Debug, Clone)]
pub struct PackageVersion {
    pub id: i64,
    pub name: String,
    pub version: String,
    pub description: Option<String>,
    pub license: Option<String>,
    pub repository: Option<String>,
    pub source: String,
}

/// A module within a package version.
#[derive(Debug, Clone)]
pub struct Module {
    pub id: i64,
    pub package_version_id: i64,
    pub name: String,
    pub path: Option<String>,
    pub comments: Option<String>,
}

/// A top-level declaration in a module.
#[derive(Debug)]
pub struct Declaration {
    pub id: i64,
    pub module_id: i64,
    pub name: String,
    pub kind: String,
    pub type_signature: Option<String>,
    pub type_ast: Option<Value>,
    pub data_decl_type: Option<String>,
    pub type_arguments: Option<Value>,
    pub roles: Option<Value>,
    pub superclasses: Option<Value>,
    pub fundeps: Option<Value>,
    pub synonym_type: Option<Value>,
    pub comments: Option<String>,
    pub source_span: Option<Value>,
}

/// A child declaration (constructor, instance, class member).
#[derive(Debug)]
pub struct ChildDeclaration {
    pub id: i64,
    pub declaration_id: i64,
    pub name: String,
    pub kind: String,
    pub type_signature: Option<String>,
    pub type_ast: Option<Value>,
    pub constructor_args: Option<Value>,
    pub instance_chain: Option<Value>,
    pub instance_constraints: Option<Value>,
    pub comments: Option<String>,
    pub source_span: Option<Value>,
}

/// Dependency edge from a package version to a package name.
#[derive(Debug, Clone)]
pub struct PackageDependency {
    pub dependent_id: i64,
    pub dependency_name: String,
}

/// The records built from one module document.
#[derive(Debug)]
pub struct ParsedModule {
    pub module: Module,
    pub declarations: Vec<Declaration>,
    pub child_declarations: Vec<ChildDeclaration>,
}

} // verus!
