use serde_json::Value;
use vstd::prelude::*;

verus! {

/// One resolved entry of the dependency-lock manifest.
#[derive(Debug, Clone)]
pub struct PackageInfo {
    pub name: String,
    pub version: String,
    pub source: String,
    pub dependencies: Vec<String>,
}

/// Version-control identity of a project directory.
#[derive(Debug, Clone)]
pub struct GitInfo {
    pub hash: String,
    pub ref_name: Option<String>,
}

/// A child declaration as the document parser hands it over.
#[derive(Debug)]
pub struct ChildDoc {
    pub title: String,
    pub kind: String,
    pub type_signature: Option<String>,
    pub type_ast: Option<Value>,
    pub constructor_args: Option<Value>,
    pub instance_constraints: Option<Value>,
    pub comments: Option<String>,
    pub source_span: Option<Value>,
}

/// A top-level declaration as the document parser hands it over.
#[derive(Debug)]
pub struct DeclarationDoc {
    pub title: String,
    pub kind: String,
    pub type_signature: Option<String>,
    pub type_ast: Option<Value>,
    pub data_decl_type: Option<String>,
    pub type_arguments: Option<Value>,
    pub roles: Option<Value>,
    pub superclasses: Option<Value>,
    pub fundeps: Option<Value>,
    pub synonym_type: Option<Value>,
    pub comments: Option<String>,
    pub source_span: Option<Value>,
    pub children: Vec<ChildDoc>,
}

/// One parsed module document.
#[derive(Debug)]
pub struct ModuleDoc {
    pub name: String,
    pub comments: Option<String>,
    pub declarations: Vec<DeclarationDoc>,
}

/// Number of children of the first `j` declarations of `decls`.
pub open spec fn children_before(decls: Seq<DeclarationDoc>, j: int) -> int
    decreases j,
{
    if j <= 0 {
        0
    } else {
        children_before(decls, j - 1) + decls[j - 1].children@.len()
    }
}

pub proof fn lemma_children_before_monotone(decls: Seq<DeclarationDoc>, i: int, j: int)
    requires
        i <= j,
    ensures
        children_before(decls, i) <= children_before(decls, j),
    decreases j - i,
{
    if i < j {
        lemma_children_before_monotone(decls, i, j - 1);
    }
}

} // verus!
