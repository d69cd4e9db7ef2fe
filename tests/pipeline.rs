use minard_loader::commit::{settle_children, settle_declarations};
use minard_loader::documents::{ChildDoc, DeclarationDoc, GitInfo, ModuleDoc, PackageInfo};
use minard_loader::entities::{ChildDeclaration, Declaration};
use minard_loader::ids::EntityKind;
use minard_loader::pipeline::{dependency_edges, settled_id, snapshot_associations, LoadPipeline};
use minard_loader::stats::LoadStats;
use serde_json::Value;

fn decl(title: &str, kind: &str, children: Vec<ChildDoc>) -> DeclarationDoc {
    DeclarationDoc {
        title: title.to_string(),
        kind: kind.to_string(),
        type_signature: Some("Int -> Int".to_string()),
        type_ast: Some(Value::String("ast".to_string())),
        data_decl_type: None,
        type_arguments: None,
        roles: None,
        superclasses: None,
        fundeps: None,
        synonym_type: None,
        comments: Some(format!("about {}", title)),
        source_span: Some(Value::Bool(true)),
        children,
    }
}

fn child(title: &str) -> ChildDoc {
    ChildDoc {
        title: title.to_string(),
        kind: "dataConstructor".to_string(),
        type_signature: None,
        type_ast: None,
        constructor_args: Some(Value::Array(vec![])),
        instance_constraints: None,
        comments: None,
        source_span: None,
    }
}

fn module(name: &str, decls: Vec<DeclarationDoc>) -> ModuleDoc {
    ModuleDoc { name: name.to_string(), comments: None, declarations: decls }
}

fn pkg(name: &str, version: &str, deps: &[&str]) -> PackageInfo {
    PackageInfo {
        name: name.to_string(),
        version: version.to_string(),
        source: "registry".to_string(),
        dependencies: deps.iter().map(|d| d.to_string()).collect(),
    }
}

#[test]
fn new_project_uses_speculative_id() {
    let mut p = LoadPipeline::new(false);
    let (id, row) = p.register_project("demo", Some("/src/demo".to_string()), None);
    assert_eq!(id, 1);
    let row = row.unwrap();
    assert_eq!(row.id, 1);
    assert_eq!(row.name, "demo");
    assert_eq!(row.repo_path.as_deref(), Some("/src/demo"));
    assert!(row.description.is_none());
}

#[test]
fn existing_project_id_is_adopted_and_speculative_id_wasted() {
    let mut p = LoadPipeline::new(false);
    let (id, row) = p.register_project("demo", None, Some(7));
    assert_eq!(id, 7);
    assert!(row.is_none());
    assert_eq!(p.id_gen.current(EntityKind::Project), 1);
}

#[test]
fn snapshot_label_resolution_order() {
    let mut p = LoadPipeline::new(false);
    let git = GitInfo { hash: "abc123".to_string(), ref_name: Some("main".to_string()) };
    let s = p.create_snapshot(3, Some("v1".to_string()), Some(git.clone()));
    assert_eq!(s.id, 1);
    assert_eq!(s.project_id, 3);
    assert_eq!(s.label.as_deref(), Some("v1"));
    assert_eq!(s.git_hash.as_deref(), Some("abc123"));
    assert_eq!(s.git_ref.as_deref(), Some("main"));
    let s = p.create_snapshot(3, None, Some(git));
    assert_eq!(s.id, 2);
    assert_eq!(s.label.as_deref(), Some("main"));
    let detached = GitInfo { hash: "def".to_string(), ref_name: None };
    let s = p.create_snapshot(3, None, Some(detached));
    assert_eq!(s.label.as_deref(), Some("manual"));
    assert!(s.git_ref.is_none());
    let s = p.create_snapshot(3, None, None);
    assert_eq!(s.label.as_deref(), Some("manual"));
    assert!(s.git_hash.is_none());
}

#[test]
fn package_candidates_get_consecutive_ids() {
    let mut p = LoadPipeline::new(false);
    p.init_ids((0, 0, 40, 0, 0, 0));
    let manifest = vec![pkg("prelude", "6.0.1", &[]), pkg("maybe", "6.0.0", &["prelude"])];
    let c = p.package_candidates(&manifest);
    assert_eq!(c.len(), 2);
    assert_eq!((c[0].id, c[0].name.as_str(), c[0].version.as_str()), (41, "prelude", "6.0.1"));
    assert_eq!((c[1].id, c[1].name.as_str(), c[1].source.as_str()), (42, "maybe", "registry"));
    let w = p.workspace_package("demo");
    assert_eq!(w.id, 43);
    assert_eq!(w.name, "demo");
    assert_eq!(w.version, "0.0.0");
    assert_eq!(w.source, "workspace");
    assert_eq!(w.description.as_deref(), Some("Workspace package for demo"));
}

#[test]
fn dependency_edges_use_settled_ids() {
    let manifest = vec![pkg("a", "1.0.0", &["x", "y"]), pkg("b", "2.0.0", &[]), pkg("c", "1.0.0", &["a"])];
    let edges = dependency_edges(&manifest, &vec![5, 9, 2]);
    let got: Vec<(i64, &str)> = edges.iter().map(|e| (e.dependent_id, e.dependency_name.as_str())).collect();
    assert_eq!(got, vec![(5, "x"), (5, "y"), (2, "a")]);
}

#[test]
fn settled_id_prefers_the_persisted_one() {
    assert_eq!(settled_id(12, Some(3)), 3);
    assert_eq!(settled_id(12, None), 12);
}

#[test]
fn only_the_workspace_package_is_direct() {
    let mut p = LoadPipeline::new(false);
    let manifest = vec![pkg("a", "1.0.0", &[]), pkg("b", "2.0.0", &[])];
    let c = p.package_candidates(&manifest);
    let a = snapshot_associations(4, &c, &vec![10, 11], 99);
    assert_eq!(a.len(), 3);
    assert_eq!(a.iter().filter(|x| x.is_direct).count(), 1);
    assert_eq!((a[0].snapshot_id, a[0].package_version_id, a[0].is_direct), (4, 10, false));
    assert_eq!((a[1].package_version_id, a[1].source.as_str()), (11, "registry"));
    assert_eq!((a[2].package_version_id, a[2].source.as_str(), a[2].is_direct), (99, "workspace", true));
}

#[test]
fn module_records_number_declarations_and_children_in_order() {
    let mut p = LoadPipeline::new(false);
    p.init_ids((0, 0, 0, 5, 10, 20));
    let doc = module(
        "Data.Foo",
        vec![decl("Foo", "data", vec![child("A"), child("B")]), decl("bar", "value", vec![]), decl("Baz", "data", vec![child("C")])],
    );
    let pm = p.build_parsed_module("/p/output/Data.Foo/docs.json", doc, 3);
    assert_eq!(pm.module.id, 6);
    assert_eq!(pm.module.package_version_id, 3);
    assert_eq!(pm.module.name, "Data.Foo");
    assert_eq!(pm.module.path.as_deref(), Some("Data.Foo"));
    let d: Vec<(i64, i64, &str)> = pm.declarations.iter().map(|d| (d.id, d.module_id, d.name.as_str())).collect();
    assert_eq!(d, vec![(11, 6, "Foo"), (12, 6, "bar"), (13, 6, "Baz")]);
    assert_eq!(pm.declarations[0].comments.as_deref(), Some("about Foo"));
    assert_eq!(pm.declarations[0].type_ast, Some(Value::String("ast".to_string())));
    let c: Vec<(i64, i64, &str)> =
        pm.child_declarations.iter().map(|c| (c.id, c.declaration_id, c.name.as_str())).collect();
    assert_eq!(c, vec![(21, 11, "A"), (22, 11, "B"), (23, 13, "C")]);
    assert!(pm.child_declarations.iter().all(|c| c.instance_chain.is_none()));
    assert_eq!(p.id_gen.current(EntityKind::Declaration), 13);
    assert_eq!(p.id_gen.current(EntityKind::Child), 23);
}

#[test]
fn malformed_documents_are_counted_and_skipped() {
    let mut p = LoadPipeline::new(false);
    let docs = vec![
        ("o/A/docs.json".to_string(), Some(module("A", vec![decl("a", "value", vec![])]))),
        ("o/B/docs.json".to_string(), None),
        ("o/C/docs.json".to_string(), Some(module("C", vec![]))),
        ("o/D/docs.json".to_string(), None),
        ("o/E/docs.json".to_string(), Some(module("E", vec![decl("e", "data", vec![child("E1")])]))),
    ];
    let b = p.build_batch(docs, 1);
    assert_eq!(b.parse_errors, 2);
    assert_eq!(b.modules.len(), 3);
    let m: Vec<(i64, &str)> = b.modules.iter().map(|m| (m.id, m.name.as_str())).collect();
    assert_eq!(m, vec![(1, "A"), (2, "C"), (3, "E")]);
    let d: Vec<(i64, i64)> = b.declarations.iter().map(|d| (d.id, d.module_id)).collect();
    assert_eq!(d, vec![(1, 1), (2, 3)]);
    assert_eq!(b.child_declarations[0].declaration_id, 2);
    assert_eq!((b.module_base, b.declaration_base), (0, 0));
}

fn bare_decl(id: i64, module_id: i64, name: &str) -> Declaration {
    Declaration {
        id,
        module_id,
        name: name.to_string(),
        kind: "value".to_string(),
        type_signature: None,
        type_ast: None,
        data_decl_type: None,
        type_arguments: None,
        roles: None,
        superclasses: None,
        fundeps: None,
        synonym_type: None,
        comments: None,
        source_span: None,
    }
}

fn bare_child(id: i64, declaration_id: i64) -> ChildDeclaration {
    ChildDeclaration {
        id,
        declaration_id,
        name: format!("c{}", id),
        kind: "instance".to_string(),
        type_signature: None,
        type_ast: None,
        constructor_args: None,
        instance_chain: None,
        instance_constraints: None,
        comments: None,
        source_span: None,
    }
}

#[test]
fn declarations_follow_their_modules_settled_ids() {
    let decls = vec![bare_decl(1, 11, "a"), bare_decl(2, 12, "b"), bare_decl(3, 11, "c")];
    let settled = settle_declarations(decls, 10, &vec![4, 12]);
    let got: Vec<(i64, i64, &str)> = settled.iter().map(|d| (d.id, d.module_id, d.name.as_str())).collect();
    assert_eq!(got, vec![(1, 4, "a"), (2, 12, "b"), (3, 4, "c")]);
}

#[test]
fn children_of_earlier_declarations_are_dropped() {
    let children = vec![bare_child(1, 21), bare_child(2, 22), bare_child(3, 22), bare_child(4, 23)];
    let kept = settle_children(children, 20, &vec![21, 7, 23]);
    let got: Vec<(i64, i64)> = kept.iter().map(|c| (c.id, c.declaration_id)).collect();
    assert_eq!(got, vec![(1, 21), (4, 23)]);
}

#[test]
fn end_to_end_demo_load_against_an_empty_store() {
    let mut p = LoadPipeline::new(false);
    let (project_id, row) = p.register_project("demo", None, None);
    assert!(row.is_some());
    let snapshot = p.create_snapshot(project_id, None, None);
    let snapshot_id = settled_id(snapshot.id, None);
    let manifest = vec![pkg("foo-lib", "1.2.0", &["bar-lib"])];
    let candidates = p.package_candidates(&manifest);
    let settled: Vec<i64> = candidates.iter().map(|c| settled_id(c.id, None)).collect();
    let edges = dependency_edges(&manifest, &settled);
    assert_eq!(edges.len(), 1);
    assert_eq!((edges[0].dependent_id, edges[0].dependency_name.as_str()), (1, "bar-lib"));
    let ws = p.workspace_package("demo");
    let ws_id = settled_id(ws.id, None);
    let assoc = snapshot_associations(snapshot_id, &candidates, &settled, ws_id);
    assert_eq!(assoc.len(), 2);
    let docs = vec![
        ("/demo/output/Data.Bar/docs.json".to_string(), None),
        ("/demo/output/Data.Foo/docs.json".to_string(), Some(module("Data.Foo", vec![decl("foo", "function", vec![])]))),
    ];
    let batch = p.build_batch(docs, ws_id);
    let module_ids: Vec<i64> = batch.modules.iter().map(|m| m.id).collect();
    let base = batch.declaration_base;
    let decls = settle_declarations(
        batch.declarations.iter().map(|d| bare_decl(d.id, d.module_id, &d.name)).collect(),
        batch.module_base,
        &module_ids,
    );
    assert_eq!(decls[0].name, "foo");
    assert_eq!(batch.declarations[0].kind, "function");
    let decl_ids: Vec<i64> = decls.iter().map(|d| d.id).collect();
    let children = settle_children(vec![], base, &decl_ids);
    let stats = LoadStats::for_load(
        "demo",
        &snapshot,
        &candidates,
        &edges,
        &batch.modules,
        &decls,
        &children,
        batch.parse_errors,
        5,
    );
    assert_eq!(stats.packages_loaded, 2);
    assert_eq!(stats.modules_loaded, 1);
    assert_eq!(stats.declarations_loaded, 1);
    assert_eq!(stats.parse_errors, 1);
    assert_eq!(stats.dependencies_loaded, 1);
    assert_eq!(stats.snapshot_label.as_deref(), Some("manual"));
}

#[test]
fn reloading_unchanged_input_adds_no_children() {
    let mut first = LoadPipeline::new(false);
    let doc = || module("M", vec![decl("T", "data", vec![child("A"), child("B")])]);
    let b1 = first.build_batch(vec![("o/M/docs.json".to_string(), Some(doc()))], 1);
    let first_decl_ids: Vec<i64> = b1.declarations.iter().map(|d| d.id).collect();
    let kept1 = settle_children(b1.child_declarations, b1.declaration_base, &first_decl_ids);
    assert_eq!(kept1.len(), 2);

    let mut second = LoadPipeline::new(false);
    second.init_ids((1, 1, 1, 1, 1, 2));
    let b2 = second.build_batch(vec![("o/M/docs.json".to_string(), Some(doc()))], 1);
    assert_eq!(b2.declarations[0].id, 2);
    let kept2 = settle_children(b2.child_declarations, b2.declaration_base, &first_decl_ids);
    assert!(kept2.is_empty());
}
