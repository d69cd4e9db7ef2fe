use crate::documents::{
    children_before, lemma_children_before_monotone, ChildDoc, DeclarationDoc, GitInfo, ModuleDoc,
    PackageInfo,
};
use crate::entities::{
    ChildDeclaration, Declaration, Module, PackageDependency, PackageVersion, ParsedModule, Project,
    Snapshot, SnapshotPackage,
};
use crate::ids::{after_next, EntityKind, IdGenerator};
use crate::paths::{module_name_from_path, module_name_of};
use crate::vecs::reversed;
use vstd::prelude::*;

verus! {

/// The record of the top-level declaration `d` under identifier `id`, in the
/// module `module_id`.
pub open spec fn declaration_record(d: DeclarationDoc, id: int, module_id: int) -> Declaration {
    Declaration {
        id: id as i64,
        module_id: module_id as i64,
        name: d.title,
        kind: d.kind,
        type_signature: d.type_signature,
        type_ast: d.type_ast,
        data_decl_type: d.data_decl_type,
        type_arguments: d.type_arguments,
        roles: d.roles,
        superclasses: d.superclasses,
        fundeps: d.fundeps,
        synonym_type: d.synonym_type,
        comments: d.comments,
        source_span: d.source_span,
    }
}

/// The record of the child declaration `c` under identifier `id`, owned by
/// the declaration `decl_id`.
pub open spec fn child_record(c: ChildDoc, id: int, decl_id: int) -> ChildDeclaration {
    ChildDeclaration {
        id: id as i64,
        declaration_id: decl_id as i64,
        name: c.title,
        kind: c.kind,
        type_signature: c.type_signature,
        type_ast: c.type_ast,
        constructor_args: c.constructor_args,
        instance_chain: None,
        instance_constraints: c.instance_constraints,
        comments: c.comments,
        source_span: c.source_span,
    }
}

/// Records of the declarations `ds`, numbered from `last_decl + 1` on.
pub open spec fn declaration_records(ds: Seq<DeclarationDoc>, last_decl: int, module_id: int) -> Seq<
    Declaration,
> {
    Seq::new(ds.len(), |k: int| declaration_record(ds[k], last_decl + 1 + k, module_id))
}

/// Records of the children `kids` of one declaration, numbered from `first` on.
pub open spec fn child_records(kids: Seq<ChildDoc>, first: int, decl_id: int) -> Seq<ChildDeclaration> {
    Seq::new(kids.len(), |c: int| child_record(kids[c], first + c, decl_id))
}

/// Records of the children of the first `j` declarations of `ds`, in order,
/// children numbered from `last_child + 1` and declarations from `last_decl + 1` on.
pub open spec fn all_child_records(
    ds: Seq<DeclarationDoc>,
    j: int,
    last_child: int,
    last_decl: int,
) -> Seq<ChildDeclaration>
    decreases j,
{
    if j <= 0 {
        Seq::empty()
    } else {
        all_child_records(ds, j - 1, last_child, last_decl) + child_records(
            ds[j - 1].children@,
            last_child + 1 + children_before(ds, j - 1),
            last_decl + j,
        )
    }
}

/// The label a snapshot gets: the caller's label, else the ref name that
/// version control reports, else `manual`.
pub open spec fn resolved_label(explicit: Option<String>, git: Option<GitInfo>) -> Seq<char> {
    match explicit {
        Some(l) => l@,
        None => match git {
            Some(g) => match g.ref_name {
                Some(r) => r@,
                None => "manual"@,
            },
            None => "manual"@,
        },
    }
}

/// Dependency edges of the first `i` manifest entries, as (dependent id,
/// dependency name): entry `k` contributes one edge per dependency it lists,
/// from the identifier the store holds for it, `settled[k]`.
pub open spec fn edges_of(ps: Seq<PackageInfo>, settled: Seq<i64>, i: int) -> Seq<(int, Seq<char>)>
    decreases i,
{
    if i <= 0 {
        Seq::empty()
    } else {
        edges_of(ps, settled, i - 1) + ps[i - 1].dependencies@.map_values(
            |d: String| (settled[i - 1] as int, d@),
        )
    }
}

/// Snapshot associations as (snapshot, package, source tag, is direct): every
/// manifest package, indirect, under the identifier the store holds for it,
/// then the workspace package, direct.
pub open spec fn association_rows(
    snapshot_id: int,
    candidates: Seq<PackageVersion>,
    settled: Seq<i64>,
    workspace_id: int,
) -> Seq<(int, int, Seq<char>, bool)> {
    Seq::new(
        candidates.len() + 1,
        |i: int|
            if i < candidates.len() {
                (snapshot_id, settled[i] as int, candidates[i].source@, false)
            } else {
                (snapshot_id, workspace_id, "workspace"@, true)
            },
    )
}

/// The view of an association row.
pub open spec fn association_view(a: SnapshotPackage) -> (int, int, Seq<char>, bool) {
    (a.snapshot_id as int, a.package_version_id as int, a.source@, a.is_direct)
}

/// Every load associates exactly one package with its snapshot as direct:
/// the workspace package, whose source tag is `workspace`; every package of
/// the manifest is associated as indirect. Unless the manifest itself tags a
/// package `workspace`, the workspace package is also the only association
/// with that tag.
pub proof fn lemma_workspace_is_only_direct(
    snapshot_id: int,
    candidates: Seq<PackageVersion>,
    settled: Seq<i64>,
    workspace_id: int,
)
    ensures
        ({
            let rows = association_rows(snapshot_id, candidates, settled, workspace_id);
            &&& rows.len() == candidates.len() + 1
            &&& forall|i: int| 0 <= i < rows.len() ==> (#[trigger] rows[i].3 <==> i == candidates.len())
            &&& rows[candidates.len() as int] == (snapshot_id, workspace_id, "workspace"@, true)
            &&& (forall|i: int| 0 <= i < candidates.len() ==> #[trigger] candidates[i].source@ != "workspace"@)
                ==> forall|i: int|
                0 <= i < rows.len() ==> (#[trigger] rows[i].2 == "workspace"@ <==> i
                    == candidates.len())
        }),
{
    let rows = association_rows(snapshot_id, candidates, settled, workspace_id);
    if forall|i: int| 0 <= i < candidates.len() ==> #[trigger] candidates[i].source@ != "workspace"@ {
        assert forall|i: int| 0 <= i < rows.len() implies (#[trigger] rows[i].2 == "workspace"@ <==> i
            == candidates.len()) by {
            if i < candidates.len() {
                assert(rows[i].2 == candidates[i].source@);
            }
        }
    }
}

/// Decisions of one load run: which records to build, with which
/// identifiers, and which rows to hand to the store at each phase.
#[derive(Debug)]
pub struct LoadPipeline {
    pub id_gen: IdGenerator,
    pub verbose: bool,
}

impl LoadPipeline {
    pub fn new(verbose: bool) -> (r: Self)
        ensures
            forall|k: EntityKind| #[trigger] r.id_gen.counter(k) == 0,
            r.verbose == verbose,
    {
        LoadPipeline { id_gen: IdGenerator::new(), verbose }
    }

    /// Seeds the identifier counters with the persisted maxima, in the order
    /// project, snapshot, package, module, declaration, child.
    pub fn init_ids(&mut self, max_ids: (i64, i64, i64, i64, i64, i64))
        ensures
            final(self).id_gen.counter(EntityKind::Project) == max_ids.0,
            final(self).id_gen.counter(EntityKind::Snapshot) == max_ids.1,
            final(self).id_gen.counter(EntityKind::Package) == max_ids.2,
            final(self).id_gen.counter(EntityKind::Module) == max_ids.3,
            final(self).id_gen.counter(EntityKind::Declaration) == max_ids.4,
            final(self).id_gen.counter(EntityKind::Child) == max_ids.5,
            final(self).verbose == old(self).verbose,
    {
        let (max_proj, max_snap, max_pkg, max_mod, max_decl, max_child) = max_ids;
        self.id_gen.init_from_db(max_proj, max_snap, max_pkg, max_mod, max_decl, max_child);
    }

    /// Registers the project `name`: allocates a speculative identifier, then
    /// adopts the persisted identifier `existing` when the store already holds
    /// the name, else keeps the speculative one and returns the row to insert.
    pub fn register_project(&mut self, name: &str, repo_path: Option<String>, existing: Option<i64>) -> (r: (
        i64,
        Option<Project>,
    ))
        requires
            old(self).id_gen.has_room(EntityKind::Project, 1),
        ensures
            ({
                let (c, spec_id) = after_next(old(self).id_gen.counter(EntityKind::Project));
                &&& final(self).id_gen.counter(EntityKind::Project) == c
                &&& match existing {
                    Some(id) => r.0 == id && r.1 is None,
                    None => r.0 == spec_id && (r.1 matches Some(p) && p.id == spec_id && p.name@
                        == name@ && p.repo_path == repo_path && p.description is None),
                }
            }),
            final(self).id_gen.same_except(&old(self).id_gen, EntityKind::Project),
            final(self).verbose == old(self).verbose,
    {
        let spec_id = self.id_gen.next_project_id();
        match existing {
            Some(id) => (id, None),
            None => (
                spec_id,
                Some(Project { id: spec_id, name: name.to_owned(), repo_path, description: None }),
            ),
        }
    }

    /// Creates the snapshot row of this load under a fresh identifier; its
    /// label is the caller's label, else the version-control ref name, else
    /// `manual`.
    pub fn create_snapshot(&mut self, project_id: i64, label: Option<String>, git: Option<GitInfo>) -> (r:
        Snapshot)
        requires
            old(self).id_gen.has_room(EntityKind::Snapshot, 1),
        ensures
            ({
                let (c, id) = after_next(old(self).id_gen.counter(EntityKind::Snapshot));
                &&& final(self).id_gen.counter(EntityKind::Snapshot) == c
                &&& r.id == id
                &&& r.project_id == project_id
                &&& r.git_hash == (match git {
                    Some(g) => Some(g.hash),
                    None => None,
                })
                &&& r.git_ref == (match git {
                    Some(g) => g.ref_name,
                    None => None,
                })
                &&& r.label matches Some(l) && l@ == resolved_label(label, git)
            }),
            final(self).id_gen.same_except(&old(self).id_gen, EntityKind::Snapshot),
            final(self).verbose == old(self).verbose,
    {
        let id = self.id_gen.next_snapshot_id();
        let (git_hash, git_ref) = match git {
            Some(g) => (Some(g.hash), g.ref_name),
            None => (None, None),
        };
        let resolved = match label {
            Some(l) => l,
            None => match &git_ref {
                Some(r) => r.clone(),
                None => String::from_str("manual"),
            },
        };
        Snapshot { id, project_id, git_hash, git_ref, label: Some(resolved) }
    }

    /// One package-version row per manifest entry, each under a fresh
    /// speculative identifier, in manifest order.
    pub fn package_candidates(&mut self, packages: &Vec<PackageInfo>) -> (r: Vec<PackageVersion>)
        requires
            old(self).id_gen.has_room(EntityKind::Package, packages@.len() as int),
        ensures
            r@.len() == packages@.len(),
            forall|i: int|
                0 <= i < r@.len() ==> {
                    let p = #[trigger] r@[i];
                    &&& p.id == old(self).id_gen.counter(EntityKind::Package) + 1 + i
                    &&& p.name == packages@[i].name
                    &&& p.version == packages@[i].version
                    &&& p.source == packages@[i].source
                    &&& p.description is None
                    &&& p.license is None
                    &&& p.repository is None
                },
            final(self).id_gen.counter(EntityKind::Package) == old(self).id_gen.counter(
                EntityKind::Package,
            ) + packages@.len(),
            final(self).id_gen.same_except(&old(self).id_gen, EntityKind::Package),
            final(self).verbose == old(self).verbose,
    {
        let ghost p0 = self.id_gen.counter(EntityKind::Package);
        let ghost g0 = self.id_gen;
        let mut out: Vec<PackageVersion> = Vec::new();
        let mut i: usize = 0;
        while i < packages.len()
            invariant
                i <= packages@.len(),
                out@.len() == i,
                p0 + packages@.len() <= i64::MAX,
                self.id_gen.counter(EntityKind::Package) == p0 + i,
                self.id_gen.same_except(&g0, EntityKind::Package),
                self.verbose == old(self).verbose,
                forall|k: int|
                    0 <= k < i ==> {
                        let p = #[trigger] out@[k];
                        &&& p.id == p0 + 1 + k
                        &&& p.name == packages@[k].name
                        &&& p.version == packages@[k].version
                        &&& p.source == packages@[k].source
                        &&& p.description is None
                        &&& p.license is None
                        &&& p.repository is None
                    },
            decreases packages@.len() - i,
        {
            let info = &packages[i];
            let id = self.id_gen.next_package_id();
            out.push(
                PackageVersion {
                    id,
                    name: info.name.clone(),
                    version: info.version.clone(),
                    description: None,
                    license: None,
                    repository: None,
                    source: info.source.clone(),
                },
            );
            i = i + 1;
        }
        out
    }

    /// The package row standing for the project's own code: name
    /// `project_name`, version `0.0.0`, source tag `workspace`, under a fresh
    /// speculative identifier.
    pub fn workspace_package(&mut self, project_name: &str) -> (r: PackageVersion)
        requires
            old(self).id_gen.has_room(EntityKind::Package, 1),
        ensures
            ({
                let (c, id) = after_next(old(self).id_gen.counter(EntityKind::Package));
                &&& final(self).id_gen.counter(EntityKind::Package) == c
                &&& r.id == id
            }),
            r.name@ == project_name@,
            r.version@ == "0.0.0"@,
            r.source@ == "workspace"@,
            r.description matches Some(d) && d@ == "Workspace package for "@ + project_name@,
            r.license is None,
            r.repository is None,
            final(self).id_gen.same_except(&old(self).id_gen, EntityKind::Package),
            final(self).verbose == old(self).verbose,
    {
        let id = self.id_gen.next_package_id();
        let description = String::from_str("Workspace package for ").concat(project_name);
        PackageVersion {
            id,
            name: project_name.to_owned(),
            version: String::from_str("0.0.0"),
            description: Some(description),
            license: None,
            repository: None,
            source: String::from_str("workspace"),
        }
    }

    /// Builds the records of one parsed module document found at `docs_path`,
    /// owned by the package `package_id`: one fresh module identifier, then one
    /// fresh declaration identifier per declaration and one fresh child
    /// identifier per child, in document order.
    pub fn build_parsed_module(&mut self, docs_path: &str, doc: ModuleDoc, package_id: i64) -> (r:
        ParsedModule)
        requires
            old(self).id_gen.has_room(EntityKind::Module, 1),
            old(self).id_gen.counter(EntityKind::Declaration) + doc.declarations@.len() <= i64::MAX,
            old(self).id_gen.counter(EntityKind::Child) + children_before(
                doc.declarations@,
                doc.declarations@.len() as int,
            ) <= i64::MAX,
        ensures
            ({
                let ds = doc.declarations@;
                let m = old(self).id_gen.counter(EntityKind::Module) + 1;
                let d0 = old(self).id_gen.counter(EntityKind::Declaration);
                let c0 = old(self).id_gen.counter(EntityKind::Child);
                &&& r.module.id == m
                &&& r.module.package_version_id == package_id
                &&& r.module.name == doc.name
                &&& r.module.comments == doc.comments
                &&& (r.module.path matches Some(p) ==> module_name_of(docs_path@) == Some(p@))
                &&& (r.module.path is None ==> module_name_of(docs_path@) is None)
                &&& r.declarations@ == declaration_records(ds, d0, m)
                &&& r.child_declarations@ == all_child_records(ds, ds.len() as int, c0, d0)
                &&& final(self).id_gen.counter(EntityKind::Module) == m
                &&& final(self).id_gen.counter(EntityKind::Declaration) == d0 + ds.len()
                &&& final(self).id_gen.counter(EntityKind::Child) == c0 + children_before(
                    ds,
                    ds.len() as int,
                )
            }),
            forall|k: EntityKind|
                k != EntityKind::Module && k != EntityKind::Declaration && k != EntityKind::Child
                    ==> #[trigger] final(self).id_gen.counter(k) == old(self).id_gen.counter(k),
            final(self).verbose == old(self).verbose,
    {
        let ghost ds = doc.declarations@;
        let ghost g0 = self.id_gen;
        let ghost d0 = self.id_gen.counter(EntityKind::Declaration);
        let ghost c0 = self.id_gen.counter(EntityKind::Child);
        let module_id = self.id_gen.next_module_id();
        let path = module_name_from_path(docs_path);
        let ModuleDoc { name, comments, declarations } = doc;
        let module = Module { id: module_id, package_version_id: package_id, name, path, comments };
        let total = declarations.len();
        let mut pending = reversed(declarations);
        let mut decls: Vec<Declaration> = Vec::new();
        let mut children: Vec<ChildDeclaration> = Vec::new();
        let mut j: usize = 0;
        proof {
            assert(decls@ =~= declaration_records(ds.take(0), d0, module_id as int));
        }
        while j < total
            invariant
                total == ds.len(),
                j <= total,
                pending@.len() == total - j,
                forall|k: int| 0 <= k < total - j ==> #[trigger] pending@[k] == ds[total - 1 - k],
                decls@ == declaration_records(ds.take(j as int), d0, module_id as int),
                children@ == all_child_records(ds, j as int, c0, d0),
                self.id_gen.counter(EntityKind::Module) == module_id,
                self.id_gen.counter(EntityKind::Declaration) == d0 + j,
                self.id_gen.counter(EntityKind::Child) == c0 + children_before(ds, j as int),
                d0 + total <= i64::MAX,
                c0 + children_before(ds, total as int) <= i64::MAX,
                forall|k: EntityKind|
                    k != EntityKind::Module && k != EntityKind::Declaration && k != EntityKind::Child
                        ==> #[trigger] self.id_gen.counter(k) == g0.counter(k),
                self.verbose == old(self).verbose,
            decreases total - j,
        {
            let d = pending.pop().unwrap();
            assert(d == ds[j as int]);
            let decl_id = self.id_gen.next_declaration_id();
            let DeclarationDoc {
                title,
                kind,
                type_signature,
                type_ast,
                data_decl_type,
                type_arguments,
                roles,
                superclasses,
                fundeps,
                synonym_type,
                comments,
                source_span,
                children: kids,
            } = d;
            let ghost decls_before = decls@;
            decls.push(
                Declaration {
                    id: decl_id,
                    module_id,
                    name: title,
                    kind,
                    type_signature,
                    type_ast,
                    data_decl_type,
                    type_arguments,
                    roles,
                    superclasses,
                    fundeps,
                    synonym_type,
                    comments,
                    source_span,
                },
            );
            proof {
                assert(decls@ =~= declaration_records(ds.take(j + 1), d0, module_id as int));
            }
            let ghost ks = kids@;
            let ghost base = children@;
            let ghost first = c0 + 1 + children_before(ds, j as int);
            let nk = kids.len();
            let mut kp = reversed(kids);
            let mut ci: usize = 0;
            proof {
                lemma_children_before_monotone(ds, j + 1, total as int);
                assert(children@ =~= base + child_records(ks.take(0), first, decl_id as int));
            }
            while ci < nk
                invariant
                    nk == ks.len(),
                    ks == ds[j as int].children@,
                    ci <= nk,
                    kp@.len() == nk - ci,
                    forall|k: int| 0 <= k < nk - ci ==> #[trigger] kp@[k] == ks[nk - 1 - k],
                    children@ == base + child_records(ks.take(ci as int), first, decl_id as int),
                    first == c0 + 1 + children_before(ds, j as int),
                    self.id_gen.counter(EntityKind::Child) == first - 1 + ci,
                    first - 1 + nk <= i64::MAX,
                    self.id_gen.counter(EntityKind::Module) == module_id,
                    self.id_gen.counter(EntityKind::Declaration) == d0 + j + 1,
                    forall|k: EntityKind|
                        k != EntityKind::Module && k != EntityKind::Declaration && k
                            != EntityKind::Child ==> #[trigger] self.id_gen.counter(k) == g0.counter(k),
                    self.verbose == old(self).verbose,
                decreases nk - ci,
            {
                let c = kp.pop().unwrap();
                assert(c == ks[ci as int]);
                let child_id = self.id_gen.next_child_id();
                let ChildDoc {
                    title,
                    kind,
                    type_signature,
                    type_ast,
                    constructor_args,
                    instance_constraints,
                    comments,
                    source_span,
                } = c;
                children.push(
                    ChildDeclaration {
                        id: child_id,
                        declaration_id: decl_id,
                        name: title,
                        kind,
                        type_signature,
                        type_ast,
                        constructor_args,
                        instance_chain: None,
                        instance_constraints,
                        comments,
                        source_span,
                    },
                );
                proof {
                    assert(child_records(ks.take(ci + 1), first, decl_id as int) =~= child_records(
                        ks.take(ci as int),
                        first,
                        decl_id as int,
                    ).push(child_record(ks[ci as int], first + ci, decl_id as int)));
                    assert(children@ =~= base + child_records(ks.take(ci + 1), first, decl_id as int));
                }
                ci = ci + 1;
            }
            proof {
                assert(ks.take(nk as int) =~= ks);
            }
            j = j + 1;
        }
        proof {
            assert(ds.take(total as int) =~= ds);
        }
        ParsedModule { module, declarations: decls, child_declarations: children }
    }
}

/// The identifier the store holds for a row inserted with `speculative`:
/// the one read back, when the insert was dropped as a duplicate.
pub fn settled_id(speculative: i64, persisted: Option<i64>) -> (r: i64)
    ensures
        r == match persisted {
            Some(p) => p,
            None => speculative,
        },
{
    match persisted {
        Some(p) => p,
        None => speculative,
    }
}

/// Dependency edges of the manifest: for each entry, one edge per dependency
/// it lists, from the identifier the store holds for the entry's
/// (name, version), `settled[i]`.
pub fn dependency_edges(packages: &Vec<PackageInfo>, settled: &Vec<i64>) -> (r: Vec<PackageDependency>)
    requires
        settled@.len() == packages@.len(),
    ensures
        r@.map_values(|e: PackageDependency| (e.dependent_id as int, e.dependency_name@)) == edges_of(
            packages@,
            settled@,
            packages@.len() as int,
        ),
{
    let mut out: Vec<PackageDependency> = Vec::new();
    let mut i: usize = 0;
    while i < packages.len()
        invariant
            i <= packages@.len(),
            settled@.len() == packages@.len(),
            out@.map_values(|e: PackageDependency| (e.dependent_id as int, e.dependency_name@))
                == edges_of(packages@, settled@, i as int),
        decreases packages@.len() - i,
    {
        let deps = &packages[i].dependencies;
        let ghost base = out@.map_values(|e: PackageDependency| (e.dependent_id as int, e.dependency_name@));
        let mut k: usize = 0;
        while k < deps.len()
            invariant
                i < packages@.len(),
                settled@.len() == packages@.len(),
                deps == packages@[i as int].dependencies,
                k <= deps@.len(),
                out@.map_values(|e: PackageDependency| (e.dependent_id as int, e.dependency_name@))
                    == base + deps@.take(k as int).map_values(
                    |d: String| (settled@[i as int] as int, d@),
                ),
            decreases deps@.len() - k,
        {
            let ghost before = out@;
            out.push(PackageDependency { dependent_id: settled[i], dependency_name: deps[k].clone() });
            proof {
                assert(deps@.take(k + 1) =~= deps@.take(k as int).push(deps@[k as int]));
                assert(out@.map_values(|e: PackageDependency| (e.dependent_id as int, e.dependency_name@))
                    =~= before.map_values(|e: PackageDependency| (e.dependent_id as int, e.dependency_name@)).push(
                    (settled@[i as int] as int, deps@[k as int]@),
                ));
                assert(deps@.take(k + 1).map_values(|d: String| (settled@[i as int] as int, d@))
                    =~= deps@.take(k as int).map_values(|d: String| (settled@[i as int] as int, d@)).push(
                    (settled@[i as int] as int, deps@[k as int]@),
                ));
            }
            k = k + 1;
        }
        proof {
            assert(deps@.take(deps@.len() as int) =~= deps@);
        }
        i = i + 1;
    }
    out
}

/// Associations of the snapshot `snapshot_id` with its packages: each
/// manifest candidate, indirect, under its settled identifier `settled[i]`,
/// then the workspace package `workspace_id`, direct.
pub fn snapshot_associations(
    snapshot_id: i64,
    candidates: &Vec<PackageVersion>,
    settled: &Vec<i64>,
    workspace_id: i64,
) -> (r: Vec<SnapshotPackage>)
    requires
        settled@.len() == candidates@.len(),
    ensures
        r@.map_values(|a: SnapshotPackage| association_view(a)) == association_rows(
            snapshot_id as int,
            candidates@,
            settled@,
            workspace_id as int,
        ),
{
    let mut out: Vec<SnapshotPackage> = Vec::new();
    let mut i: usize = 0;
    while i < candidates.len()
        invariant
            i <= candidates@.len(),
            settled@.len() == candidates@.len(),
            out@.len() == i,
            forall|k: int|
                0 <= k < i ==> association_view(#[trigger] out@[k]) == association_rows(
                    snapshot_id as int,
                    candidates@,
                    settled@,
                    workspace_id as int,
                )[k],
        decreases candidates@.len() - i,
    {
        out.push(
            SnapshotPackage {
                snapshot_id,
                package_version_id: settled[i],
                source: candidates[i].source.clone(),
                is_direct: false,
            },
        );
        i = i + 1;
    }
    out.push(
        SnapshotPackage {
            snapshot_id,
            package_version_id: workspace_id,
            source: String::from_str("workspace"),
            is_direct: true,
        },
    );
    assert(out@.map_values(|a: SnapshotPackage| association_view(a)) =~= association_rows(
        snapshot_id as int,
        candidates@,
        settled@,
        workspace_id as int,
    ));
    out
}

} // verus!
