use crate::commit::{
    batch_children, batch_declarations, child_count, decl_count, declared_now, is_module_record,
    lemma_batch_numbering, lemma_reload_adds_no_children, lemma_reload_same_declaration_keys,
    settled_declaration,
};
use crate::documents::{ModuleDoc, PackageInfo};
use crate::entities::{ChildDeclaration, Declaration, Module, PackageVersion};
use crate::pipeline::{association_rows, edges_of};
use vstd::prelude::*;

verus! {

/// What the store holds: the identifier under each project name, under each
/// snapshot key (project, commit hash), under each package key (name,
/// version), the dependency edges (dependent, dependency name), the snapshot
/// associations (snapshot, package), the identifier under each module key
/// (package, name) and each declaration key (module, name), and the
/// declaration each child row points at (child rows have no key).
pub struct StoreTables {
    pub projects: Map<Seq<char>, i64>,
    pub snapshots: Map<(i64, Seq<char>), i64>,
    pub packages: Map<(Seq<char>, Seq<char>), i64>,
    pub dependencies: Set<(i64, Seq<char>)>,
    pub associations: Set<(i64, i64)>,
    pub modules: Map<(i64, Seq<char>), i64>,
    pub declarations: Map<(i64, Seq<char>), i64>,
    pub children: Seq<i64>,
}

/// Referential integrity of the tables: every snapshot's project, every
/// dependency edge's package, both ends of every association, every module's
/// package, every declaration's module and every child's declaration is a
/// persisted row.
pub open spec fn references_resolve(s: StoreTables) -> bool {
    &&& forall|k: (i64, Seq<char>)|
        #[trigger] s.snapshots.contains_key(k) ==> s.projects.values().contains(k.0)
    &&& forall|a: (i64, i64)|
        #[trigger] s.associations.contains(a) ==> s.snapshots.values().contains(a.0)
    &&& forall|e: (i64, Seq<char>)|
        #[trigger] s.dependencies.contains(e) ==> s.packages.values().contains(e.0)
    &&& forall|a: (i64, i64)|
        #[trigger] s.associations.contains(a) ==> s.packages.values().contains(a.1)
    &&& forall|k: (i64, Seq<char>)|
        #[trigger] s.modules.contains_key(k) ==> s.packages.values().contains(k.0)
    &&& forall|k: (i64, Seq<char>)|
        #[trigger] s.declarations.contains_key(k) ==> s.modules.values().contains(k.0)
    &&& forall|i: int|
        0 <= i < s.children.len() ==> s.declarations.values().contains(#[trigger] s.children[i])
}

/// The unique key of a module row.
pub open spec fn module_key(m: Module) -> (i64, Seq<char>) {
    (m.package_version_id, m.name@)
}

/// The unique key of a declaration row.
pub open spec fn decl_key(d: Declaration) -> (i64, Seq<char>) {
    (d.module_id, d.name@)
}

/// Insert-or-ignore of `rows`, in order, into a table keyed by `key`: a row
/// whose key is already held is dropped, any other is added under `id`.
pub open spec fn insert_or_ignore<R, K>(
    t: Map<K, i64>,
    rows: Seq<R>,
    key: spec_fn(R) -> K,
    id: spec_fn(R) -> i64,
) -> Map<K, i64>
    decreases rows.len(),
{
    if rows.len() == 0 {
        t
    } else {
        let prev = insert_or_ignore(t, rows.drop_last(), key, id);
        let k = key(rows.last());
        if prev.contains_key(k) {
            prev
        } else {
            prev.insert(k, id(rows.last()))
        }
    }
}

/// Project and snapshot registration of a load against `s`: the project
/// `name` is looked up and inserted under `project_id` when absent; the
/// snapshot of commit `hash` is inserted or ignored under `snapshot_id`, for
/// the project's identifier as the store holds it.
pub open spec fn register_tables(
    s: StoreTables,
    name: Seq<char>,
    project_id: i64,
    hash: Seq<char>,
    snapshot_id: i64,
) -> StoreTables {
    let pt = if s.projects.contains_key(name) {
        s.projects
    } else {
        s.projects.insert(name, project_id)
    };
    let key = (pt[name], hash);
    let st = if s.snapshots.contains_key(key) {
        s.snapshots
    } else {
        s.snapshots.insert(key, snapshot_id)
    };
    StoreTables { projects: pt, snapshots: st, ..s }
}

/// The identifier the store holds for the snapshot once registered.
pub open spec fn snapshot_settled(
    s: StoreTables,
    name: Seq<char>,
    project_id: i64,
    hash: Seq<char>,
    snapshot_id: i64,
) -> i64 {
    let r = register_tables(s, name, project_id, hash, snapshot_id);
    r.snapshots[(r.projects[name], hash)]
}

/// The unique key of a package row.
pub open spec fn package_key(p: PackageVersion) -> (Seq<char>, Seq<char>) {
    (p.name@, p.version@)
}

/// The package table after inserting or ignoring `candidates`, then the
/// workspace package.
pub open spec fn package_table(
    s: StoreTables,
    candidates: Seq<PackageVersion>,
    workspace: PackageVersion,
) -> Map<(Seq<char>, Seq<char>), i64> {
    insert_or_ignore(
        s.packages,
        candidates.push(workspace),
        |p: PackageVersion| package_key(p),
        |p: PackageVersion| p.id,
    )
}

/// The identifier the store holds for the workspace package once ingested.
pub open spec fn workspace_settled(
    s: StoreTables,
    candidates: Seq<PackageVersion>,
    workspace: PackageVersion,
) -> i64 {
    package_table(s, candidates, workspace)[package_key(workspace)]
}

/// Package ingestion of a load against `s`: the manifest's candidates, then
/// the workspace package, are inserted or ignored and their identifiers read
/// back; the dependency edges and the snapshot associations, under those
/// identifiers, are inserted or ignored.
pub open spec fn ingest_packages(
    s: StoreTables,
    manifest: Seq<PackageInfo>,
    candidates: Seq<PackageVersion>,
    workspace: PackageVersion,
    snapshot_id: i64,
) -> StoreTables {
    let pt = package_table(s, candidates, workspace);
    let settled = candidates.map_values(|p: PackageVersion| pt[package_key(p)]);
    let edges = edges_of(manifest, settled, manifest.len() as int).map_values(
        |e: (int, Seq<char>)| (e.0 as i64, e.1),
    );
    let rows = association_rows(
        snapshot_id as int,
        candidates,
        settled,
        pt[package_key(workspace)] as int,
    ).map_values(|r: (int, int, Seq<char>, bool)| (r.0 as i64, r.1 as i64));
    StoreTables {
        packages: pt,
        dependencies: s.dependencies.union(edges.to_set()),
        associations: s.associations.union(rows.to_set()),
        ..s
    }
}

/// The commit phase of a load against `s`: the modules are inserted or
/// ignored and their identifiers read back; the declarations, pointed at
/// those, are inserted or ignored and their identifiers read back; the
/// children whose declaration was taken from this load are appended.
pub open spec fn commit_tables(
    s: StoreTables,
    modules: Seq<Module>,
    decls: Seq<Declaration>,
    children: Seq<ChildDeclaration>,
    module_base: int,
    decl_base: int,
) -> StoreTables {
    let mt = insert_or_ignore(s.modules, modules, |m: Module| module_key(m), |m: Module| m.id);
    let sm = modules.map_values(|m: Module| mt[module_key(m)]);
    let ds = decls.map_values(|d: Declaration| settled_declaration(d, module_base, sm));
    let dt = insert_or_ignore(s.declarations, ds, |d: Declaration| decl_key(d), |d: Declaration| d.id);
    let sd = ds.map_values(|d: Declaration| dt[decl_key(d)]);
    let kept = children.filter(|c: ChildDeclaration| declared_now(c, decl_base, sd));
    StoreTables {
        modules: mt,
        declarations: dt,
        children: s.children + kept.map_values(|c: ChildDeclaration| c.declaration_id),
        ..s
    }
}

proof fn lemma_insert_or_ignore_covers<R, K>(
    t: Map<K, i64>,
    rows: Seq<R>,
    key: spec_fn(R) -> K,
    id: spec_fn(R) -> i64,
)
    ensures
        forall|k: K|
            t.contains_key(k) ==> #[trigger] insert_or_ignore(t, rows, key, id).contains_key(k)
                && insert_or_ignore(t, rows, key, id)[k] == t[k],
        forall|i: int|
            0 <= i < rows.len() ==> insert_or_ignore(t, rows, key, id).contains_key(
                #[trigger] key(rows[i]),
            ),
    decreases rows.len(),
{
    if rows.len() > 0 {
        let prev = rows.drop_last();
        lemma_insert_or_ignore_covers(t, prev, key, id);
        let before = insert_or_ignore(t, prev, key, id);
        assert forall|k: K| t.contains_key(k) implies #[trigger] insert_or_ignore(
            t,
            rows,
            key,
            id,
        ).contains_key(k) && insert_or_ignore(t, rows, key, id)[k] == t[k] by {
            assert(before.contains_key(k));
        }
        assert forall|i: int| 0 <= i < rows.len() implies insert_or_ignore(
            t,
            rows,
            key,
            id,
        ).contains_key(#[trigger] key(rows[i])) by {
            if i < rows.len() - 1 {
                assert(rows[i] == prev[i]);
            }
        }
    }
}

proof fn lemma_insert_or_ignore_held<R, K>(
    t: Map<K, i64>,
    rows: Seq<R>,
    key: spec_fn(R) -> K,
    id: spec_fn(R) -> i64,
)
    requires
        forall|i: int| 0 <= i < rows.len() ==> t.contains_key(#[trigger] key(rows[i])),
    ensures
        insert_or_ignore(t, rows, key, id) == t,
    decreases rows.len(),
{
    if rows.len() > 0 {
        let prev = rows.drop_last();
        assert forall|i: int| 0 <= i < prev.len() implies t.contains_key(#[trigger] key(prev[i])) by {
            assert(prev[i] == rows[i]);
        }
        lemma_insert_or_ignore_held(t, prev, key, id);
        assert(t.contains_key(key(rows[rows.len() - 1])));
    }
}

proof fn lemma_insert_or_ignore_origin<R, K>(
    t: Map<K, i64>,
    rows: Seq<R>,
    key: spec_fn(R) -> K,
    id: spec_fn(R) -> i64,
)
    ensures
        forall|k: K|
            #[trigger] insert_or_ignore(t, rows, key, id).contains_key(k) ==> t.contains_key(k)
                || exists|i: int| 0 <= i < rows.len() && key(rows[i]) == k,
    decreases rows.len(),
{
    if rows.len() > 0 {
        let prev = rows.drop_last();
        lemma_insert_or_ignore_origin(t, prev, key, id);
        assert forall|k: K| #[trigger] insert_or_ignore(
            t,
            rows,
            key,
            id,
        ).contains_key(k) implies t.contains_key(k) || exists|i: int|
            0 <= i < rows.len() && key(rows[i]) == k by {
            if !t.contains_key(k) {
                if insert_or_ignore(t, prev, key, id).contains_key(k) {
                    let i = choose|i: int| 0 <= i < prev.len() && key(prev[i]) == k;
                    assert(rows[i] == prev[i]);
                } else {
                    assert(key(rows[rows.len() - 1]) == k);
                }
            }
        }
    }
}

/// A commit keeps the store's references resolved: every declaration it adds
/// points at a module the store holds (the one read back for its module), and
/// every child it adds at a declaration the store holds.
pub proof fn lemma_commit_keeps_references(
    s: StoreTables,
    modules: Seq<Module>,
    decls: Seq<Declaration>,
    children: Seq<ChildDeclaration>,
    module_base: int,
    decl_base: int,
)
    requires
        references_resolve(s),
        forall|k: int|
            0 <= k < modules.len() ==> s.packages.values().contains(
                #[trigger] modules[k].package_version_id,
            ),
        forall|j: int|
            0 <= j < decls.len() ==> module_base < #[trigger] decls[j].module_id <= module_base
                + modules.len(),
        forall|c: int|
            0 <= c < children.len() ==> decl_base < #[trigger] children[c].declaration_id
                <= decl_base + decls.len(),
    ensures
        references_resolve(commit_tables(s, modules, decls, children, module_base, decl_base)),
{
    let mkey = |m: Module| module_key(m);
    let mid = |m: Module| m.id;
    let dkey = |d: Declaration| decl_key(d);
    let did = |d: Declaration| d.id;
    let mt = insert_or_ignore(s.modules, modules, mkey, mid);
    let sm = modules.map_values(|m: Module| mt[module_key(m)]);
    let ds = decls.map_values(|d: Declaration| settled_declaration(d, module_base, sm));
    let dt = insert_or_ignore(s.declarations, ds, dkey, did);
    let sd = ds.map_values(|d: Declaration| dt[decl_key(d)]);
    let kept = children.filter(|c: ChildDeclaration| declared_now(c, decl_base, sd));
    let r = commit_tables(s, modules, decls, children, module_base, decl_base);
    lemma_insert_or_ignore_covers(s.modules, modules, mkey, mid);
    lemma_insert_or_ignore_origin(s.modules, modules, mkey, mid);
    assert forall|k: (i64, Seq<char>)| #[trigger] r.modules.contains_key(k) implies r.packages.values().contains(
        k.0,
    ) by {
        if !s.modules.contains_key(k) {
            let i = choose|i: int| 0 <= i < modules.len() && mkey(modules[i]) == k;
            assert(s.packages.values().contains(modules[i].package_version_id));
        }
    }
    lemma_insert_or_ignore_covers(s.declarations, ds, dkey, did);
    lemma_insert_or_ignore_origin(s.declarations, ds, dkey, did);
    assert forall|k: (i64, Seq<char>)| #[trigger] r.declarations.contains_key(k) implies r.modules.values().contains(
        k.0,
    ) by {
        if s.declarations.contains_key(k) {
            let mk = choose|mk: (i64, Seq<char>)| #[trigger] s.modules.contains_key(mk) && s.modules[mk] == k.0;
            assert(mt.contains_key(mk) && mt[mk] == s.modules[mk]);
        } else {
            let j = choose|j: int| 0 <= j < ds.len() && dkey(ds[j]) == k;
            let idx = decls[j].module_id - module_base - 1;
            let mk = module_key(modules[idx]);
            assert(mkey(modules[idx]) == mk);
            assert(mt.contains_key(mk));
            assert(ds[j].module_id == sm[idx]);
            assert(sm[idx] == mt[mk]);
        }
    }
    children.filter_lemma(|c: ChildDeclaration| declared_now(c, decl_base, sd));
    let added = kept.map_values(|c: ChildDeclaration| c.declaration_id);
    assert forall|i: int| 0 <= i < r.children.len() implies r.declarations.values().contains(
        #[trigger] r.children[i],
    ) by {
        if i < s.children.len() {
            assert(r.children[i] == s.children[i]);
            assert(s.declarations.values().contains(s.children[i]));
            let dk = choose|dk: (i64, Seq<char>)| #[trigger] s.declarations.contains_key(dk) && s.declarations[dk] == s.children[i];
            assert(dt.contains_key(dk) && dt[dk] == s.declarations[dk]);
        } else {
            let n = i - s.children.len();
            assert(r.children[i] == added[n]);
            let c = kept[n];
            assert(declared_now(c, decl_base, sd));
            assert(kept.contains(c));
            children.lemma_filter_contains_rev(|c: ChildDeclaration| declared_now(c, decl_base, sd), c);
            let m = choose|m: int| 0 <= m < children.len() && children[m] == c;
            let idx = c.declaration_id - decl_base - 1;
            assert(dkey(ds[idx]) == decl_key(ds[idx]));
            assert(dt.contains_key(decl_key(ds[idx])));
            assert(sd[idx] == dt[decl_key(ds[idx])]);
        }
    }
}

proof fn lemma_edges_settled(ps: Seq<PackageInfo>, settled: Seq<i64>, i: int, e: (int, Seq<char>))
    requires
        0 <= i <= ps.len(),
        settled.len() == ps.len(),
        edges_of(ps, settled, i).contains(e),
    ensures
        exists|k: int| 0 <= k < i && e.0 == settled[k] as int,
    decreases i,
{
    if i > 0 {
        let prev = edges_of(ps, settled, i - 1);
        let mine = ps[i - 1].dependencies@.map_values(|d: String| (settled[i - 1] as int, d@));
        assert(edges_of(ps, settled, i) == prev + mine);
        let n = choose|n: int| 0 <= n < edges_of(ps, settled, i).len() && edges_of(ps, settled, i)[n] == e;
        if n < prev.len() {
            assert(prev[n] == e);
            lemma_edges_settled(ps, settled, i - 1, e);
        } else {
            assert(mine[n - prev.len()] == e);
        }
    }
}

/// Package ingestion keeps the store's references resolved: the workspace
/// package is held afterwards, and every edge and association it adds points
/// at a package the store holds.
pub proof fn lemma_ingest_keeps_references(
    s: StoreTables,
    manifest: Seq<PackageInfo>,
    candidates: Seq<PackageVersion>,
    workspace: PackageVersion,
    snapshot_id: i64,
)
    requires
        references_resolve(s),
        candidates.len() == manifest.len(),
        s.snapshots.values().contains(snapshot_id),
    ensures
        references_resolve(ingest_packages(s, manifest, candidates, workspace, snapshot_id)),
        ingest_packages(s, manifest, candidates, workspace, snapshot_id).packages.values().contains(
            workspace_settled(s, candidates, workspace),
        ),
{
    let pkey = |p: PackageVersion| package_key(p);
    let pid = |p: PackageVersion| p.id;
    let all = candidates.push(workspace);
    let pt = package_table(s, candidates, workspace);
    let settled = candidates.map_values(|p: PackageVersion| pt[package_key(p)]);
    let wid = pt[package_key(workspace)];
    let r = ingest_packages(s, manifest, candidates, workspace, snapshot_id);
    lemma_insert_or_ignore_covers(s.packages, all, pkey, pid);
    assert(all[all.len() - 1] == workspace);
    assert(pt.contains_key(package_key(workspace)));
    assert forall|k: int| 0 <= k < settled.len() implies pt.values().contains(#[trigger] settled[k]) by {
        assert(all[k] == candidates[k]);
        assert(pt.contains_key(pkey(all[k])));
    }
    let edges = edges_of(manifest, settled, manifest.len() as int).map_values(
        |e: (int, Seq<char>)| (e.0 as i64, e.1),
    );
    assert forall|e: (i64, Seq<char>)| #[trigger] r.dependencies.contains(e) implies r.packages.values().contains(
        e.0,
    ) by {
        if s.dependencies.contains(e) {
            let k = choose|k: (Seq<char>, Seq<char>)| #[trigger] s.packages.contains_key(k) && s.packages[k] == e.0;
            assert(pt.contains_key(k) && pt[k] == s.packages[k]);
        } else {
            assert(edges.to_set().contains(e));
            let n = choose|n: int| 0 <= n < edges.len() && edges[n] == e;
            let raw = edges_of(manifest, settled, manifest.len() as int)[n];
            assert(edges_of(manifest, settled, manifest.len() as int).contains(raw));
            lemma_edges_settled(manifest, settled, manifest.len() as int, raw);
            let k = choose|k: int| 0 <= k < manifest.len() && raw.0 == settled[k] as int;
            assert(pt.values().contains(settled[k]));
        }
    }
    let rows = association_rows(snapshot_id as int, candidates, settled, wid as int).map_values(
        |x: (int, int, Seq<char>, bool)| (x.0 as i64, x.1 as i64),
    );
    assert forall|a: (i64, i64)| #[trigger] r.associations.contains(a) implies r.snapshots.values().contains(
        a.0,
    ) by {
        if !s.associations.contains(a) {
            assert(rows.to_set().contains(a));
            let n = choose|n: int| 0 <= n < rows.len() && rows[n] == a;
            assert(a.0 == snapshot_id);
        }
    }
    assert forall|a: (i64, i64)| #[trigger] r.associations.contains(a) implies r.packages.values().contains(
        a.1,
    ) by {
        if s.associations.contains(a) {
            let k = choose|k: (Seq<char>, Seq<char>)| #[trigger] s.packages.contains_key(k) && s.packages[k] == a.1;
            assert(pt.contains_key(k) && pt[k] == s.packages[k]);
        } else {
            assert(rows.to_set().contains(a));
            let n = choose|n: int| 0 <= n < rows.len() && rows[n] == a;
            if n < candidates.len() {
                assert(pt.values().contains(settled[n]));
            } else {
                assert(pt.values().contains(wid));
            }
        }
    }
    assert forall|k: (i64, Seq<char>)| #[trigger] r.modules.contains_key(k) implies r.packages.values().contains(
        k.0,
    ) by {
        let q = choose|q: (Seq<char>, Seq<char>)| #[trigger] s.packages.contains_key(q) && s.packages[q] == k.0;
        assert(pt.contains_key(q) && pt[q] == s.packages[q]);
    }
}

/// Ingesting the packages of an unchanged manifest a second time changes no
/// table: when `t` holds what the first ingestion left (candidates with the
/// same (name, version) keys in the same order, a workspace package with the
/// same key, the same snapshot), ingesting again leaves `t` as it is, and the
/// workspace package is held under the same identifier as the first time.
pub proof fn lemma_reingest_changes_nothing(
    s: StoreTables,
    t: StoreTables,
    manifest: Seq<PackageInfo>,
    candidates1: Seq<PackageVersion>,
    workspace1: PackageVersion,
    candidates2: Seq<PackageVersion>,
    workspace2: PackageVersion,
    snapshot_id: i64,
)
    requires
        candidates1.len() == manifest.len(),
        candidates2.len() == manifest.len(),
        forall|i: int|
            0 <= i < manifest.len() ==> #[trigger] package_key(candidates1[i]) == package_key(
                candidates2[i],
            ),
        package_key(workspace1) == package_key(workspace2),
        ({
            let first = ingest_packages(s, manifest, candidates1, workspace1, snapshot_id);
            &&& t.packages == first.packages
            &&& t.dependencies == first.dependencies
            &&& t.associations == first.associations
        }),
    ensures
        ingest_packages(t, manifest, candidates2, workspace2, snapshot_id) == t,
        workspace_settled(t, candidates2, workspace2) == workspace_settled(s, candidates1, workspace1),
{
    let pkey = |p: PackageVersion| package_key(p);
    let pid = |p: PackageVersion| p.id;
    let all1 = candidates1.push(workspace1);
    let all2 = candidates2.push(workspace2);
    let pt = package_table(s, candidates1, workspace1);
    lemma_insert_or_ignore_covers(s.packages, all1, pkey, pid);
    assert forall|i: int| 0 <= i < all2.len() implies pt.contains_key(#[trigger] pkey(all2[i])) by {
        assert(pkey(all2[i]) == pkey(all1[i]));
    }
    lemma_insert_or_ignore_held(t.packages, all2, pkey, pid);
    let s1 = candidates1.map_values(|p: PackageVersion| pt[package_key(p)]);
    let s2 = candidates2.map_values(|p: PackageVersion| pt[package_key(p)]);
    assert(s1 =~= s2);
    let e1 = edges_of(manifest, s1, manifest.len() as int).map_values(
        |e: (int, Seq<char>)| (e.0 as i64, e.1),
    );
    let wid = pt[package_key(workspace1)];
    let r1 = association_rows(snapshot_id as int, candidates1, s1, wid as int).map_values(
        |x: (int, int, Seq<char>, bool)| (x.0 as i64, x.1 as i64),
    );
    let r2 = association_rows(snapshot_id as int, candidates2, s2, wid as int).map_values(
        |x: (int, int, Seq<char>, bool)| (x.0 as i64, x.1 as i64),
    );
    assert(r1 =~= r2);
    let again = ingest_packages(t, manifest, candidates2, workspace2, snapshot_id);
    assert(again.dependencies =~= t.dependencies.union(e1.to_set()));
    assert(t.dependencies.union(e1.to_set()) =~= t.dependencies);
    assert(again.associations =~= t.associations.union(r1.to_set()));
    assert(t.associations.union(r1.to_set()) =~= t.associations);
}

/// A whole load of the project `name` at commit `hash` against `s`:
/// registration of the project and the snapshot under the speculative
/// identifiers `project_id` and `snapshot_id`, package ingestion for the
/// snapshot as the store holds it, then the commit of the modules,
/// declarations and children.
pub open spec fn load_tables(
    s: StoreTables,
    name: Seq<char>,
    project_id: i64,
    hash: Seq<char>,
    snapshot_id: i64,
    manifest: Seq<PackageInfo>,
    candidates: Seq<PackageVersion>,
    workspace: PackageVersion,
    modules: Seq<Module>,
    decls: Seq<Declaration>,
    children: Seq<ChildDeclaration>,
    module_base: int,
    decl_base: int,
) -> StoreTables {
    let registered = register_tables(s, name, project_id, hash, snapshot_id);
    commit_tables(
        ingest_packages(
            registered,
            manifest,
            candidates,
            workspace,
            snapshot_settled(s, name, project_id, hash, snapshot_id),
        ),
        modules,
        decls,
        children,
        module_base,
        decl_base,
    )
}

/// Registration keeps the store's references resolved, and the snapshot is
/// held afterwards.
pub proof fn lemma_register_keeps_references(
    s: StoreTables,
    name: Seq<char>,
    project_id: i64,
    hash: Seq<char>,
    snapshot_id: i64,
)
    requires
        references_resolve(s),
    ensures
        references_resolve(register_tables(s, name, project_id, hash, snapshot_id)),
        register_tables(s, name, project_id, hash, snapshot_id).snapshots.values().contains(
            snapshot_settled(s, name, project_id, hash, snapshot_id),
        ),
{
    let r = register_tables(s, name, project_id, hash, snapshot_id);
    let key = (r.projects[name], hash);
    assert(r.projects.contains_key(name));
    assert(r.snapshots.contains_key(key));
    assert forall|k: (i64, Seq<char>)| #[trigger] r.snapshots.contains_key(k) implies r.projects.values().contains(
        k.0,
    ) by {
        if s.snapshots.contains_key(k) {
            let q = choose|q: Seq<char>| #[trigger] s.projects.contains_key(q) && s.projects[q] == k.0;
            if !s.projects.contains_key(name) {
                assert(q != name);
            }
            assert(r.projects.contains_key(q) && r.projects[q] == k.0);
        } else {
            assert(k == key);
        }
    }
    assert forall|a: (i64, i64)| #[trigger] r.associations.contains(a) implies r.snapshots.values().contains(
        a.0,
    ) by {
        let q = choose|q: (i64, Seq<char>)| #[trigger] s.snapshots.contains_key(q) && s.snapshots[q] == a.0;
        assert(r.snapshots.contains_key(q) && r.snapshots[q] == a.0);
    }
}

/// Registering an unchanged project and commit a second time changes no
/// table and settles on the same snapshot identifier, whatever speculative
/// identifiers the second load allocated.
pub proof fn lemma_reregister_changes_nothing(
    s: StoreTables,
    t: StoreTables,
    name: Seq<char>,
    project_id1: i64,
    snapshot_id1: i64,
    project_id2: i64,
    snapshot_id2: i64,
    hash: Seq<char>,
)
    requires
        t.projects == register_tables(s, name, project_id1, hash, snapshot_id1).projects,
        t.snapshots == register_tables(s, name, project_id1, hash, snapshot_id1).snapshots,
    ensures
        register_tables(t, name, project_id2, hash, snapshot_id2) == t,
        snapshot_settled(t, name, project_id2, hash, snapshot_id2) == snapshot_settled(
            s,
            name,
            project_id1,
            hash,
            snapshot_id1,
        ),
{
    let r = register_tables(s, name, project_id1, hash, snapshot_id1);
    assert(r.projects.contains_key(name));
    assert(r.snapshots.contains_key((r.projects[name], hash)));
}

/// Committing the documents of an unchanged project a second time changes no
/// table: given the module rows that both loads built for the same documents
/// `ok` in the package `package_id`, and a second load whose counters were
/// seeded with at least the largest declaration identifier the store held
/// after the first, the store after both commits equals the store after the
/// first (same module and declaration keys and identifiers, same child rows),
/// so every row count is that of loading once.
pub proof fn lemma_recommit_changes_nothing(
    s: StoreTables,
    ok: Seq<(Seq<char>, ModuleDoc)>,
    package_id: int,
    modules1: Seq<Module>,
    module_base1: int,
    decl_base1: int,
    child_base1: int,
    modules2: Seq<Module>,
    module_base2: int,
    decl_base2: int,
    child_base2: int,
)
    requires
        modules1.len() == ok.len(),
        modules2.len() == ok.len(),
        forall|k: int|
            0 <= k < ok.len() ==> is_module_record(
                #[trigger] modules1[k],
                ok[k].0,
                ok[k].1,
                module_base1 + 1 + k,
                package_id,
            ),
        forall|k: int|
            0 <= k < ok.len() ==> is_module_record(
                #[trigger] modules2[k],
                ok[k].0,
                ok[k].1,
                module_base2 + 1 + k,
                package_id,
            ),
        i64::MIN <= module_base1,
        i64::MIN <= module_base2,
        i64::MIN <= decl_base2,
        i64::MIN <= child_base2,
        module_base1 + ok.len() <= i64::MAX,
        module_base2 + ok.len() <= i64::MAX,
        decl_base2 + decl_count(ok) <= i64::MAX,
        child_base2 + child_count(ok) <= i64::MAX,
        ({
            let first = commit_tables(
                s,
                modules1,
                batch_declarations(ok, module_base1, decl_base1),
                batch_children(ok, child_base1, decl_base1),
                module_base1,
                decl_base1,
            );
            forall|k: (i64, Seq<char>)|
                #[trigger] first.declarations.contains_key(k) ==> first.declarations[k] <= decl_base2
        }),
    ensures
        ({
            let first = commit_tables(
                s,
                modules1,
                batch_declarations(ok, module_base1, decl_base1),
                batch_children(ok, child_base1, decl_base1),
                module_base1,
                decl_base1,
            );
            let second = commit_tables(
                first,
                modules2,
                batch_declarations(ok, module_base2, decl_base2),
                batch_children(ok, child_base2, decl_base2),
                module_base2,
                decl_base2,
            );
            second == first
        }),
{
    let mkey = |m: Module| module_key(m);
    let mid = |m: Module| m.id;
    let dkey = |d: Declaration| decl_key(d);
    let did = |d: Declaration| d.id;
    let d1 = batch_declarations(ok, module_base1, decl_base1);
    let c1 = batch_children(ok, child_base1, decl_base1);
    let d2 = batch_declarations(ok, module_base2, decl_base2);
    let c2 = batch_children(ok, child_base2, decl_base2);
    let first = commit_tables(s, modules1, d1, c1, module_base1, decl_base1);

    // Modules: same keys, all held after the first commit.
    let mt1 = first.modules;
    lemma_insert_or_ignore_covers(s.modules, modules1, mkey, mid);
    assert forall|i: int| 0 <= i < modules2.len() implies mt1.contains_key(#[trigger] mkey(modules2[i])) by {
        assert(mkey(modules2[i]) == mkey(modules1[i]));
    }
    lemma_insert_or_ignore_held(mt1, modules2, mkey, mid);
    let sm1 = modules1.map_values(|m: Module| mt1[module_key(m)]);
    let sm2 = modules2.map_values(|m: Module| mt1[module_key(m)]);
    assert forall|i: int| 0 <= i < sm1.len() implies sm1[i] == sm2[i] by {
        assert(mkey(modules2[i]) == mkey(modules1[i]));
    }
    assert(sm1 =~= sm2);

    // Declarations: same keys once settled, all held after the first commit.
    lemma_reload_same_declaration_keys(ok, module_base1, decl_base1, module_base2, decl_base2, sm1);
    let ds1 = d1.map_values(|d: Declaration| settled_declaration(d, module_base1, sm1));
    let ds2 = d2.map_values(|d: Declaration| settled_declaration(d, module_base2, sm2));
    let dt1 = first.declarations;
    lemma_insert_or_ignore_covers(s.declarations, ds1, dkey, did);
    assert forall|j: int| 0 <= j < ds2.len() implies dt1.contains_key(#[trigger] dkey(ds2[j])) by {
        assert(dkey(ds2[j]) == dkey(ds1[j]));
        assert(dt1.contains_key(dkey(ds1[j])));
    }
    lemma_insert_or_ignore_held(dt1, ds2, dkey, did);

    // Children: every declaration was held before, under an identifier no
    // larger than the second load's base, so no child is taken.
    let sd2 = ds2.map_values(|d: Declaration| dt1[decl_key(d)]);
    lemma_batch_numbering(ok, module_base2, decl_base2, child_base2);
    assert forall|k: int| 0 <= k < sd2.len() implies #[trigger] sd2[k] != decl_base2 + 1 + k by {
        assert(dt1.contains_key(dkey(ds2[k])));
    }
    lemma_reload_adds_no_children(c2, decl_base2, sd2);
    let kept2 = c2.filter(|c: ChildDeclaration| declared_now(c, decl_base2, sd2));
    assert(kept2.map_values(|c: ChildDeclaration| c.declaration_id) =~= Seq::<i64>::empty());
    assert(first.children + kept2.map_values(|c: ChildDeclaration| c.declaration_id) =~= first.children);
    let second = commit_tables(first, modules2, d2, c2, module_base2, decl_base2);
    assert(second.modules == first.modules);
    assert(second.declarations == first.declarations);
    assert(second.children == first.children);
}

/// Loading an unchanged project at the same commit a second time changes no
/// table: the second load ingests a manifest whose candidates and workspace
/// package have the same keys, builds its modules from the same documents
/// `ok` under the identifier the store then reports for the workspace
/// package, and has its counters seeded with at least the largest
/// declaration identifier the store holds; whatever speculative identifiers
/// it allocates, the store after it equals the store after the first load, so
/// every row count is that of loading once.
pub proof fn lemma_reload_changes_nothing(
    s: StoreTables,
    name: Seq<char>,
    hash: Seq<char>,
    project_id1: i64,
    snapshot_id1: i64,
    project_id2: i64,
    snapshot_id2: i64,
    manifest: Seq<PackageInfo>,
    candidates1: Seq<PackageVersion>,
    workspace1: PackageVersion,
    candidates2: Seq<PackageVersion>,
    workspace2: PackageVersion,
    ok: Seq<(Seq<char>, ModuleDoc)>,
    modules1: Seq<Module>,
    module_base1: int,
    decl_base1: int,
    child_base1: int,
    modules2: Seq<Module>,
    module_base2: int,
    decl_base2: int,
    child_base2: int,
)
    requires
        candidates1.len() == manifest.len(),
        candidates2.len() == manifest.len(),
        forall|i: int|
            0 <= i < manifest.len() ==> #[trigger] package_key(candidates1[i]) == package_key(
                candidates2[i],
            ),
        package_key(workspace1) == package_key(workspace2),
        modules1.len() == ok.len(),
        modules2.len() == ok.len(),
        forall|k: int|
            0 <= k < ok.len() ==> is_module_record(
                #[trigger] modules1[k],
                ok[k].0,
                ok[k].1,
                module_base1 + 1 + k,
                workspace_settled(s, candidates1, workspace1) as int,
            ),
        i64::MIN <= module_base1,
        i64::MIN <= module_base2,
        i64::MIN <= decl_base2,
        i64::MIN <= child_base2,
        module_base1 + ok.len() <= i64::MAX,
        module_base2 + ok.len() <= i64::MAX,
        decl_base2 + decl_count(ok) <= i64::MAX,
        child_base2 + child_count(ok) <= i64::MAX,
        ({
            let first = load_tables(
                s,
                name,
                project_id1,
                hash,
                snapshot_id1,
                manifest,
                candidates1,
                workspace1,
                modules1,
                batch_declarations(ok, module_base1, decl_base1),
                batch_children(ok, child_base1, decl_base1),
                module_base1,
                decl_base1,
            );
            &&& forall|k: int|
                0 <= k < ok.len() ==> is_module_record(
                    #[trigger] modules2[k],
                    ok[k].0,
                    ok[k].1,
                    module_base2 + 1 + k,
                    workspace_settled(first, candidates2, workspace2) as int,
                )
            &&& forall|k: (i64, Seq<char>)|
                #[trigger] first.declarations.contains_key(k) ==> first.declarations[k]
                    <= decl_base2
        }),
    ensures
        ({
            let first = load_tables(
                s,
                name,
                project_id1,
                hash,
                snapshot_id1,
                manifest,
                candidates1,
                workspace1,
                modules1,
                batch_declarations(ok, module_base1, decl_base1),
                batch_children(ok, child_base1, decl_base1),
                module_base1,
                decl_base1,
            );
            load_tables(
                first,
                name,
                project_id2,
                hash,
                snapshot_id2,
                manifest,
                candidates2,
                workspace2,
                modules2,
                batch_declarations(ok, module_base2, decl_base2),
                batch_children(ok, child_base2, decl_base2),
                module_base2,
                decl_base2,
            ) == first
        }),
{
    let d1 = batch_declarations(ok, module_base1, decl_base1);
    let c1 = batch_children(ok, child_base1, decl_base1);
    let registered = register_tables(s, name, project_id1, hash, snapshot_id1);
    let sid = snapshot_settled(s, name, project_id1, hash, snapshot_id1);
    let ingested = ingest_packages(registered, manifest, candidates1, workspace1, sid);
    let first = commit_tables(ingested, modules1, d1, c1, module_base1, decl_base1);
    assert(first == load_tables(
        s,
        name,
        project_id1,
        hash,
        snapshot_id1,
        manifest,
        candidates1,
        workspace1,
        modules1,
        d1,
        c1,
        module_base1,
        decl_base1,
    ));
    assert forall|k: (i64, Seq<char>)| #[trigger] first.declarations.contains_key(k) implies first.declarations[k]
        <= decl_base2 by {}
    assert(registered.packages == s.packages);
    assert(workspace_settled(registered, candidates1, workspace1) == workspace_settled(
        s,
        candidates1,
        workspace1,
    ));
    lemma_reregister_changes_nothing(
        s,
        first,
        name,
        project_id1,
        snapshot_id1,
        project_id2,
        snapshot_id2,
        hash,
    );
    lemma_reingest_changes_nothing(
        registered,
        first,
        manifest,
        candidates1,
        workspace1,
        candidates2,
        workspace2,
        sid,
    );
    lemma_recommit_changes_nothing(
        ingested,
        ok,
        workspace_settled(s, candidates1, workspace1) as int,
        modules1,
        module_base1,
        decl_base1,
        child_base1,
        modules2,
        module_base2,
        decl_base2,
        child_base2,
    );
}

/// A whole load keeps the store's references resolved, provided its modules
/// are built under the identifier the store reports for the workspace package
/// and its declarations and children come from one batch (every reference
/// points into the batch).
pub proof fn lemma_load_keeps_references(
    s: StoreTables,
    name: Seq<char>,
    project_id: i64,
    hash: Seq<char>,
    snapshot_id: i64,
    manifest: Seq<PackageInfo>,
    candidates: Seq<PackageVersion>,
    workspace: PackageVersion,
    modules: Seq<Module>,
    decls: Seq<Declaration>,
    children: Seq<ChildDeclaration>,
    module_base: int,
    decl_base: int,
)
    requires
        references_resolve(s),
        candidates.len() == manifest.len(),
        forall|k: int|
            0 <= k < modules.len() ==> #[trigger] modules[k].package_version_id == workspace_settled(
                s,
                candidates,
                workspace,
            ),
        forall|j: int|
            0 <= j < decls.len() ==> module_base < #[trigger] decls[j].module_id <= module_base
                + modules.len(),
        forall|c: int|
            0 <= c < children.len() ==> decl_base < #[trigger] children[c].declaration_id
                <= decl_base + decls.len(),
    ensures
        references_resolve(
            load_tables(
                s,
                name,
                project_id,
                hash,
                snapshot_id,
                manifest,
                candidates,
                workspace,
                modules,
                decls,
                children,
                module_base,
                decl_base,
            ),
        ),
{
    let registered = register_tables(s, name, project_id, hash, snapshot_id);
    let sid = snapshot_settled(s, name, project_id, hash, snapshot_id);
    lemma_register_keeps_references(s, name, project_id, hash, snapshot_id);
    assert(registered.packages == s.packages);
    let ingested = ingest_packages(registered, manifest, candidates, workspace, sid);
    lemma_ingest_keeps_references(registered, manifest, candidates, workspace, sid);
    assert(workspace_settled(registered, candidates, workspace) == workspace_settled(s, candidates, workspace));
    lemma_commit_keeps_references(ingested, modules, decls, children, module_base, decl_base);
}

} // verus!
