use crate::documents::{children_before, lemma_children_before_monotone, DeclarationDoc, ModuleDoc};
use crate::entities::{ChildDeclaration, Declaration, Module, ParsedModule};
use crate::ids::EntityKind;
use crate::paths::module_name_of;
use crate::pipeline::{all_child_records, child_records, declaration_records, LoadPipeline};
use crate::vecs::reversed;
use vstd::prelude::*;

verus! {

/// Everything the parse phase produced, ready to be committed: modules, then
/// declarations, then child declarations, each under consecutive fresh
/// identifiers, and the number of documents that failed to parse.
#[derive(Debug)]
pub struct ModuleBatch {
    pub modules: Vec<Module>,
    pub declarations: Vec<Declaration>,
    pub child_declarations: Vec<ChildDeclaration>,
    pub parse_errors: usize,
    /// The module counter before the batch: module `k` is numbered `module_base + 1 + k`.
    pub module_base: i64,
    /// The declaration counter before the batch: declaration `j` is numbered
    /// `declaration_base + 1 + j`.
    pub declaration_base: i64,
}

/// The documents among `docs` that parsed, in order, with their paths.
pub open spec fn parsed_docs(docs: Seq<(String, Option<ModuleDoc>)>) -> Seq<(Seq<char>, ModuleDoc)>
    decreases docs.len(),
{
    if docs.len() == 0 {
        Seq::empty()
    } else {
        let prev = parsed_docs(docs.drop_last());
        match docs.last().1 {
            Some(d) => prev.push((docs.last().0@, d)),
            None => prev,
        }
    }
}

/// The number of documents among `docs` that failed to parse.
pub open spec fn parse_failures(docs: Seq<(String, Option<ModuleDoc>)>) -> int
    decreases docs.len(),
{
    if docs.len() == 0 {
        0
    } else {
        parse_failures(docs.drop_last()) + if docs.last().1 is None {
            1int
        } else {
            0
        }
    }
}

/// The number of declarations in the documents `ok`.
pub open spec fn decl_count(ok: Seq<(Seq<char>, ModuleDoc)>) -> int
    decreases ok.len(),
{
    if ok.len() == 0 {
        0
    } else {
        decl_count(ok.drop_last()) + ok.last().1.declarations@.len()
    }
}

/// The number of child declarations in the documents `ok`.
pub open spec fn child_count(ok: Seq<(Seq<char>, ModuleDoc)>) -> int
    decreases ok.len(),
{
    if ok.len() == 0 {
        0
    } else {
        let ds = ok.last().1.declarations@;
        child_count(ok.drop_last()) + children_before(ds, ds.len() as int)
    }
}

/// Declaration records of the documents `ok`, in order: module `k` of the
/// batch is numbered `last_module + 1 + k`, declarations from `last_decl + 1` on.
pub open spec fn batch_declarations(ok: Seq<(Seq<char>, ModuleDoc)>, last_module: int, last_decl: int) -> Seq<
    Declaration,
>
    decreases ok.len(),
{
    if ok.len() == 0 {
        Seq::empty()
    } else {
        let prev = ok.drop_last();
        batch_declarations(prev, last_module, last_decl) + declaration_records(
            ok.last().1.declarations@,
            last_decl + decl_count(prev),
            last_module + ok.len(),
        )
    }
}

/// Child declaration records of the documents `ok`, in order, numbered from
/// `last_child + 1` on, under declarations numbered from `last_decl + 1` on.
pub open spec fn batch_children(ok: Seq<(Seq<char>, ModuleDoc)>, last_child: int, last_decl: int) -> Seq<
    ChildDeclaration,
>
    decreases ok.len(),
{
    if ok.len() == 0 {
        Seq::empty()
    } else {
        let prev = ok.drop_last();
        let ds = ok.last().1.declarations@;
        batch_children(prev, last_child, last_decl) + all_child_records(
            ds,
            ds.len() as int,
            last_child + child_count(prev),
            last_decl + decl_count(prev),
        )
    }
}

/// Whether `m` is the module record of the document `doc` found at `path`,
/// under identifier `id`, owned by the package `package_id`.
pub open spec fn is_module_record(m: Module, path: Seq<char>, doc: ModuleDoc, id: int, package_id: int) -> bool {
    &&& m.id == id
    &&& m.package_version_id == package_id
    &&& m.name == doc.name
    &&& m.comments == doc.comments
    &&& (m.path matches Some(p) ==> module_name_of(path) == Some(p@))
    &&& (m.path is None ==> module_name_of(path) is None)
}

proof fn lemma_prefix_counts(docs: Seq<(String, Option<ModuleDoc>)>, i: int)
    requires
        0 <= i <= docs.len(),
    ensures
        decl_count(parsed_docs(docs.take(i))) <= decl_count(parsed_docs(docs)),
        child_count(parsed_docs(docs.take(i))) <= child_count(parsed_docs(docs)),
        parsed_docs(docs.take(i)).len() <= parsed_docs(docs).len(),
    decreases docs.len() - i,
{
    if i < docs.len() {
        lemma_prefix_counts(docs, i + 1);
        let t = docs.take(i + 1);
        assert(t.drop_last() =~= docs.take(i));
        let prev = parsed_docs(docs.take(i));
        if let Some(d) = t.last().1 {
            let x = (t.last().0@, d);
            assert(prev.push(x).drop_last() =~= prev);
            lemma_child_total_nonneg(prev.push(x));
        }
    } else {
        assert(docs.take(i) =~= docs);
    }
}

proof fn lemma_child_total_nonneg(ok: Seq<(Seq<char>, ModuleDoc)>)
    ensures
        ok.len() > 0 ==> children_before(
            ok.last().1.declarations@,
            ok.last().1.declarations@.len() as int,
        ) >= 0,
{
    if ok.len() > 0 {
        lemma_children_before_monotone(
            ok.last().1.declarations@,
            0,
            ok.last().1.declarations@.len() as int,
        );
    }
}

impl LoadPipeline {
    /// Builds the records of every parsed document, in order, all owned by the
    /// package `package_id`; a document that failed to parse (`None`) is
    /// counted and skipped, and never stops the batch.
    pub fn build_batch(&mut self, documents: Vec<(String, Option<ModuleDoc>)>, package_id: i64) -> (r:
        ModuleBatch)
        requires
            old(self).id_gen.counter(EntityKind::Module) + documents@.len() <= i64::MAX,
            old(self).id_gen.counter(EntityKind::Declaration) + decl_count(parsed_docs(documents@))
                <= i64::MAX,
            old(self).id_gen.counter(EntityKind::Child) + child_count(parsed_docs(documents@))
                <= i64::MAX,
        ensures
            ({
                let ok = parsed_docs(documents@);
                let m0 = old(self).id_gen.counter(EntityKind::Module);
                let d0 = old(self).id_gen.counter(EntityKind::Declaration);
                let c0 = old(self).id_gen.counter(EntityKind::Child);
                &&& r.parse_errors == parse_failures(documents@)
                &&& r.module_base == m0
                &&& r.declaration_base == d0
                &&& r.modules@.len() == ok.len()
                &&& forall|k: int|
                    0 <= k < ok.len() ==> is_module_record(
                        #[trigger] r.modules@[k],
                        ok[k].0,
                        ok[k].1,
                        m0 + 1 + k,
                        package_id as int,
                    )
                &&& r.declarations@ == batch_declarations(ok, m0, d0)
                &&& r.child_declarations@ == batch_children(ok, c0, d0)
                &&& forall|j: int|
                    0 <= j < r.declarations@.len() ==> {
                        let d = #[trigger] r.declarations@[j];
                        d.id == d0 + 1 + j && m0 < d.module_id <= m0 + ok.len()
                    }
                &&& forall|c: int|
                    0 <= c < r.child_declarations@.len() ==> {
                        let x = #[trigger] r.child_declarations@[c];
                        x.id == c0 + 1 + c && d0 < x.declaration_id <= d0 + r.declarations@.len()
                    }
                &&& final(self).id_gen.counter(EntityKind::Module) == m0 + ok.len()
                &&& final(self).id_gen.counter(EntityKind::Declaration) == d0 + decl_count(ok)
                &&& final(self).id_gen.counter(EntityKind::Child) == c0 + child_count(ok)
            }),
            forall|k: EntityKind|
                k != EntityKind::Module && k != EntityKind::Declaration && k != EntityKind::Child
                    ==> #[trigger] final(self).id_gen.counter(k) == old(self).id_gen.counter(k),
            final(self).verbose == old(self).verbose,
    {
        let ghost docs = documents@;
        let ghost g0 = self.id_gen;
        let ghost m0 = self.id_gen.counter(EntityKind::Module);
        let ghost d0 = self.id_gen.counter(EntityKind::Declaration);
        let ghost c0 = self.id_gen.counter(EntityKind::Child);
        let module_base = self.id_gen.current(EntityKind::Module);
        let declaration_base = self.id_gen.current(EntityKind::Declaration);
        let n = documents.len();
        let mut pending = reversed(documents);
        let mut modules: Vec<Module> = Vec::new();
        let mut decls: Vec<Declaration> = Vec::new();
        let mut children: Vec<ChildDeclaration> = Vec::new();
        let mut errors: usize = 0;
        let mut i: usize = 0;
        proof {
            assert(docs.take(0) =~= Seq::<(String, Option<ModuleDoc>)>::empty());
        }
        while i < n
            invariant
                n == docs.len(),
                i <= n,
                pending@.len() == n - i,
                forall|k: int| 0 <= k < n - i ==> #[trigger] pending@[k] == docs[n - 1 - k],
                errors == parse_failures(docs.take(i as int)),
                errors <= i,
                modules@.len() == parsed_docs(docs.take(i as int)).len(),
                forall|k: int|
                    0 <= k < modules@.len() ==> is_module_record(
                        #[trigger] modules@[k],
                        parsed_docs(docs.take(i as int))[k].0,
                        parsed_docs(docs.take(i as int))[k].1,
                        m0 + 1 + k,
                        package_id as int,
                    ),
                decls@ == batch_declarations(parsed_docs(docs.take(i as int)), m0, d0),
                children@ == batch_children(parsed_docs(docs.take(i as int)), c0, d0),
                self.id_gen.counter(EntityKind::Module) == m0 + parsed_docs(docs.take(i as int)).len(),
                self.id_gen.counter(EntityKind::Declaration) == d0 + decl_count(
                    parsed_docs(docs.take(i as int)),
                ),
                self.id_gen.counter(EntityKind::Child) == c0 + child_count(
                    parsed_docs(docs.take(i as int)),
                ),
                m0 + n <= i64::MAX,
                d0 + decl_count(parsed_docs(docs)) <= i64::MAX,
                c0 + child_count(parsed_docs(docs)) <= i64::MAX,
                forall|k: EntityKind|
                    k != EntityKind::Module && k != EntityKind::Declaration && k != EntityKind::Child
                        ==> #[trigger] self.id_gen.counter(k) == g0.counter(k),
                self.verbose == old(self).verbose,
            decreases n - i,
        {
            let ghost pre = docs.take(i as int);
            let ghost post = docs.take(i + 1);
            proof {
                assert(post.drop_last() =~= pre);
                lemma_prefix_counts(docs, i + 1);
                lemma_parsed_len(pre);
            }
            let (path, outcome) = pending.pop().unwrap();
            assert((path, outcome) == docs[i as int]);
            match outcome {
                None => {
                    errors = errors + 1;
                },
                Some(doc) => {
                    let ghost ok = parsed_docs(pre);
                    proof {
                        assert(parsed_docs(post) == ok.push((path@, doc)));
                        assert(ok.push((path@, doc)).drop_last() =~= ok);
                    }
                    let pm = self.build_parsed_module(path.as_str(), doc, package_id);
                    let ParsedModule { module, declarations: mut ds, child_declarations: mut cs } = pm;
                    modules.push(module);
                    decls.append(&mut ds);
                    children.append(&mut cs);
                    proof {
                        assert forall|k: int| 0 <= k < modules@.len() implies is_module_record(
                            #[trigger] modules@[k],
                            parsed_docs(post)[k].0,
                            parsed_docs(post)[k].1,
                            m0 + 1 + k,
                            package_id as int,
                        ) by {
                            if k < ok.len() {
                                assert(parsed_docs(post)[k] == ok[k]);
                            }
                        }
                    }
                },
            }
            i = i + 1;
        }
        proof {
            assert(docs.take(n as int) =~= docs);
            lemma_parsed_len(docs);
            g0.lemma_counter_range(EntityKind::Module);
            g0.lemma_counter_range(EntityKind::Declaration);
            g0.lemma_counter_range(EntityKind::Child);
            lemma_batch_numbering(parsed_docs(docs), m0, d0, c0);
        }
        ModuleBatch {
            modules,
            declarations: decls,
            child_declarations: children,
            parse_errors: errors,
            module_base,
            declaration_base,
        }
    }
}

proof fn lemma_child_numbering(ds: Seq<DeclarationDoc>, j: int, last_child: int, last_decl: int)
    requires
        0 <= j <= ds.len(),
        i64::MIN <= last_child,
        i64::MIN <= last_decl,
        last_child + children_before(ds, j) <= i64::MAX,
        last_decl + j <= i64::MAX,
    ensures
        ({
            let cs = all_child_records(ds, j, last_child, last_decl);
            &&& cs.len() == children_before(ds, j)
            &&& forall|c: int|
                0 <= c < cs.len() ==> {
                    let x = #[trigger] cs[c];
                    x.id == last_child + 1 + c && last_decl < x.declaration_id <= last_decl + j
                }
        }),
    decreases j,
{
    if j > 0 {
        lemma_children_before_monotone(ds, 0, j - 1);
        lemma_child_numbering(ds, j - 1, last_child, last_decl);
        let prev = all_child_records(ds, j - 1, last_child, last_decl);
        let kids = child_records(
            ds[j - 1].children@,
            last_child + 1 + children_before(ds, j - 1),
            last_decl + j,
        );
        let cs = all_child_records(ds, j, last_child, last_decl);
        assert(cs == prev + kids);
        assert forall|c: int| 0 <= c < cs.len() implies {
            let x = #[trigger] cs[c];
            x.id == last_child + 1 + c && last_decl < x.declaration_id <= last_decl + j
        } by {
            if c >= prev.len() {
                assert(cs[c] == kids[c - prev.len()]);
            } else {
                assert(cs[c] == prev[c]);
            }
        }
    }
}

/// Identifiers of a batch built from the documents `ok` with the counters at
/// `last_module`, `last_decl` and `last_child`: declarations and children are
/// numbered consecutively, and every reference points into the batch.
pub proof fn lemma_batch_numbering(
    ok: Seq<(Seq<char>, ModuleDoc)>,
    last_module: int,
    last_decl: int,
    last_child: int,
)
    requires
        i64::MIN <= last_module,
        i64::MIN <= last_decl,
        i64::MIN <= last_child,
        last_module + ok.len() <= i64::MAX,
        last_decl + decl_count(ok) <= i64::MAX,
        last_child + child_count(ok) <= i64::MAX,
    ensures
        ({
            let ds = batch_declarations(ok, last_module, last_decl);
            let cs = batch_children(ok, last_child, last_decl);
            &&& ds.len() == decl_count(ok)
            &&& cs.len() == child_count(ok)
            &&& forall|j: int|
                0 <= j < ds.len() ==> {
                    let d = #[trigger] ds[j];
                    d.id == last_decl + 1 + j && last_module < d.module_id <= last_module + ok.len()
                }
            &&& forall|c: int|
                0 <= c < cs.len() ==> {
                    let x = #[trigger] cs[c];
                    x.id == last_child + 1 + c && last_decl < x.declaration_id <= last_decl
                        + decl_count(ok)
                }
        }),
    decreases ok.len(),
{
    if ok.len() > 0 {
        let prev = ok.drop_last();
        let docs = ok.last().1.declarations@;
        lemma_child_total_nonneg(ok);
        lemma_batch_numbering(prev, last_module, last_decl, last_child);
        lemma_child_numbering(
            docs,
            docs.len() as int,
            last_child + child_count(prev),
            last_decl + decl_count(prev),
        );
        let pd = batch_declarations(prev, last_module, last_decl);
        let nd = declaration_records(docs, last_decl + decl_count(prev), last_module + ok.len());
        let ds = batch_declarations(ok, last_module, last_decl);
        assert(ds == pd + nd);
        assert forall|j: int| 0 <= j < ds.len() implies {
            let d = #[trigger] ds[j];
            d.id == last_decl + 1 + j && last_module < d.module_id <= last_module + ok.len()
        } by {
            if j >= pd.len() {
                assert(ds[j] == nd[j - pd.len()]);
            } else {
                assert(ds[j] == pd[j]);
            }
        }
        let pc = batch_children(prev, last_child, last_decl);
        let nc = all_child_records(
            docs,
            docs.len() as int,
            last_child + child_count(prev),
            last_decl + decl_count(prev),
        );
        let cs = batch_children(ok, last_child, last_decl);
        assert(cs == pc + nc);
        assert forall|c: int| 0 <= c < cs.len() implies {
            let x = #[trigger] cs[c];
            x.id == last_child + 1 + c && last_decl < x.declaration_id <= last_decl + decl_count(ok)
        } by {
            if c >= pc.len() {
                assert(cs[c] == nc[c - pc.len()]);
            } else {
                assert(cs[c] == pc[c]);
            }
        }
    }
}

proof fn lemma_parsed_len(docs: Seq<(String, Option<ModuleDoc>)>)
    ensures
        parsed_docs(docs).len() + parse_failures(docs) == docs.len(),
        parse_failures(docs) >= 0,
    decreases docs.len(),
{
    if docs.len() > 0 {
        lemma_parsed_len(docs.drop_last());
    }
}

/// A document that fails to parse costs exactly one parse error and no
/// module: of `N` documents of which `K` failed, the batch reports `K` parse
/// errors and `N - K` modules.
pub proof fn lemma_parse_failures_isolated(docs: Seq<(String, Option<ModuleDoc>)>)
    ensures
        parsed_docs(docs).len() == docs.len() - parse_failures(docs),
        parse_failures(docs) == docs.filter(|d: (String, Option<ModuleDoc>)| d.1 is None).len(),
    decreases docs.len(),
{
    lemma_parsed_len(docs);
    reveal(Seq::filter);
    if docs.len() > 0 {
        lemma_parse_failures_isolated(docs.drop_last());
    }
}

/// Declaration `d` pointed at the identifier the store holds for its module:
/// module `k` of the batch (speculative identifier `last_module + 1 + k`) is
/// held under `settled[k]`.
pub open spec fn settled_declaration(d: Declaration, last_module: int, settled: Seq<i64>) -> Declaration {
    Declaration { module_id: settled[d.module_id - last_module - 1], ..d }
}

/// Whether the store took the declaration that the child `c` points at from
/// this load, rather than keeping one persisted earlier: declaration `k` of
/// the batch (speculative identifier `last_decl + 1 + k`) is held under
/// `settled[k]`. The children of an earlier declaration were committed with it.
pub open spec fn declared_now(c: ChildDeclaration, last_decl: int, settled: Seq<i64>) -> bool {
    settled[c.declaration_id - last_decl - 1] == c.declaration_id
}

/// Points every declaration of the batch at the identifier the store holds
/// for its module, read back after the modules were inserted (a module that
/// was already persisted keeps its earlier identifier).
pub fn settle_declarations(decls: Vec<Declaration>, last_module: i64, settled_modules: &Vec<i64>) -> (r:
    Vec<Declaration>)
    requires
        forall|j: int|
            0 <= j < decls@.len() ==> last_module < #[trigger] decls@[j].module_id <= last_module
                + settled_modules@.len(),
    ensures
        r@ == decls@.map_values(|d: Declaration| settled_declaration(d, last_module as int, settled_modules@)),
{
    let ghost ds = decls@;
    let n = decls.len();
    let mut pending = reversed(decls);
    let mut out: Vec<Declaration> = Vec::new();
    let mut j: usize = 0;
    while j < n
        invariant
            n == ds.len(),
            j <= n,
            pending@.len() == n - j,
            forall|k: int| 0 <= k < n - j ==> #[trigger] pending@[k] == ds[n - 1 - k],
            forall|k: int|
                0 <= k < ds.len() ==> last_module < #[trigger] ds[k].module_id <= last_module
                    + settled_modules@.len(),
            out@ == ds.take(j as int).map_values(
                |d: Declaration| settled_declaration(d, last_module as int, settled_modules@),
            ),
        decreases n - j,
    {
        let mut d = pending.pop().unwrap();
        assert(d == ds[j as int]);
        assert(0 <= d.module_id - last_module - 1 < settled_modules@.len());
        let idx: i128 = (d.module_id as i128) - (last_module as i128) - 1;
        let len = settled_modules.len();
        assert(idx < len);
        let k = idx as usize;
        assert(k == d.module_id - last_module - 1);
        d.module_id = settled_modules[k];
        assert(d == settled_declaration(ds[j as int], last_module as int, settled_modules@));
        out.push(d);
        proof {
            assert(ds.take(j + 1) =~= ds.take(j as int).push(ds[j as int]));
            assert(out@ =~= ds.take(j + 1).map_values(
                |d: Declaration| settled_declaration(d, last_module as int, settled_modules@),
            ));
        }
        j = j + 1;
    }
    proof {
        assert(ds.take(n as int) =~= ds);
    }
    out
}

/// Keeps the child declarations whose declaration the store took from this
/// load, read back after the declarations were inserted; children of a
/// declaration persisted earlier are already in the store and are dropped.
pub fn settle_children(children: Vec<ChildDeclaration>, last_decl: i64, settled_decls: &Vec<i64>) -> (r:
    Vec<ChildDeclaration>)
    requires
        forall|c: int|
            0 <= c < children@.len() ==> last_decl < #[trigger] children@[c].declaration_id
                <= last_decl + settled_decls@.len(),
    ensures
        r@ == children@.filter(|c: ChildDeclaration| declared_now(c, last_decl as int, settled_decls@)),
{
    let ghost cs = children@;
    let n = children.len();
    let mut pending = reversed(children);
    let mut out: Vec<ChildDeclaration> = Vec::new();
    let mut j: usize = 0;
    proof {
        reveal(Seq::filter);
        assert(cs.take(0) =~= Seq::<ChildDeclaration>::empty());
    }
    while j < n
        invariant
            n == cs.len(),
            j <= n,
            pending@.len() == n - j,
            forall|k: int| 0 <= k < n - j ==> #[trigger] pending@[k] == cs[n - 1 - k],
            forall|k: int|
                0 <= k < cs.len() ==> last_decl < #[trigger] cs[k].declaration_id <= last_decl
                    + settled_decls@.len(),
            out@ == cs.take(j as int).filter(
                |c: ChildDeclaration| declared_now(c, last_decl as int, settled_decls@),
            ),
        decreases n - j,
    {
        let c = pending.pop().unwrap();
        assert(c == cs[j as int]);
        assert(0 <= c.declaration_id - last_decl - 1 < settled_decls@.len());
        let idx: i128 = (c.declaration_id as i128) - (last_decl as i128) - 1;
        let len = settled_decls.len();
        assert(idx < len);
        let k = idx as usize;
        assert(k == c.declaration_id - last_decl - 1);
        proof {
            reveal(Seq::filter);
            assert(cs.take(j + 1).drop_last() =~= cs.take(j as int));
        }
        let ghost kept = out@;
        if settled_decls[k] == c.declaration_id {
            out.push(c);
            assert(out@ == kept.push(cs[j as int]));
        }
        j = j + 1;
    }
    proof {
        assert(cs.take(n as int) =~= cs);
    }
    out
}

/// Referential integrity of a commit: every declaration handed to the store
/// points at a module the store reported holding for this load, and every
/// child handed to it points at a declaration the store reported holding.
pub proof fn lemma_references_resolve(
    decls: Seq<Declaration>,
    last_module: int,
    settled_modules: Seq<i64>,
    children: Seq<ChildDeclaration>,
    last_decl: int,
    settled_decls: Seq<i64>,
)
    requires
        forall|j: int|
            0 <= j < decls.len() ==> last_module < #[trigger] decls[j].module_id <= last_module
                + settled_modules.len(),
        forall|c: int|
            0 <= c < children.len() ==> last_decl < #[trigger] children[c].declaration_id
                <= last_decl + settled_decls.len(),
    ensures
        forall|j: int|
            0 <= j < decls.len() ==> settled_modules.contains(
                #[trigger] settled_declaration(decls[j], last_module, settled_modules).module_id,
            ),
        ({
            let kept = children.filter(|c: ChildDeclaration| declared_now(c, last_decl, settled_decls));
            forall|i: int| 0 <= i < kept.len() ==> settled_decls.contains(#[trigger] kept[i].declaration_id)
        }),
{
    assert forall|j: int| 0 <= j < decls.len() implies settled_modules.contains(
        #[trigger] settled_declaration(decls[j], last_module, settled_modules).module_id,
    ) by {
        let k = decls[j].module_id - last_module - 1;
        assert(settled_modules[k] == settled_declaration(decls[j], last_module, settled_modules).module_id);
    }
    let kept = children.filter(|c: ChildDeclaration| declared_now(c, last_decl, settled_decls));
    children.filter_lemma(|c: ChildDeclaration| declared_now(c, last_decl, settled_decls));
    assert forall|i: int| 0 <= i < kept.len() implies settled_decls.contains(
        #[trigger] kept[i].declaration_id,
    ) by {
        let c = kept[i];
        assert(kept.contains(c));
        children.lemma_filter_contains_rev(|c: ChildDeclaration| declared_now(c, last_decl, settled_decls), c);
        let m = choose|m: int| 0 <= m < children.len() && children[m] == c;
        let k = c.declaration_id - last_decl - 1;
        assert(settled_decls[k] == c.declaration_id);
    }
}

/// Loading the same documents again, whatever the identifier counters, hands
/// the store the same declarations by key: once pointed at the identifiers the
/// store holds for their modules, declaration `j` of either load has the same
/// module and the same name. (Module keys, package and name, do not depend on
/// the counters at all.)
pub proof fn lemma_reload_same_declaration_keys(
    ok: Seq<(Seq<char>, ModuleDoc)>,
    first_module: int,
    first_decl: int,
    again_module: int,
    again_decl: int,
    settled_modules: Seq<i64>,
)
    requires
        settled_modules.len() >= ok.len(),
        i64::MIN <= first_module,
        i64::MIN <= again_module,
        first_module + ok.len() <= i64::MAX,
        again_module + ok.len() <= i64::MAX,
    ensures
        ({
            let a = batch_declarations(ok, first_module, first_decl);
            let b = batch_declarations(ok, again_module, again_decl);
            &&& a.len() == b.len()
            &&& forall|j: int|
                0 <= j < a.len() ==> #[trigger] settled_declaration(
                    a[j],
                    first_module,
                    settled_modules,
                ).module_id == settled_declaration(b[j], again_module, settled_modules).module_id
                    && a[j].name == b[j].name
        }),
    decreases ok.len(),
{
    if ok.len() > 0 {
        let prev = ok.drop_last();
        let ds = ok.last().1.declarations@;
        lemma_reload_same_declaration_keys(
            prev,
            first_module,
            first_decl,
            again_module,
            again_decl,
            settled_modules,
        );
        let pa = batch_declarations(prev, first_module, first_decl);
        let pb = batch_declarations(prev, again_module, again_decl);
        let na = declaration_records(ds, first_decl + decl_count(prev), first_module + ok.len());
        let nb = declaration_records(ds, again_decl + decl_count(prev), again_module + ok.len());
        let a = batch_declarations(ok, first_module, first_decl);
        let b = batch_declarations(ok, again_module, again_decl);
        assert(a == pa + na);
        assert(b == pb + nb);
        assert forall|j: int| 0 <= j < a.len() implies #[trigger] settled_declaration(
            a[j],
            first_module,
            settled_modules,
        ).module_id == settled_declaration(b[j], again_module, settled_modules).module_id
            && a[j].name == b[j].name by {
            if j < pa.len() {
                assert(a[j] == pa[j]);
                assert(b[j] == pb[j]);
            } else {
                assert(a[j] == na[j - pa.len()]);
                assert(b[j] == nb[j - pb.len()]);
                assert(a[j].module_id == first_module + ok.len());
                assert(b[j].module_id == again_module + ok.len());
            }
        }
    }
}

/// Loading unchanged input again hands the store no child declaration: when
/// the store already held every declaration of the batch under an earlier
/// identifier (not the fresh one of this load), every child is dropped.
pub proof fn lemma_reload_adds_no_children(
    children: Seq<ChildDeclaration>,
    last_decl: int,
    settled_decls: Seq<i64>,
)
    requires
        forall|c: int|
            0 <= c < children.len() ==> last_decl < #[trigger] children[c].declaration_id
                <= last_decl + settled_decls.len(),
        forall|k: int| 0 <= k < settled_decls.len() ==> #[trigger] settled_decls[k] != last_decl + 1 + k,
    ensures
        children.filter(|c: ChildDeclaration| declared_now(c, last_decl, settled_decls)).len() == 0,
{
    assert forall|i: int| 0 <= i < children.len() implies !declared_now(
        children[i],
        last_decl,
        settled_decls,
    ) by {
        let k = children[i].declaration_id - last_decl - 1;
        assert(settled_decls[k] != last_decl + 1 + k);
    }
    children.lemma_all_neg_filter_empty(|c: ChildDeclaration| declared_now(c, last_decl, settled_decls));
}

} // verus!
