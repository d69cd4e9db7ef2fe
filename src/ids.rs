use vstd::prelude::*;

verus! {

/// The six kinds of entity that receive store-independent identifiers.
#[derive(Debug, Clone, Copy, PartialEq, Eq, Structural)]
pub enum EntityKind {
    Project,
    Snapshot,
    Package,
    Module,
    Declaration,
    Child,
}

/// Counter state and identifier handed out by one `next` call on a counter at `c`.
pub open spec fn after_next(c: int) -> (int, int) {
    (c + 1, c + 1)
}

/// Counter state and first identifier of the block handed out by reserving
/// `count` identifiers from a counter at `c`; the block is `[c + 1, c + 1 + count)`.
pub open spec fn after_reserve(c: int, count: int) -> (int, int) {
    (c + count, c + 1)
}

/// Counter reached from `c` after reserving each of `counts`, in order.
pub open spec fn counter_after(c: int, counts: Seq<int>) -> int
    decreases counts.len(),
{
    if counts.len() == 0 {
        c
    } else {
        after_reserve(counter_after(c, counts.drop_last()), counts.last()).0
    }
}

/// First identifier of the `i`-th block when `counts` are reserved, in order,
/// from a counter at `c`.
pub open spec fn block_start(c: int, counts: Seq<int>, i: int) -> int {
    after_reserve(counter_after(c, counts.take(i)), counts[i]).1
}

proof fn lemma_counter_step(c: int, counts: Seq<int>, i: int)
    requires
        0 <= i < counts.len(),
    ensures
        counter_after(c, counts.take(i + 1)) == counter_after(c, counts.take(i)) + counts[i],
{
    assert(counts.take(i + 1).drop_last() =~= counts.take(i));
}

proof fn lemma_counter_monotone(c: int, counts: Seq<int>, i: int, j: int)
    requires
        0 <= i <= j <= counts.len(),
        forall|n: int| 0 <= n < counts.len() ==> counts[n] >= 0,
    ensures
        counter_after(c, counts.take(i)) <= counter_after(c, counts.take(j)),
    decreases j - i,
{
    if i < j {
        lemma_counter_monotone(c, counts, i, j - 1);
        lemma_counter_step(c, counts, j - 1);
    }
}

/// Blocks handed out by any sequence of reservations on one counter (the
/// order in which the calls took effect) are pairwise disjoint, and every
/// block lies above the value the counter started from.
pub proof fn lemma_reservations_disjoint(c: int, counts: Seq<int>)
    requires
        forall|n: int| 0 <= n < counts.len() ==> counts[n] >= 0,
    ensures
        forall|i: int, j: int|
            0 <= i < j < counts.len() ==> block_start(c, counts, i) + counts[i] <= block_start(
                c,
                counts,
                j,
            ),
        forall|i: int| 0 <= i < counts.len() ==> block_start(c, counts, i) >= c + 1,
{
    assert forall|i: int, j: int| 0 <= i < j < counts.len() implies block_start(c, counts, i)
        + counts[i] <= block_start(c, counts, j) by {
        lemma_counter_step(c, counts, i);
        lemma_counter_monotone(c, counts, i + 1, j);
    }
    assert forall|i: int| 0 <= i < counts.len() implies block_start(c, counts, i) >= c + 1 by {
        assert(counts.take(0) =~= Seq::<int>::empty());
        lemma_counter_monotone(c, counts, 0, i);
    }
}

/// A counter seeded with `m` hands out `m + 1` next, whether by a single
/// allocation or as the first identifier of a reserved block.
pub proof fn lemma_seeded_allocation(g: IdGenerator, kind: EntityKind, m: int, count: int)
    requires
        g.counter(kind) == m,
    ensures
        after_next(g.counter(kind)).1 == m + 1,
        after_reserve(g.counter(kind), count).1 == m + 1,
{
}

/// Monotonic identifier counters, one per entity kind.
///
/// One generator is created per pipeline run and shared by handle; every
/// allocation is a single advance of one counter, so ids handed out by a
/// sequence of calls never repeat.
#[derive(Debug)]
pub struct IdGenerator {
    project_counter: i64,
    snapshot_counter: i64,
    package_counter: i64,
    module_counter: i64,
    declaration_counter: i64,
    child_counter: i64,
}

impl IdGenerator {
    /// The last identifier handed out (or seeded) for `kind`.
    pub closed spec fn counter(&self, kind: EntityKind) -> int {
        match kind {
            EntityKind::Project => self.project_counter as int,
            EntityKind::Snapshot => self.snapshot_counter as int,
            EntityKind::Package => self.package_counter as int,
            EntityKind::Module => self.module_counter as int,
            EntityKind::Declaration => self.declaration_counter as int,
            EntityKind::Child => self.child_counter as int,
        }
    }

    /// Whether `count` more identifiers of `kind` fit below `i64::MAX`.
    pub open spec fn has_room(&self, kind: EntityKind, count: int) -> bool {
        self.counter(kind) < i64::MAX && self.counter(kind) + count <= i64::MAX
    }

    /// Every counter of `self` but the one of `kind` equals that of `other`.
    pub open spec fn same_except(&self, other: &IdGenerator, kind: EntityKind) -> bool {
        forall|k: EntityKind| k != kind ==> #[trigger] self.counter(k) == other.counter(k)
    }

    /// Every counter holds an `i64`.
    pub proof fn lemma_counter_range(&self, kind: EntityKind)
        ensures
            i64::MIN <= self.counter(kind) <= i64::MAX,
    {
    }

    pub fn new() -> (r: Self)
        ensures
            forall|k: EntityKind| #[trigger] r.counter(k) == 0,
    {
        IdGenerator {
            project_counter: 0,
            snapshot_counter: 0,
            package_counter: 0,
            module_counter: 0,
            declaration_counter: 0,
            child_counter: 0,
        }
    }

    /// Seeds every counter with the largest identifier already persisted for its kind.
    pub fn init_from_db(
        &mut self,
        max_project: i64,
        max_snapshot: i64,
        max_package: i64,
        max_module: i64,
        max_decl: i64,
        max_child: i64,
    )
        ensures
            final(self).counter(EntityKind::Project) == max_project,
            final(self).counter(EntityKind::Snapshot) == max_snapshot,
            final(self).counter(EntityKind::Package) == max_package,
            final(self).counter(EntityKind::Module) == max_module,
            final(self).counter(EntityKind::Declaration) == max_decl,
            final(self).counter(EntityKind::Child) == max_child,
    {
        self.project_counter = max_project;
        self.snapshot_counter = max_snapshot;
        self.package_counter = max_package;
        self.module_counter = max_module;
        self.declaration_counter = max_decl;
        self.child_counter = max_child;
    }

    /// Whether `count` identifiers of `kind` can still be handed out.
    pub fn can_reserve(&self, kind: EntityKind, count: i64) -> (r: bool)
        ensures
            r == (count >= 0 && self.has_room(kind, count as int)),
    {
        let c = self.get(kind);
        count >= 0 && c < i64::MAX && (c as i128) + (count as i128) <= i64::MAX as i128
    }

    /// The last identifier handed out (or seeded) for `kind`.
    pub fn current(&self, kind: EntityKind) -> (r: i64)
        ensures
            r == self.counter(kind),
    {
        self.get(kind)
    }

    fn get(&self, kind: EntityKind) -> (r: i64)
        ensures
            r == self.counter(kind),
    {
        match kind {
            EntityKind::Project => self.project_counter,
            EntityKind::Snapshot => self.snapshot_counter,
            EntityKind::Package => self.package_counter,
            EntityKind::Module => self.module_counter,
            EntityKind::Declaration => self.declaration_counter,
            EntityKind::Child => self.child_counter,
        }
    }

    fn set(&mut self, kind: EntityKind, v: i64)
        ensures
            final(self).counter(kind) == v,
            final(self).same_except(old(self), kind),
    {
        match kind {
            EntityKind::Project => self.project_counter = v,
            EntityKind::Snapshot => self.snapshot_counter = v,
            EntityKind::Package => self.package_counter = v,
            EntityKind::Module => self.module_counter = v,
            EntityKind::Declaration => self.declaration_counter = v,
            EntityKind::Child => self.child_counter = v,
        }
    }

    /// Advances the counter of `kind` by `count` and returns the first
    /// identifier of the block `[r, r + count)`.
    pub fn reserve(&mut self, kind: EntityKind, count: i64) -> (r: i64)
        requires
            count >= 0,
            old(self).has_room(kind, count as int),
        ensures
            (final(self).counter(kind), r as int) == after_reserve(old(self).counter(kind), count as int),
            final(self).same_except(old(self), kind),
    {
        let c = self.get(kind);
        self.set(kind, c + count);
        c + 1
    }

    /// Advances the counter of `kind` by one and returns the new value.
    pub fn next(&mut self, kind: EntityKind) -> (r: i64)
        requires
            old(self).has_room(kind, 1),
        ensures
            (final(self).counter(kind), r as int) == after_next(old(self).counter(kind)),
            final(self).same_except(old(self), kind),
    {
        let c = self.get(kind);
        self.set(kind, c + 1);
        c + 1
    }

    pub fn next_project_id(&mut self) -> (r: i64)
        requires
            old(self).has_room(EntityKind::Project, 1),
        ensures
            (final(self).counter(EntityKind::Project), r as int) == after_next(
                old(self).counter(EntityKind::Project),
            ),
            final(self).same_except(old(self), EntityKind::Project),
    {
        self.next(EntityKind::Project)
    }

    pub fn next_snapshot_id(&mut self) -> (r: i64)
        requires
            old(self).has_room(EntityKind::Snapshot, 1),
        ensures
            (final(self).counter(EntityKind::Snapshot), r as int) == after_next(
                old(self).counter(EntityKind::Snapshot),
            ),
            final(self).same_except(old(self), EntityKind::Snapshot),
    {
        self.next(EntityKind::Snapshot)
    }

    pub fn next_package_id(&mut self) -> (r: i64)
        requires
            old(self).has_room(EntityKind::Package, 1),
        ensures
            (final(self).counter(EntityKind::Package), r as int) == after_next(
                old(self).counter(EntityKind::Package),
            ),
            final(self).same_except(old(self), EntityKind::Package),
    {
        self.next(EntityKind::Package)
    }

    pub fn next_module_id(&mut self) -> (r: i64)
        requires
            old(self).has_room(EntityKind::Module, 1),
        ensures
            (final(self).counter(EntityKind::Module), r as int) == after_next(
                old(self).counter(EntityKind::Module),
            ),
            final(self).same_except(old(self), EntityKind::Module),
    {
        self.next(EntityKind::Module)
    }

    pub fn next_declaration_id(&mut self) -> (r: i64)
        requires
            old(self).has_room(EntityKind::Declaration, 1),
        ensures
            (final(self).counter(EntityKind::Declaration), r as int) == after_next(
                old(self).counter(EntityKind::Declaration),
            ),
            final(self).same_except(old(self), EntityKind::Declaration),
    {
        self.next(EntityKind::Declaration)
    }

    pub fn next_child_id(&mut self) -> (r: i64)
        requires
            old(self).has_room(EntityKind::Child, 1),
        ensures
            (final(self).counter(EntityKind::Child), r as int) == after_next(
                old(self).counter(EntityKind::Child),
            ),
            final(self).same_except(old(self), EntityKind::Child),
    {
        self.next(EntityKind::Child)
    }

    pub fn reserve_module_ids(&mut self, count: i64) -> (r: i64)
        requires
            count >= 0,
            old(self).has_room(EntityKind::Module, count as int),
        ensures
            (final(self).counter(EntityKind::Module), r as int) == after_reserve(
                old(self).counter(EntityKind::Module),
                count as int,
            ),
            final(self).same_except(old(self), EntityKind::Module),
    {
        self.reserve(EntityKind::Module, count)
    }

    pub fn reserve_declaration_ids(&mut self, count: i64) -> (r: i64)
        requires
            count >= 0,
            old(self).has_room(EntityKind::Declaration, count as int),
        ensures
            (final(self).counter(EntityKind::Declaration), r as int) == after_reserve(
                old(self).counter(EntityKind::Declaration),
                count as int,
            ),
            final(self).same_except(old(self), EntityKind::Declaration),
    {
        self.reserve(EntityKind::Declaration, count)
    }

    pub fn reserve_child_ids(&mut self, count: i64) -> (r: i64)
        requires
            count >= 0,
            old(self).has_room(EntityKind::Child, count as int),
        ensures
            (final(self).counter(EntityKind::Child), r as int) == after_reserve(
                old(self).counter(EntityKind::Child),
                count as int,
            ),
            final(self).same_except(old(self), EntityKind::Child),
    {
        self.reserve(EntityKind::Child, count)
    }
}

impl Default for IdGenerator {
    fn default() -> (r: Self)
        ensures
            forall|k: EntityKind| #[trigger] r.counter(k) == 0,
    {
        Self::new()
    }
}

} // verus!
