use minard_loader::ids::{EntityKind, IdGenerator};

#[test]
fn fresh_generator_starts_at_one() {
    let mut g = IdGenerator::new();
    assert_eq!(g.next_project_id(), 1);
    assert_eq!(g.next_project_id(), 2);
    assert_eq!(g.next_module_id(), 1);
    assert_eq!(IdGenerator::default().current(EntityKind::Child), 0);
}

#[test]
fn seeded_next_yields_max_plus_one() {
    let mut g = IdGenerator::new();
    g.init_from_db(10, 20, 30, 40, 50, 60);
    assert_eq!(g.next_project_id(), 11);
    assert_eq!(g.next_snapshot_id(), 21);
    assert_eq!(g.next_package_id(), 31);
    assert_eq!(g.next_module_id(), 41);
    assert_eq!(g.next_declaration_id(), 51);
    assert_eq!(g.next_child_id(), 61);
}

#[test]
fn seeded_reserve_starts_at_max_plus_one() {
    let mut g = IdGenerator::new();
    g.init_from_db(0, 0, 0, 7, 8, 9);
    assert_eq!(g.reserve_module_ids(5), 8);
    assert_eq!(g.reserve_declaration_ids(3), 9);
    assert_eq!(g.reserve_child_ids(0), 10);
    assert_eq!(g.next_module_id(), 13);
}

#[test]
fn reservations_are_disjoint() {
    let mut g = IdGenerator::new();
    g.init_from_db(0, 0, 0, 100, 0, 0);
    let counts = [3i64, 0, 7, 1, 12, 2];
    let mut ranges = Vec::new();
    for (i, c) in counts.iter().enumerate() {
        let first = g.reserve(EntityKind::Module, *c);
        ranges.push((first, first + c));
        if i % 2 == 0 {
            g.next(EntityKind::Declaration);
        }
    }
    assert_eq!(ranges[0].0, 101);
    for i in 0..ranges.len() {
        for j in (i + 1)..ranges.len() {
            let (a, b) = (ranges[i], ranges[j]);
            assert!(a.1 <= b.0 || b.1 <= a.0, "{:?} overlaps {:?}", a, b);
        }
    }
    assert_eq!(g.current(EntityKind::Module), 125);
    assert_eq!(g.current(EntityKind::Declaration), 3);
}

#[test]
fn room_is_checked_against_the_largest_id() {
    let mut g = IdGenerator::new();
    g.init_from_db(i64::MAX - 2, 0, 0, 0, 0, 0);
    assert!(g.can_reserve(EntityKind::Project, 2));
    assert!(!g.can_reserve(EntityKind::Project, 3));
    assert!(!g.can_reserve(EntityKind::Snapshot, -1));
    assert!(g.can_reserve(EntityKind::Snapshot, 5));
}
