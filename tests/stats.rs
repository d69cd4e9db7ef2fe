use minard_loader::db_stats::{DbStats, ProjectDetail};
use minard_loader::stats::{LoadStats, ScanStats};
use minard_loader::text::{decimal_text, signed_decimal_text};

fn sample() -> LoadStats {
    LoadStats {
        project_name: "demo".to_string(),
        snapshot_label: Some("main".to_string()),
        packages_loaded: 12,
        modules_loaded: 3,
        declarations_loaded: 40,
        child_declarations_loaded: 7,
        dependencies_loaded: 9,
        parse_errors: 1,
        elapsed_ms: 250,
    }
}

#[test]
fn decimal_text_has_no_leading_zeros() {
    assert_eq!(decimal_text(0), "0");
    assert_eq!(decimal_text(7), "7");
    assert_eq!(decimal_text(1200), "1200");
    assert_eq!(decimal_text(u64::MAX), "18446744073709551615");
    assert_eq!(signed_decimal_text(-45), "-45");
    assert_eq!(signed_decimal_text(i64::MIN), "-9223372036854775808");
}

#[test]
fn load_report_line() {
    assert_eq!(
        sample().report(),
        "Loaded demo (main): 12 packages, 3 modules, 40 declarations, 7 children in 250ms (1 parse errors)"
    );
    let mut s = sample();
    s.snapshot_label = None;
    assert_eq!(
        s.report(),
        "Loaded demo: 12 packages, 3 modules, 40 declarations, 7 children in 250ms (1 parse errors)"
    );
}

#[test]
fn merge_adds_counts_only() {
    let mut a = sample();
    let mut b = sample();
    b.project_name = "other".to_string();
    b.elapsed_ms = 1;
    a.merge(&b);
    assert_eq!(a.packages_loaded, 24);
    assert_eq!(a.modules_loaded, 6);
    assert_eq!(a.declarations_loaded, 80);
    assert_eq!(a.child_declarations_loaded, 14);
    assert_eq!(a.dependencies_loaded, 18);
    assert_eq!(a.parse_errors, 2);
    assert_eq!(a.project_name, "demo");
    assert_eq!(a.elapsed_ms, 250);
}

#[test]
fn scan_totals_and_report() {
    let mut s = ScanStats::default();
    s.add(&sample());
    s.add(&sample());
    s.projects_skipped = 1;
    s.elapsed_ms = 900;
    assert_eq!(s.projects_loaded, 2);
    assert_eq!(s.total_packages, 24);
    assert_eq!(s.total_children, 14);
    assert_eq!(
        s.report(),
        "Scanned 2 projects (1 skipped): 24 packages, 6 modules, 80 declarations, 14 children in 900ms (2 parse errors)"
    );
}

#[test]
fn database_report_lists_projects() {
    let stats = DbStats {
        project_count: 2,
        snapshot_count: 3,
        package_count: 50,
        module_count: 400,
        declaration_count: 5000,
        child_count: 800,
        dependency_count: 120,
        project_details: vec![
            ProjectDetail {
                name: "demo".to_string(),
                snapshot_count: 2,
                latest_ref: Some("main".to_string()),
                latest_hash: Some("abc1234".to_string()),
            },
            ProjectDetail { name: "empty".to_string(), snapshot_count: 0, latest_ref: None, latest_hash: None },
        ],
    };
    assert_eq!(
        stats.report(),
        "Database contains:\n  2 projects\n    demo: 2 snapshots (latest: main@abc1234)\n    empty: 0 snapshots (no snapshots)\n  50 packages\n  400 modules\n  5000 declarations\n  800 child declarations\n  120 dependencies"
    );
}

#[test]
fn database_report_without_projects() {
    let stats = DbStats {
        project_count: 0,
        snapshot_count: 0,
        package_count: 0,
        module_count: 0,
        declaration_count: 0,
        child_count: 0,
        dependency_count: 0,
        project_details: vec![],
    };
    assert_eq!(
        stats.report(),
        "Database contains:\n  0 packages\n  0 modules\n  0 declarations\n  0 child declarations\n  0 dependencies"
    );
    let partial = ProjectDetail { name: "x".to_string(), snapshot_count: 1, latest_ref: None, latest_hash: Some("h".to_string()) };
    let one = DbStats { project_count: 1, project_details: vec![partial], ..stats };
    assert!(one.report().contains("    x: 1 snapshots (latest: h)"));
}
