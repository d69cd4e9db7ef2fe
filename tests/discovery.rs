use minard_loader::discovery::{
    docs_root_path, manifest_path, select_docs_files, sort_paths, LoaderError, ProjectDiscovery,
};
use minard_loader::paths::{join_path, module_name_from_path, path_components_of};

#[test]
fn test_module_name_from_path() {
    let path = String::from("/foo/output/Data.Maybe/docs.json");
    assert_eq!(
        module_name_from_path(&path),
        Some("Data.Maybe".to_string())
    );
}

#[test]
fn module_name_of_short_or_odd_paths() {
    assert_eq!(module_name_from_path("docs.json"), None);
    assert_eq!(module_name_from_path("/docs.json"), None);
    assert_eq!(module_name_from_path("a/../docs.json"), None);
    assert_eq!(module_name_from_path("out//Data.Foo/./docs.json"), Some("Data.Foo".to_string()));
    assert_eq!(module_name_from_path("Data.Foo/docs.json/"), Some("Data.Foo".to_string()));
}

#[test]
fn components_skip_empty_and_current_dir() {
    let c = path_components_of("/a//b/./c/");
    assert_eq!(c, vec!["a".to_string(), "b".to_string(), "c".to_string()]);
    assert!(path_components_of("").is_empty());
}

#[test]
fn join_adds_one_separator() {
    assert_eq!(join_path("/p", "spago.lock"), "/p/spago.lock");
    assert_eq!(join_path("/p/", "output"), "/p/output");
    assert_eq!(join_path("", "output"), "output");
    assert_eq!(manifest_path("/proj"), "/proj/spago.lock");
    assert_eq!(docs_root_path("/proj"), "/proj/output");
}

#[test]
fn missing_root_is_reported_first() {
    match ProjectDiscovery::discover("/nope", false, false, false, vec![]) {
        Err(LoaderError::ProjectNotFound(p)) => assert_eq!(p, "/nope"),
        other => panic!("unexpected {:?}", other),
    }
}

#[test]
fn missing_manifest_is_reported_before_docs_root() {
    match ProjectDiscovery::discover("/p", true, false, false, vec![]) {
        Err(LoaderError::SpagoLockNotFound(p)) => assert_eq!(p, "/p/spago.lock"),
        other => panic!("unexpected {:?}", other),
    }
}

#[test]
fn missing_docs_root_is_reported() {
    match ProjectDiscovery::discover("/p", true, true, false, vec![]) {
        Err(LoaderError::OutputDirNotFound(p)) => assert_eq!(p, "/p/output"),
        other => panic!("unexpected {:?}", other),
    }
}

#[test]
fn discovered_documents_are_selected_and_sorted() {
    let entries = vec![
        "/p/output/Data.Maybe/docs.json".to_string(),
        "/p/output/Data/docs.json".to_string(),
        "/p/output/Data.Maybe/externs.cbor".to_string(),
        "/p/output/Control.Monad/docs.json".to_string(),
    ];
    let d = ProjectDiscovery::discover("/p", true, true, true, entries).unwrap();
    assert_eq!(d.project_path, "/p");
    assert_eq!(d.spago_lock_path, "/p/spago.lock");
    assert_eq!(d.output_dir, "/p/output");
    assert_eq!(
        d.docs_json_files,
        vec![
            "/p/output/Control.Monad/docs.json".to_string(),
            "/p/output/Data/docs.json".to_string(),
            "/p/output/Data.Maybe/docs.json".to_string(),
        ]
    );
    assert_eq!(d.module_count(), 3);
}

#[test]
fn selection_keeps_input_order() {
    let kept = select_docs_files(vec![
        "o/B/docs.json".to_string(),
        "o/A/readme.md".to_string(),
        "o/A/docs.json".to_string(),
    ]);
    assert_eq!(kept, vec!["o/B/docs.json".to_string(), "o/A/docs.json".to_string()]);
}

#[test]
fn sorting_is_by_component_bytes() {
    let sorted = sort_paths(vec![
        "o/b/docs.json".to_string(),
        "o/B/docs.json".to_string(),
        "o/a.b/docs.json".to_string(),
        "o/a/docs.json".to_string(),
    ]);
    assert_eq!(
        sorted,
        vec![
            "o/B/docs.json".to_string(),
            "o/a/docs.json".to_string(),
            "o/a.b/docs.json".to_string(),
            "o/b/docs.json".to_string(),
        ]
    );
}
