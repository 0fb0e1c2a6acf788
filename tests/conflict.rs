use hydra_launcher::conflict::ConflictDetector;
use hydra_launcher::types::ConflictType;

#[test]
fn test_conflict_detection() {
    let mut detector = ConflictDetector::new();

    detector.register_files(&"tab1".to_string(), vec!["file_a.rs".to_string()], 0);
    assert!(detector.get_conflicts().is_empty());

    detector.register_files(&"tab2".to_string(), vec!["file_b.rs".to_string()], 0);
    assert!(detector.get_conflicts().is_empty());

    detector.register_files(
        &"tab2".to_string(),
        vec!["file_a.rs".to_string(), "file_b.rs".to_string()],
        0,
    );
    assert_eq!(detector.get_conflicts().len(), 1);
    assert!(detector.has_conflicts(&"tab1".to_string()));
    assert!(detector.has_conflicts(&"tab2".to_string()));
}

#[test]
fn test_unregister_tab() {
    let mut detector = ConflictDetector::new();

    detector.register_files(&"tab1".to_string(), vec!["file.rs".to_string()], 0);
    detector.register_files(&"tab2".to_string(), vec!["file.rs".to_string()], 0);
    assert_eq!(detector.get_conflicts().len(), 1);

    detector.unregister_tab(&"tab1".to_string());
    assert!(detector.get_conflicts().is_empty());
}

#[test]
fn shared_file_gives_one_conflict_either_order() {
    for (first, second) in [("A", "B"), ("B", "A")] {
        let mut d = ConflictDetector::new();
        d.register_files(&first.to_string(), vec!["shared.txt".to_string()], 1);
        d.register_files(&second.to_string(), vec!["shared.txt".to_string()], 2);
        let cs = d.get_conflicts();
        assert_eq!(cs.len(), 1);
        assert_eq!(cs[0].conflict_type, ConflictType::ConcurrentEdit);
        assert_eq!(cs[0].file_path, "/shared.txt");
        assert_eq!(cs[0].tabs_involved, vec![first.to_string(), second.to_string()]);
        assert_eq!(cs[0].detected_at, 2);
    }
}

#[test]
fn paths_are_normalized_before_use() {
    let mut d = ConflictDetector::with_base_dir("/work".to_string());
    assert_eq!(d.normalize_path("src\\main.rs"), "/work/src/main.rs");
    assert_eq!(d.normalize_path("/etc/hosts"), "/etc/hosts");
    assert_eq!(d.normalize_path("C:\\x\\y.rs"), "C:/x/y.rs");
    assert_eq!(d.normalize_path("./a.rs"), d.normalize_path("a.rs"));
    assert_eq!(d.normalize_path("src/../a.rs"), "/work/a.rs");
    assert_eq!(d.normalize_path("/x//y/./z/.."), "/x/y");
    assert_eq!(d.normalize_path("/.."), "/");
    assert_eq!(d.normalize_path("\\share\\f"), "/work/share/f");
    assert_eq!(d.normalize_path("C:rel"), "/work/C:rel");
    assert_eq!(ConflictDetector::new().normalize_path("a\\b.rs"), "/a/b.rs");
    d.register_files(&"A".to_string(), vec!["src/lib.rs".to_string()], 0);
    d.register_files(&"B".to_string(), vec!["/work/src\\lib.rs".to_string()], 0);
    assert_eq!(d.get_conflicts().len(), 1);
    assert_eq!(d.get_conflicts()[0].file_path, "/work/src/lib.rs");
    assert_eq!(d.get_tab_files(&"A".to_string()), vec!["/work/src/lib.rs".to_string()]);
}

#[test]
fn would_conflict_is_advisory_and_repeatable() {
    let mut d = ConflictDetector::new();
    d.register_files(&"A".to_string(), vec!["x.rs".to_string(), "y.rs".to_string()], 0);
    let files = vec!["x.rs".to_string(), "z.rs".to_string()];
    let first = d.would_conflict(&"B".to_string(), &files, 9);
    let second = d.would_conflict(&"B".to_string(), &files, 9);
    assert_eq!(first.len(), 1);
    assert_eq!(first[0].file_path, "/x.rs");
    assert_eq!(first[0].tabs_involved, vec!["A".to_string()]);
    assert_eq!(second.len(), first.len());
    assert_eq!(second[0].tabs_involved, first[0].tabs_involved);
    assert!(d.get_conflicts().is_empty());
    assert!(d.would_conflict(&"A".to_string(), &files, 9).is_empty());
}

#[test]
fn unregister_removes_only_conflicts_that_list_the_tab() {
    let mut d = ConflictDetector::new();
    d.register_files(&"A".to_string(), vec!["a.rs".to_string()], 0);
    d.register_files(&"B".to_string(), vec!["a.rs".to_string(), "b.rs".to_string()], 0);
    d.register_files(&"C".to_string(), vec!["b.rs".to_string()], 0);
    assert_eq!(d.get_conflicts().len(), 2);
    d.unregister_tab(&"A".to_string());
    assert_eq!(d.get_conflicts().len(), 1);
    assert_eq!(d.get_conflicts()[0].file_path, "/b.rs");
    assert!(d.get_tab_conflicts(&"A".to_string()).is_empty());
    assert_eq!(d.get_tab_conflicts(&"C".to_string()).len(), 1);
    assert!(d.get_tab_files(&"A".to_string()).is_empty());
}

#[test]
fn external_change_needs_a_newer_time() {
    let mut d = ConflictDetector::new();
    d.register_files(&"A".to_string(), vec!["f.rs".to_string()], 0);
    assert!(!d.check_external_change("f.rs", Some(50), 1));
    d.record_baseline("f.rs", 100);
    d.record_baseline("f.rs", 10);
    assert!(!d.check_external_change("f.rs", Some(100), 1));
    assert!(!d.check_external_change("f.rs", None, 1));
    assert!(d.check_external_change("f.rs", Some(150), 7));
    assert_eq!(d.get_conflicts().len(), 1);
    assert_eq!(d.get_conflicts()[0].conflict_type, ConflictType::ExternalChange);
    assert_eq!(d.get_conflicts()[0].detected_at, 7);
    assert!(!d.check_external_change("f.rs", Some(150), 8));
    d.register_files(&"B".to_string(), vec!["g.rs".to_string()], 9);
    assert_eq!(d.get_conflicts().len(), 1);
    d.update_file_timestamp("f.rs", 400);
    assert!(!d.check_external_change("f.rs", Some(300), 10));
    d.resolve_conflict("f.rs");
    assert!(d.get_conflicts().is_empty());
}
