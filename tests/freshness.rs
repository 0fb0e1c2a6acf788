use hydra_launcher::freshness::{assess_build, is_skipped_dir, is_watched_source};

#[test]
fn stale_sources_are_those_newer_than_the_build() {
    let sources = vec![
        ("a.ts".to_string(), 100u64),
        ("b.css".to_string(), 300u64),
        ("c.html".to_string(), 250u64),
    ];
    let r = assess_build(Some(200), &sources);
    assert!(!r.is_fresh);
    assert_eq!(r.src_modified, Some(300));
    assert_eq!(r.dist_modified, Some(200));
    assert_eq!(r.stale_files, vec!["b.css".to_string(), "c.html".to_string()]);
    assert_eq!(r.message, "2 file(s) modified since last build");
}

#[test]
fn fresh_build_and_unknown_build_time() {
    let sources = vec![("a.tsx".to_string(), 10u64)];
    let r = assess_build(Some(20), &sources);
    assert!(r.is_fresh);
    assert_eq!(r.message, "Build is up to date");
    let unknown = assess_build(None, &sources);
    assert!(unknown.is_fresh);
    assert_eq!(unknown.src_modified, Some(10));
    let empty = assess_build(Some(1), &Vec::new());
    assert_eq!(empty.src_modified, None);
}

#[test]
fn watched_extensions_and_skipped_directories() {
    assert!(is_watched_source("main.ts"));
    assert!(is_watched_source("App.tsx"));
    assert!(is_watched_source("index.html"));
    assert!(is_watched_source("x.css"));
    assert!(!is_watched_source("lib.rs"));
    assert!(!is_watched_source("ts"));
    assert!(is_skipped_dir("node_modules"));
    assert!(is_skipped_dir("dist"));
    assert!(is_skipped_dir("target"));
    assert!(!is_skipped_dir("src"));
}
