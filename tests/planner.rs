use casa::planner::{join_path_exec, path_tail, strip_root_exec, Planner};

#[test]
fn three_roots_in_registration_order() {
    let mut p: Planner<&str> = Planner::new();
    p.add("/src/a".to_string(), "/dst/a".to_string(), "A");
    p.add("/src/b".to_string(), "/dst/b".to_string(), "B");
    p.add("/src/c".to_string(), "/dst/c".to_string(), "C");
    let walk = [
        (0, "/src/a"),
        (1, "/src/a/x"),
        (2, "/src/a/x/y"),
        (0, "/src/b"),
        (1, "/src/b/z"),
        (0, "/src/c"),
        (1, "/src/c/w"),
    ];
    let mut seen = Vec::new();
    for (depth, path) in walk.iter() {
        let (idx, dest) = p.dest_for(path, *depth).unwrap();
        seen.push((p.sources[idx].data, dest));
    }
    assert_eq!(
        seen,
        vec![
            ("A", "/dst/a".to_string()),
            ("A", "/dst/a/x".to_string()),
            ("A", "/dst/a/x/y".to_string()),
            ("B", "/dst/b".to_string()),
            ("B", "/dst/b/z".to_string()),
            ("C", "/dst/c".to_string()),
            ("C", "/dst/c/w".to_string()),
        ]
    );
    // A further root visit stays on the last root.
    assert_eq!(p.dest_for("/src/c", 0).unwrap().0, 2);
    // An entry outside the current root is skipped.
    assert!(p.dest_for("/elsewhere/q", 1).is_none());
}

#[test]
fn no_root_entered_yet() {
    let mut p: Planner<()> = Planner::new();
    p.add("/s".to_string(), "/d".to_string(), ());
    assert!(p.dest_for("/s/x", 1).is_none());
}

#[test]
fn path_stripping_is_by_component() {
    assert_eq!(strip_root_exec("/a/b", "/a").unwrap(), "b");
    assert_eq!(strip_root_exec("/a", "/a").unwrap(), "");
    assert!(strip_root_exec("/ab", "/a").is_none());
    assert_eq!(strip_root_exec("/x", "/").unwrap(), "x");
    assert_eq!(join_path_exec("/d", ""), "/d");
    assert_eq!(join_path_exec("/d", "e"), "/d/e");
    assert_eq!(join_path_exec("/d/", "e"), "/d/e");
}

#[test]
fn path_tail_keeps_last_components() {
    assert_eq!(path_tail("/a/b/c", 1).unwrap(), "c");
    assert_eq!(path_tail("/a/b/c", 2).unwrap(), "b/c");
    assert_eq!(path_tail("/a/b/c", 3).unwrap(), "a/b/c");
    assert_eq!(path_tail("/a/b/c", 4).unwrap(), "/a/b/c");
    assert!(path_tail("/a/b/c", 5).is_none());
    assert!(path_tail("/a/b/c", 0).is_none());
    assert_eq!(path_tail("x//y/", 1).unwrap(), "y");
    assert!(path_tail("", 1).is_none());
    assert_eq!(path_tail("a/./b", 2).unwrap(), "a/b");
    assert_eq!(path_tail("./a", 2).unwrap(), "./a");
    assert_eq!(path_tail("/./a/.", 2).unwrap(), "/a");
}
