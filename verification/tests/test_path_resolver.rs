use path_server::path_resolver::{last_word, names_with_prefix, PathResolver};

#[test]
fn last_word_of_input() {
    assert_eq!(last_word("open ./src/ma"), "./src/ma");
    assert_eq!(last_word("  trailing  "), "trailing");
    assert_eq!(last_word("single"), "single");
    assert_eq!(last_word("   "), "   ");
    assert_eq!(last_word(""), "");
    assert_eq!(last_word("a\tb\u{3000}c"), "c");
}

#[test]
fn names_starting_with_the_filter() {
    let names = vec!["main.rs".to_string(), "lib.rs".to_string(), "mod.rs".to_string(), "main".to_string()];
    assert_eq!(names_with_prefix(&names, "ma"), vec!["main.rs".to_string(), "main".to_string()]);
    assert_eq!(names_with_prefix(&names, "").len(), 4);
}

#[test]
fn queries_under_each_root() {
    let mut r = PathResolver::new();
    r.add_workspace_root("file:///ws");
    r.add_workspace_root("file:///ws");
    r.add_workspace_root("not a uri");
    let q = r.complete_queries("see src/ma");
    assert_eq!(q.len(), 1);
    assert_eq!(q[0].search_dir, "/ws/src");
    assert_eq!(q[0].filter, "ma");
    let q = r.complete_queries("src/");
    assert_eq!(q[0].search_dir, "/ws/src/");
    assert_eq!(q[0].filter, "");
    r.remove_workspace_root("file:///ws");
    assert!(r.complete_queries("x").is_empty());
}

#[test]
fn queries_split_the_typed_word_at_its_last_slash() {
    let mut r = PathResolver::new();
    r.add_workspace_root("file:///ws/");
    let q = r.complete_queries("open lib/a.b/c.d");
    assert_eq!(q.len(), 1);
    assert_eq!(q[0].search_dir, "/ws/lib/a.b");
    assert_eq!(q[0].filter, "c.d");
}
