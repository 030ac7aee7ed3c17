use path_server::document::Document;
use path_server::workspace::{DocumentStore, WorkspaceRoots};

#[test]
fn roots_are_a_set() {
    let mut roots = WorkspaceRoots::new();
    roots.insert("/a".to_string());
    roots.insert("/b".to_string());
    roots.insert("/a".to_string());
    assert!(roots.contains("/a"));
    assert_eq!(roots.list().len(), 2);
    roots.remove("/a");
    assert!(!roots.contains("/a"));
    assert_eq!(roots.list(), vec!["/b".to_string()]);
    roots.remove("/missing");
    assert_eq!(roots.list().len(), 1);
}

#[test]
fn documents_by_path() {
    let mut store = DocumentStore::new();
    store.open("/f.txt".to_string(), Document::new("one".to_string(), "Plain Text").unwrap());
    store.open("/g.txt".to_string(), Document::new("two".to_string(), "Plain Text").unwrap());
    assert_eq!(store.get("/f.txt").unwrap().text, "one");
    store.open("/f.txt".to_string(), Document::new("uno".to_string(), "Plain Text").unwrap());
    assert_eq!(store.get("/f.txt").unwrap().text, "uno");
    let taken = store.take("/g.txt").unwrap();
    assert_eq!(taken.text, "two");
    assert!(store.get("/g.txt").is_none());
    assert!(store.take("/g.txt").is_none());
}
