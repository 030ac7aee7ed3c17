use path_server::resolver::{
    cursor_inside, filter_overlapping, probe_paths, shown_tokens, token_at, token_range,
    ResolvedPath, ResolvedPathCache,
};
use path_server::document::Document;

fn token(start: (usize, usize), end: (usize, usize), target: &str) -> ResolvedPath {
    ResolvedPath { start, end, target: target.to_string(), is_dir: false }
}

#[test]
fn intersects_is_symmetric_and_strict_at_ends() {
    let a = token((0, 0), (0, 5), "a");
    let b = token((0, 5), (0, 9), "b");
    let c = token((0, 4), (1, 0), "c");
    assert!(!a.intersects(&b));
    assert!(!b.intersects(&a));
    assert!(a.intersects(&c) && c.intersects(&a));
    assert!(b.intersects(&c) && c.intersects(&b));
}

#[test]
fn cursor_inside_single_and_multi_line_tokens() {
    let t = token((1, 2), (1, 6), "t");
    assert!(!cursor_inside(1, 1, &t));
    assert!(cursor_inside(1, 2, &t));
    assert!(cursor_inside(1, 5, &t));
    assert!(!cursor_inside(1, 6, &t));
    assert!(!cursor_inside(0, 3, &t));
    let m = token((1, 4), (3, 2), "m");
    assert!(!cursor_inside(1, 3, &m));
    assert!(cursor_inside(1, 4, &m));
    assert!(cursor_inside(2, 0, &m));
    assert!(cursor_inside(3, 1, &m));
    assert!(!cursor_inside(3, 2, &m));
}

#[test]
fn filter_overlapping_keeps_first_of_overlapping_tokens() {
    let kept = filter_overlapping(vec![
        token((0, 0), (0, 5), "a"),
        token((0, 3), (0, 8), "b"),
        token((0, 5), (0, 7), "c"),
        token((0, 6), (0, 9), "d"),
    ]);
    let names: Vec<&str> = kept.iter().map(|t| t.target.as_str()).collect();
    assert_eq!(names, vec!["a", "c"]);
    for (i, x) in kept.iter().enumerate() {
        for y in kept.iter().skip(i + 1) {
            assert!(!x.intersects(y));
        }
    }
}

#[test]
fn token_at_finds_the_token_under_the_cursor() {
    let tokens = vec![token((0, 0), (0, 5), "a"), token((2, 1), (2, 4), "b")];
    assert_eq!(token_at(&tokens, (2, 3)).unwrap().target, "b");
    assert!(token_at(&tokens, (1, 0)).is_none());
    assert!(token_at(&tokens, (0, 5)).is_none());
}

#[test]
fn cache_starts_empty() {
    let cache = ResolvedPathCache::new();
    assert!(cache.tokens.is_none());
    assert_eq!(cache.config_signature, "");
}

#[test]
fn absolute_candidates_are_probed_as_they_are() {
    let bases = vec!["/w1".to_string(), "/w2".to_string()];
    assert_eq!(probe_paths("/etc/hosts", &bases), vec!["/etc/hosts".to_string()]);
    assert_eq!(
        probe_paths("src/main.rs", &bases),
        vec!["/w1/src/main.rs".to_string(), "/w2/src/main.rs".to_string()]
    );
}

#[test]
fn token_ranges_are_utf16_positions() {
    let doc = Document::new("x😀\n'./a'".to_string(), "Plain Text").unwrap();
    assert_eq!(token_range(&doc, 6, 11).unwrap().unwrap(), ((1, 0), (1, 5)));
    assert_eq!(token_range(&doc, 1, 5).unwrap().unwrap(), ((0, 1), (0, 3)));
    assert!(token_range(&doc, 2, 5).is_none());
}

#[test]
fn directories_are_shown_only_where_highlighted() {
    let mut dir = token((0, 0), (0, 4), "/d");
    dir.is_dir = true;
    let tokens = vec![dir, token((1, 0), (1, 3), "/f")];
    let all = shown_tokens(&tokens, true);
    assert_eq!(all.len(), 2);
    let files = shown_tokens(&tokens, false);
    assert_eq!(files.len(), 1);
    assert_eq!(files[0].target, "/f");
    assert!(token_at(&files, (0, 1)).is_none());
    assert_eq!(token_at(&files, (1, 1)).unwrap().target, "/f");
}
