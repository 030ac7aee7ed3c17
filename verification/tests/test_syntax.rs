use path_server::document::Document;
use path_server::parser::languages::Language;
use path_server::parser::syntax::{build_tree, parse_tree, syntax_of, ts_general, ts_markdown, FlatNode, SyntaxNode};

fn node(kind: &str, start: usize, end: usize, children: Vec<SyntaxNode>) -> SyntaxNode {
    SyntaxNode { kind: kind.to_string(), start_byte: start, end_byte: end, children }
}

fn triples(v: Vec<path_server::parser::PathCandidate>) -> Vec<(String, usize, usize)> {
    v.into_iter().map(|c| (c.content, c.start_byte, c.end_byte)).collect()
}

#[test]
fn general_strings_merge_fragments_and_escapes() {
    let src = "const p = \"./a\\nb\" + `x ${y} z/w`;";
    let doc = Document::new(src.to_string(), "JavaScript").unwrap();
    let tree = syntax_of(doc.tree.as_ref().unwrap()).unwrap();
    let got = triples(ts_general::extract_strings(src, &tree, &Language::JavaScript));
    assert_eq!(
        got,
        vec![
            ("./a\\nb".to_string(), 11, 17),
            ("x ".to_string(), 22, 24),
            (" z/w".to_string(), 28, 32),
        ]
    );
}

#[test]
fn python_tree_holds_every_node_in_place() {
    let t = parse_tree(&Language::Python, "x = 1").unwrap();
    assert_eq!((t.kind.as_str(), t.start_byte, t.end_byte), ("module", 0, 5));
    assert_eq!(t.children.len(), 1);
    let stmt = &t.children[0];
    assert_eq!(stmt.kind, "expression_statement");
    let assignment = &stmt.children[0];
    assert_eq!(assignment.kind, "assignment");
    let parts: Vec<(&str, usize, usize, usize)> = assignment
        .children
        .iter()
        .map(|c| (c.kind.as_str(), c.start_byte, c.end_byte, c.children.len()))
        .collect();
    assert_eq!(parts, vec![("identifier", 0, 1, 0), ("=", 2, 3, 0), ("integer", 4, 5, 0)]);
}

#[test]
fn trees_without_grammar_are_none_and_flat_listings_rebuild() {
    assert!(parse_tree(&Language::Markdown, "# x").is_none());
    assert!(parse_tree(&Language::Python, "x = 1").is_some());
    let flat = vec![
        FlatNode { kind: "root".into(), start_byte: 0, end_byte: 4, child_count: 2 },
        FlatNode { kind: "a".into(), start_byte: 0, end_byte: 1, child_count: 0 },
        FlatNode { kind: "b".into(), start_byte: 2, end_byte: 4, child_count: 1 },
        FlatNode { kind: "c".into(), start_byte: 3, end_byte: 4, child_count: 0 },
    ];
    let t = build_tree(&flat).unwrap();
    assert_eq!(t.children.len(), 2);
    assert_eq!(t.children[1].children[0].kind, "c");
    let mut short = flat;
    short.pop();
    assert!(build_tree(&short).is_none());
}

#[test]
fn markdown_ranges_and_pieces() {
    let src = "see [x](./a.md) and `b/c` or *d/e* ok";
    let tree = node(
        "document",
        0,
        src.len(),
        vec![node(
            "inline",
            0,
            src.len(),
            vec![
                node("link_destination", 8, 14, vec![]),
                node(
                    "code_span",
                    20,
                    25,
                    vec![node("code_span_delimiter", 20, 21, vec![]), node("code_span_delimiter", 24, 25, vec![])],
                ),
                node("emphasis", 29, 34, vec![]),
            ],
        )],
    );
    let got = triples(ts_markdown::extract_strings(src, &tree));
    assert!(got.contains(&("./a.md".to_string(), 8, 14)));
    assert!(got.contains(&("b/c".to_string(), 21, 24)));
    assert!(got.contains(&("d/e".to_string(), 30, 33)));
    assert!(got.contains(&("[x](./a.md)".to_string(), 4, 15)));
    for (i, a) in got.iter().enumerate() {
        for b in got.iter().skip(i + 1) {
            assert_ne!(a, b);
        }
    }
}

#[test]
fn a_leading_escape_stays_in_the_candidate() {
    let src = "let a = \"\\tx/y\";";
    let doc = Document::new(src.to_string(), "JavaScript").unwrap();
    let tree = syntax_of(doc.tree.as_ref().unwrap()).unwrap();
    let got = triples(ts_general::extract_strings(src, &tree, &Language::JavaScript));
    assert_eq!(got, vec![("\\tx/y".to_string(), 9, 14)]);
}

#[test]
fn dockerfile_words_sit_where_they_are_and_json_strings_decode() {
    let src = "cat ab b";
    let frag = node("shell_fragment", 0, 8, vec![]);
    let got = triples(path_server::parser::syntax::ts_dockerfile::extract_strings(src, &frag, &Language::Docker));
    assert_eq!(
        got,
        vec![("cat".to_string(), 0, 3), ("ab".to_string(), 4, 6), ("b".to_string(), 7, 8)]
    );
    let src = "\"a\\nb\"";
    let json = node("json_string", 0, 6, vec![]);
    let got = triples(path_server::parser::syntax::ts_dockerfile::extract_strings(src, &json, &Language::Docker));
    assert_eq!(got, vec![("a\nb".to_string(), 0, 6)]);
}
