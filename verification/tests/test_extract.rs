use path_server::document::Document;
use path_server::parser::extract::{
    extract_general, extract_literals, extract_paths_from_string, extract_string,
    extract_string_literals, extract_strings, parse_document,
};
use path_server::parser::languages::Language;
use path_server::parser::PathCandidate;

fn parse_and_extract(lang: Language, src: &str) -> Vec<PathCandidate> {
    let doc = Document::new(src.to_string(), lang.name())
        .expect("failed to create Document for parsing");
    extract_strings(&doc).unwrap_or_default()
}

#[test]
fn test_javascript_extract_strings() {
    let normal_src = r#"const tpl = "hello world";"#;
    let res = parse_and_extract(Language::JavaScript, normal_src);
    assert!(
        res.iter().any(|c| c.content.contains("hello world")),
        "missing 'hello world' fragment"
    );
    let template_src = r#"const tpl = `hello ${name} world`;"#;
    let res = parse_and_extract(Language::JavaScript, template_src);
    assert!(
        res.iter().any(|c| c.content.contains("hello")),
        "missing 'hello' fragment"
    );
    assert!(
        res.iter().any(|c| c.content.contains(" world")),
        "missing ' world' fragment"
    );
}

#[test]
fn test_typescript_extract_string() {
    let normal_src = r#"const tpl: string = "hello world";"#;
    let res = parse_and_extract(Language::TypeScript, normal_src);
    assert!(
        res.iter().any(|c| c.content.contains("hello world")),
        "missing 'hello world' fragment"
    );
    let template_src = r#"const tpl: string = `ts ${val} end`;"#;
    let res = parse_and_extract(Language::TypeScript, template_src);
    assert!(
        res.iter().any(|c| c.content.contains("ts ")),
        "missing 'ts ' fragment"
    );
    assert!(
        res.iter().any(|c| c.content.contains(" end")),
        "missing ' end' fragment"
    );
}

#[test]
fn test_python_extract_strings() {
    let normal_src = r#"
        s = "hello"
        t = 'world'
        u = """multi\nline"""
        "#;
    let res = parse_and_extract(Language::Python, normal_src);
    assert!(
        res.iter().any(|c| c.content.contains("hello")),
        "missing 'hello'"
    );
    assert!(
        res.iter().any(|c| c.content.contains("world")),
        "missing 'world'"
    );
    assert!(
        res.iter()
            .any(|c| c.content.trim().contains(r#"multi\nline"#)),
        "missing 'multi\nline' in triple-quoted string"
    );
    let f_string_src = r#"s = f"hello {name}""#;
    let res = parse_and_extract(Language::Python, f_string_src);
    assert!(
        res.iter().any(|c| c.content.contains("hello")),
        "missing 'hello' in f-string"
    );
}

#[test]
fn test_rust_extract_strings() {
    let src = "let a = \"hello\"; let b = r#\"raw content\"#";
    let res = parse_and_extract(Language::Rust, src);
    assert!(
        res.iter().any(|c| c.content.contains("hello")),
        "missing 'hello'"
    );
    assert!(
        res.iter().any(|c| c.content.contains("raw content")),
        "missing raw string content"
    );
}

#[test]
fn fragments_carry_their_byte_ranges() {
    let src = "x = 'a/b'";
    let res = parse_and_extract(Language::Python, src);
    assert_eq!(res.len(), 1);
    assert_eq!(res[0].content, "a/b");
    assert_eq!(&src[res[0].start_byte..res[0].end_byte], "a/b");
}

#[test]
fn literals_keep_their_quotes() {
    let doc = Document::new("let a = \"./x\";".to_string(), "Rust").unwrap();
    let lits = extract_literals(&doc).unwrap();
    assert_eq!(lits.len(), 1);
    assert_eq!(lits[0].content, "\"./x\"");
    assert_eq!((lits[0].start_byte, lits[0].end_byte), (8, 13));
}

#[test]
fn documents_without_a_tree_fall_back_to_quoted_runs() {
    let doc = Document::new("a 'x/y' b \"no end and `z`".to_string(), "Plain Text").unwrap();
    assert!(extract_strings(&doc).is_none());
    let runs = extract_general(&doc).unwrap();
    let got: Vec<(String, usize, usize)> =
        runs.into_iter().map(|c| (c.content, c.start_byte, c.end_byte)).collect();
    assert_eq!(got, vec![("'x/y'".to_string(), 2, 7), ("`z`".to_string(), 22, 25)]);
    assert_eq!(extract_string(&doc).len(), 2);
}

#[test]
fn paths_of_a_string_whole_then_tail() {
    let c = PathCandidate { content: "see ./a/b".to_string(), start_byte: 4, end_byte: 13 };
    let got: Vec<(String, usize, usize)> = extract_paths_from_string(c)
        .into_iter()
        .map(|c| (c.content, c.start_byte, c.end_byte))
        .collect();
    assert_eq!(
        got,
        vec![("see ./a/b".to_string(), 4, 13), ("./a/b".to_string(), 8, 13)]
    );
    let c = PathCandidate { content: "no slash here".to_string(), start_byte: 0, end_byte: 13 };
    assert!(extract_paths_from_string(c).is_empty());
}

#[test]
fn parse_document_gives_one_list_per_string() {
    let doc = Document::new("'./a' 'b c/d'".to_string(), "Plain Text").unwrap();
    let lists = parse_document(&doc);
    assert_eq!(lists.len(), 2);
    assert_eq!(lists[0].len(), 1);
    assert_eq!(lists[0][0].content, "'./a'");
    assert_eq!(lists[1].len(), 2);
    assert_eq!(lists[1][1].content, "c/d'");
    assert_eq!(lists[1][1].start_byte, 9);
}

#[test]
fn string_literals_with_and_without_a_tree() {
    let doc = Document::new("let a = \"./x\";".to_string(), "JavaScript").unwrap();
    let lits = extract_string_literals(&doc);
    assert_eq!(lits.len(), 1);
    assert_eq!(lits[0].content, "\"./x\"");
    assert_eq!((lits[0].start_byte, lits[0].end_byte), (8, 13));
    let plain = Document::new("a 'x/y' b".to_string(), "Plain Text").unwrap();
    let lits = extract_string_literals(&plain);
    assert_eq!(lits.len(), 1);
    assert_eq!(lits[0].content, "'x/y'");
    assert_eq!((lits[0].start_byte, lits[0].end_byte), (2, 7));
}
