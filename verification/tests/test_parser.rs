use path_server::parser::languages::Language;
use path_server::parser::PathCandidate;

#[test]
fn test_parse_line() {
    let parse_line = path_server::parser::inline::parse_line;
    // 1. unix home dir
    assert_eq!(
        parse_line("~/projects/rust/main.rs"),
        "~/projects/rust/main.rs"
    );
    assert_eq!(parse_line("/etc/nginx/nginx.conf"), "/etc/nginx/nginx.conf");

    // 2. windows
    assert_eq!(
        parse_line(r"setting=C:\Windows\System32\"),
        r"C:\Windows\System32\"
    );
    assert_eq!(parse_line(r"Look at .\local\file"), r".\local\file");

    // 3. quote
    assert_eq!(
        parse_line("import './components/Header"),
        "./components/Header"
    );
    assert_eq!(
        parse_line("let p = \"../data/config.json"),
        "../data/config.json"
    );

    // 4. markdown
    assert_eq!(parse_line("[link](./docs/README.md"), "./docs/README.md");
    assert_eq!(parse_line("![img](/assets/logo.png"), "/assets/logo.png");

    // 5. multi path in same line
    assert_eq!(parse_line("from /tmp/a to /var/log/b"), "/var/log/b");
}

#[test]
fn inline_test_parse_line_ascii() {
    let parse_line = path_server::parser::inline::parse_line;
    // 1. unix home dir
    assert_eq!(
        parse_line("~/projects/rust/main.rs"),
        "~/projects/rust/main.rs"
    );
    assert_eq!(parse_line("/etc/nginx/nginx.conf"), "/etc/nginx/nginx.conf");

    // 2. windows
    assert_eq!(
        parse_line(r"setting=C:\Windows\System32\"),
        r"C:\Windows\System32\"
    );
    assert_eq!(parse_line(r"Look at .\local\file"), r".\local\file");

    // 3. quote
    assert_eq!(
        parse_line("import './components/Header"),
        "./components/Header"
    );
    assert_eq!(
        parse_line("let p = \"../data/config.json"),
        "../data/config.json"
    );

    // 4. markdown
    assert_eq!(parse_line("[link](./docs/README.md"), "./docs/README.md");
    assert_eq!(parse_line("![img](/assets/logo.png"), "/assets/logo.png");

    // 5. multi path in same line
    assert_eq!(parse_line("from /tmp/a to /var/log/b"), "/var/log/b");
}

#[test]
fn inline_test_parse_line_utf8() {
    let parse_line = path_server::parser::inline::parse_line;
    assert_eq!(
        parse_line("import './中文文件夹/中文文件.js"),
        "./中文文件夹/中文文件.js"
    );
    // unix absolute with chinese
    assert_eq!(parse_line("打开 /中文/文件.txt"), "/中文/文件.txt");
    // home directory with chinese
    assert_eq!(parse_line("~/项目/主要.rs"), "~/项目/主要.rs");
    // relative current dir
    assert_eq!(parse_line("./中文/文件.js"), "./中文/文件.js");
    // relative parent dir in a quoted string
    assert_eq!(
        parse_line("let s = \"../数据/配置.json"),
        "../数据/配置.json"
    );
    // markdown link containing Chinese path
    assert_eq!(parse_line("[链接](./文档/说明.md"), "./文档/说明.md");
    // windows path with Chinese components (escaped backslashes)
    assert_eq!(parse_line("路径 C:\\项目\\子目录\\"), "C:\\项目\\子目录\\");
}

#[test]
fn inline_test_parse_line_empty() {
    let parse_line = path_server::parser::inline::parse_line;
    assert_eq!(parse_line(""), "");
    assert_eq!(parse_line("   "), "");
}

#[test]
fn test_parse_line_network() {
    let parse_line = path_server::parser::inline::parse_line;
    // network URL
    assert_eq!(
        parse_line("see http://example.com/path/to/res"),
        "http://example.com/path/to/res"
    );
    // Windows-style network path
    assert_eq!(
        parse_line("copy \\\\server\\share\\file.txt"),
        "\\\\server\\share\\file.txt"
    );
}

#[test]
fn inline_test_separate_prefix() {
    let separate_prefix = path_server::parser::inline::separate_prefix;
    // unix style
    let (base, partial) = separate_prefix("/home/user/file.txt");
    assert_eq!(base, "/home/user/");
    assert_eq!(partial, "file.txt");

    // Windows style
    let (base, partial) = separate_prefix(r"C:\Users\Admin\Doc");
    assert_eq!(base, r"C:\Users\Admin\");
    assert_eq!(partial, "Doc");

    // only filename
    let (base, partial) = separate_prefix("file.txt");
    assert_eq!(base, "./");
    assert_eq!(partial, "file.txt");

    // only dir
    let (base, partial) = separate_prefix("/usr/bin/");
    assert_eq!(base, "/usr/bin/");
    assert_eq!(partial, "");

    // hidden file
    let (base, partial) = separate_prefix("./.config");
    assert_eq!(base, "./");
    assert_eq!(partial, ".config");
}

#[test]
fn line_test_parse_line_ascii() {
    let parse_line = path_server::parser::line::parse_line;
    // 1. unix home dir
    assert_eq!(
        parse_line("~/projects/rust/main.rs")[0],
        "~/projects/rust/main.rs".to_owned()
    );
    assert_eq!(
        parse_line("/etc/nginx/nginx.conf")[0],
        "/etc/nginx/nginx.conf".to_owned()
    );

    // 2. windows
    assert_eq!(
        parse_line(r"setting=C:\Windows\System32\")[0],
        r"C:\Windows\System32\".to_owned()
    );
    assert_eq!(
        parse_line(r"Look at .\local\file")[0],
        r".\local\file".to_owned()
    );

    // 3. quote
    assert_eq!(
        parse_line("import './components/Header")[0],
        "./components/Header".to_owned()
    );
    assert_eq!(
        parse_line("let p = \"../data/config.json")[0],
        "../data/config.json".to_owned()
    );

    // 4. markdown
    assert_eq!(
        parse_line("[link](./docs/README.md")[0],
        "./docs/README.md".to_owned()
    );
    assert_eq!(
        parse_line("![img](/assets/logo.png")[0],
        "/assets/logo.png".to_owned()
    );

    // 5. multi path in same line
    assert!(parse_line("from /tmp/a to /var/log/b").contains(&"/var/log/b".to_owned()));
}

#[test]
fn line_test_parse_line_utf8() {
    let parse_line = path_server::parser::line::parse_line;
    assert_eq!(
        parse_line("import './中文文件夹/中文文件.js")[0],
        "./中文文件夹/中文文件.js".to_owned()
    );
    // unix absolute with chinese
    assert_eq!(
        parse_line("打开 /中文/文件.txt")[0],
        "/中文/文件.txt".to_owned()
    );
    // home directory with chinese
    assert_eq!(parse_line("~/项目/主要.rs")[0], "~/项目/主要.rs".to_owned());
    // relative current dir
    assert_eq!(parse_line("./中文/文件.js")[0], "./中文/文件.js".to_owned());
    // relative parent dir in a quoted string
    assert_eq!(
        parse_line("let s = \"../数据/配置.json")[0],
        "../数据/配置.json".to_owned()
    );
    // markdown link containing Chinese path
    assert_eq!(
        parse_line("[链接](./文档/说明.md")[0],
        "./文档/说明.md".to_owned()
    );
    // windows path with Chinese components (escaped backslashes)
    assert_eq!(
        parse_line("路径 C:\\项目\\子目录\\")[0],
        "C:\\项目\\子目录\\".to_owned()
    );
}

#[test]
fn line_test_parse_line_empty() {
    let parse_line = path_server::parser::line::parse_line;
    assert!(parse_line("").contains(&"".to_owned()));
    assert!(parse_line("   ").contains(&"".to_owned()));
}

#[test]
fn test_parse_line_mixed() {
    let parse_line = path_server::parser::line::parse_line;
    assert_eq!(
        parse_line("././../.././weird-file_name.v1.2")[0],
        "././../.././weird-file_name.v1.2".to_owned()
    );
}

#[test]
fn line_test_separate_prefix() {
    let separate_prefix = path_server::parser::line::separate_prefix;
    // unix style
    let (base, partial) = separate_prefix("/home/user/file.txt".into());
    assert_eq!(base, "/home/user/");
    assert_eq!(partial, "file.txt");

    // Windows style
    let (base, partial) = separate_prefix(r"C:\Users\Admin\Doc".into());
    assert_eq!(base, r"C:\Users\Admin\");
    assert_eq!(partial, "Doc");

    // only filename
    let (base, partial) = separate_prefix("file.txt".into());
    assert_eq!(base, "./");
    assert_eq!(partial, "file.txt");

    // only dir
    let (base, partial) = separate_prefix("/usr/bin/".into());
    assert_eq!(base, "/usr/bin/");
    assert_eq!(partial, "");

    // hidden file
    let (base, partial) = separate_prefix("./.config".into());
    assert_eq!(base, "./");
    assert_eq!(partial, ".config");
}

#[test]
fn test_hybrid_paths() {
    let parse_line = path_server::parser::line::parse_line;
    assert_eq!(
        parse_line(r"\\127.0.0.1\c$\temp\file.txt")[0],
        r"\\127.0.0.1\c$\temp\file.txt".to_owned()
    );
    assert_eq!(
        parse_line(r"//server/share/path")[0],
        r"//server/share/path".to_owned()
    );
}

#[test]
fn test_others() {
    let parse_line = path_server::parser::line::parse_line;
    assert_eq!(
        parse_line(&"let f = \"./exclude_dir/".to_owned())[0],
        "./exclude_dir/".to_owned()
    );
}

#[test]
fn test_near_paths() {
    let parse_line = path_server::parser::line::parse_line;
    assert!(parse_line("Error at/var/log/app.log").contains(&"/var/log/app.log".to_owned()));
    assert!(parse_line("See config at./config.yaml").contains(&"./config.yaml".to_owned()));
}

#[test]
fn parse_line_lists_each_text_once() {
    let found = path_server::parser::line::parse_line("see './a/b' and './a/b' again ./a/b");
    for (i, a) in found.iter().enumerate() {
        for b in found.iter().skip(i + 1) {
            assert_ne!(a, b);
        }
    }
    assert!(found.contains(&"./a/b".to_owned()));
}

#[test]
fn path_candidate_slice() {
    // "a" (1 byte), "é" (2 bytes), "𝄞" (4 bytes), "b" (1 byte)
    let s = "aé𝄞b".to_string();
    let pc = PathCandidate {
        content: s.clone(),
        start_byte: 1,
        end_byte: s.len(),
    };
    let sub = pc.slice_bytes(1 + 1, 1 + 3); // bytes at indices 1..3 -> "é𝄞"
    assert_eq!(sub.content, "é");
    assert_eq!(sub.start_byte, 2);
    assert_eq!(sub.end_byte, 4);
    let sub = pc.slice_bytes(1 + 3, 1 + 7); // bytes at indices 3..7 -> "𝄞b"
    assert_eq!(sub.content, "𝄞");
    assert_eq!(sub.start_byte, 4);
    assert_eq!(sub.end_byte, 8);
}

#[test]
fn path_candidate_trim_basic_unicode() {
    let s = "  \t aé𝄞b \n".to_string();
    let pc = PathCandidate {
        content: s.clone(),
        start_byte: 5,
        end_byte: 5 + s.len(),
    };
    let first = s
        .char_indices()
        .find(|&(_, ch)| !ch.is_whitespace())
        .unwrap()
        .0;
    let (last_i, last_ch) = s
        .char_indices()
        .rev()
        .find(|&(_, ch)| !ch.is_whitespace())
        .unwrap();
    let last = last_i + last_ch.len_utf8();

    let trimmed = pc.trim();
    assert_eq!(trimmed.content, &s[first..last]);
    assert_eq!(trimmed.start_byte, pc.start_byte + first);
    assert_eq!(trimmed.end_byte, pc.start_byte + last);
}

#[test]
fn path_candidate_trim_all_whitespace() {
    let s = " \t\n".to_string();
    let pc = PathCandidate {
        content: s.clone(),
        start_byte: 3,
        end_byte: 3 + s.len(),
    };
    let trimmed = pc.trim();
    assert_eq!(trimmed.content, "");
    assert_eq!(trimmed.start_byte, pc.start_byte + s.len());
    assert_eq!(trimmed.end_byte, pc.start_byte + s.len());
}

#[test]
fn path_candidate_trim_no_whitespace() {
    let s = "a bc".to_string();
    let pc = PathCandidate {
        content: s.clone(),
        start_byte: 0,
        end_byte: 0 + s.len(),
    };
    let trimmed = pc.trim();
    assert_eq!(trimmed.content, s);
    assert_eq!(trimmed.start_byte, pc.start_byte);
    assert_eq!(trimmed.end_byte, pc.end_byte);
}

#[test]
fn path_candidate_split_keeps_pieces_with_a_slash() {
    let text = "go to ./a/b and c/d";
    let pc = PathCandidate { content: text.to_string(), start_byte: 10, end_byte: 10 + text.len() };
    let pieces = pc.split(text, &[' ']);
    let got: Vec<(String, usize, usize)> =
        pieces.into_iter().map(|c| (c.content, c.start_byte, c.end_byte)).collect();
    assert_eq!(got, vec![("./a/b".to_string(), 16, 21), ("c/d".to_string(), 26, 29)]);
}

#[test]
fn language_names_round_trip() {
    for l in [Language::JavaScript, Language::CSharp, Language::PlainText, Language::Rust] {
        assert_eq!(Language::from_id(l.name()), l);
    }
    assert_eq!(Language::from_id("no such language"), Language::Unknown);
    assert_eq!(Language::CPlusPlus.name(), "C++");
}

#[test]
fn unescape_reads_json_escapes() {
    use_unescape();
}

fn use_unescape() {
    let unescape = path_server::parser::unescape::unescape;
    assert_eq!(unescape(r"a\/b"), Some("a/b".to_string()));
    assert_eq!(unescape(r"\u4e2d\n"), Some("中\n".to_string()));
    assert_eq!(unescape(r"C:\\dir"), Some(r"C:\dir".to_string()));
    assert_eq!(unescape("say \"hi"), None);
    assert_eq!(unescape(r"bad \q"), None);
}

#[test]
fn escaped_lines_also_yield_their_unescaped_paths() {
    let found = path_server::parser::line::parse_line(r"let p = C:\\Users\\me");
    assert!(found.contains(&r"C:\Users\me".to_owned()));
}

#[test]
fn inline_windows_parent_prefix_starts_a_path() {
    let parse_line = path_server::parser::inline::parse_line;
    assert_eq!(parse_line(r"see ..\data\x"), r"..\data\x");
    assert_eq!(parse_line(r"see .\data\x"), r".\data\x");
}

#[test]
fn line_parser_candidates_are_growing_suffixes() {
    use_line_parser_cases();
}

fn use_line_parser_cases() {
    let mut p = path_server::parser::line::LineParser::new("");
    assert_eq!(p.parse(), vec![(16, String::new())]);
    let mut p = path_server::parser::line::LineParser::new("cat a/b\t");
    assert!(p.parse().is_empty());
    let line = "see ./a/b";
    let mut p = path_server::parser::line::LineParser::new(line);
    let got = p.parse();
    assert!(!got.is_empty());
    for w in got.windows(2) {
        assert!(w[0].1.chars().count() <= w[1].1.chars().count());
    }
    assert!(got.iter().all(|(_, s)| line.ends_with(s.as_str())));
}

#[test]
fn language_names_give_back_their_language() {
    for l in [Language::JavaScript, Language::Rust, Language::PlainText, Language::Unknown] {
        assert_eq!(Language::from_id(l.name()), l);
    }
}
