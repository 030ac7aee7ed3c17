use path_server::document::{
    offset_to_position, position_to_offset, Document, TextChange, TextPosition, TextRange,
};
use path_server::error::PathServerError;
use path_server::parser::languages::Language;

#[test]
fn test_position_to_offset_ascii() {
    let text = r#"Hello
World"#;
    assert_eq!(position_to_offset(text, 0, 0).unwrap(), 0);
    assert_eq!(position_to_offset(text, 0, 5).unwrap(), 5);
    assert_eq!(position_to_offset(text, 1, 0).unwrap(), 6);
    assert_eq!(position_to_offset(text, 1, 5).unwrap(), 11);
}

#[test]
fn test_position_to_offset_utf8() {
    let text = [
        "这是一个UTF-8字符测试。\n",
        "這是一個 UTF-8 字元測試。\n",
        "これはUTF-8文字のテストです。\n",
        "이것은 UTF-8 문자 테스트입니다。\n",
    ];
    let index = text.concat();
    let index = index.as_str();
    // test start of line
    assert_eq!(position_to_offset(index, 0, 0).unwrap(), 0);
    assert_eq!(position_to_offset(index, 1, 0).unwrap(), 0 + text[0].len());
    assert_eq!(
        position_to_offset(index, 2, 0).unwrap(),
        0 + text[0].len() + text[1].len()
    );
    assert_eq!(
        position_to_offset(index, 3, 0).unwrap(),
        0 + text[0].len() + text[1].len() + text[2].len()
    );
    assert_eq!(
        position_to_offset(index, 4, 0).unwrap(),
        0 + text[0].len() + text[1].len() + text[2].len() + text[3].len()
    );
    // test middle of line
    assert_eq!(position_to_offset(index, 0, 4).unwrap(), "这是一个".len());
    assert_eq!(
        position_to_offset(index, 1, 1).unwrap(),
        0 + text[0].len() + "這".len()
    );
    assert_eq!(
        position_to_offset(index, 2, 10).unwrap(),
        0 + text[0].len() + text[1].len() + "これはUTF-8文字".len()
    );
    assert_eq!(
        position_to_offset(index, 3, 20).unwrap(),
        0 + text[0].len()
            + text[1].len()
            + text[2].len()
            + "이것은 UTF-8 문자 테스트입니다。".len()
    );
}

#[test]
fn test_get_line_utf8() {
    let text = [
        "第一行内容\n",
        "第二行-包含中文 and ASCII characters\n",
        "第三行结束\n",
    ];
    let doc = Document::new(text.concat(), Language::PlainText.name()).unwrap();

    // get full lines
    assert_eq!(doc.get_line(0, None).unwrap(), text[0]);
    assert_eq!(doc.get_line(1, None).unwrap(), text[1]);
    assert_eq!(doc.get_line(2, None).unwrap(), text[2]);
    // get line with end
    assert_eq!(doc.get_line(0, Some(3)).unwrap(), "第一行");
    assert_eq!(
        doc.get_line(1, Some(18)).unwrap(),
        "第二行-包含中文 and ASCII"
    );
    assert_eq!(doc.get_line(2, Some(1)).unwrap(), "第");
}

#[test]
fn test_apply_change_range() {
    let text = ["First line\n", "Second line: 包含中文\n", "Third line\n"];
    let mut doc = Document::new(text.concat(), Language::PlainText.name()).unwrap();
    assert_eq!(doc.text, text.concat());

    // replace second line by range (line 1 start -> line 2 start)
    let change = TextChange {
        range: Some(TextRange {
            start: TextPosition { line: 1, character: 0 },
            end: TextPosition { line: 2, character: 0 },
        }),
        text: "New second line: 也包含中文\n".to_string(),
    };

    doc.apply_change(&change).unwrap();
    assert_eq!(
        doc.get_line(1, None).unwrap(),
        "New second line: 也包含中文\n"
    );
}

#[test]
fn test_apply_change_full() {
    let text = ["First line\n", "Second line: 包含中文\n", "Third line\n"];
    let mut doc = Document::new(text.concat(), Language::PlainText.name()).unwrap();
    assert_eq!(doc.text, text.concat());
    // full document replace when range is None
    let full = TextChange {
        range: None,
        text: "New beginning\nAnother line\n".to_string(),
    };
    doc.apply_change(&full).unwrap();
    assert_eq!(doc.text, "New beginning\nAnother line\n");
}

#[test]
fn position_and_offset_round_trip() {
    let text = "a😀b\n中c\n\nend";
    for (offset, _) in text.char_indices().chain(std::iter::once((text.len(), ' '))) {
        let (line, col) = offset_to_position(text, offset).unwrap();
        assert_eq!(position_to_offset(text, line, col).unwrap(), offset);
    }
    // an emoji takes two UTF-16 units
    assert_eq!(offset_to_position(text, 5).unwrap(), (0, 3));
    assert_eq!(offset_to_position(text, 7).unwrap(), (1, 0));
    assert_eq!(offset_to_position(text, text.len()).unwrap(), (3, 3));
}

#[test]
fn position_on_missing_line_is_an_encoding_error() {
    let err = position_to_offset("one\ntwo", 5, 0).unwrap_err();
    match err {
        PathServerError::EncodingError(m) => {
            assert_eq!(m, "Failed to calculate character offset for line 5, column 0")
        }
        other => panic!("unexpected error {:?}", other),
    }
}

#[test]
fn get_line_on_missing_line_fails_and_last_line_runs_to_the_end() {
    let doc = Document::new("a\nbc".to_string(), "Plain Text").unwrap();
    assert_eq!(doc.get_line(1, None).unwrap(), "bc");
    assert!(doc.get_line(7, None).is_err());
    assert_eq!(doc.try_get_line(1, Some(1)).unwrap().unwrap(), "b");
}

#[test]
fn try_apply_change_refuses_ranges_inside_a_character() {
    let mut doc = Document::new("😀x".to_string(), "Plain Text").unwrap();
    // column 1 falls between the two halves of the emoji
    let change = TextChange {
        range: Some(TextRange {
            start: TextPosition { line: 0, character: 1 },
            end: TextPosition { line: 0, character: 2 },
        }),
        text: String::new(),
    };
    assert!(doc.try_apply_change(&change).is_none());
    assert_eq!(doc.text, "😀x");
    let change = TextChange {
        range: Some(TextRange {
            start: TextPosition { line: 0, character: 2 },
            end: TextPosition { line: 0, character: 3 },
        }),
        text: "y".to_string(),
    };
    assert!(doc.try_apply_change(&change).unwrap().is_ok());
    assert_eq!(doc.text, "😀y");
}

#[test]
fn whole_replacement_moves_line_lookups_to_the_new_text() {
    let mut doc = Document::new("ab\ncd".to_string(), "Plain Text").unwrap();
    let full = TextChange { range: None, text: "xyz\nw".to_string() };
    doc.apply_change(&full).unwrap();
    assert_eq!(doc.text, "xyz\nw");
    assert_eq!(doc.index_text, "xyz\nw");
    assert_eq!(doc.utf16_pos_to_offset(1, 0).unwrap(), 4);
    assert_eq!(doc.get_line(1, None).unwrap(), "w");
}

#[test]
fn documents_of_languages_with_a_grammar_get_a_tree() {
    let doc = Document::new("let a = 1;".to_string(), Language::Rust.name()).unwrap();
    assert!(doc.tree.is_some());
    let doc = Document::new("x".to_string(), "javascript").unwrap();
    assert_eq!(doc.language, Language::Unknown);
    assert!(doc.tree.is_none());
}
