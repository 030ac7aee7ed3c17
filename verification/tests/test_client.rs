use path_server::client::{ClientMetadata, Editor};
use path_server::error::PathServerError;

#[test]
fn editors_by_name() {
    assert_eq!(Editor::from_name("Zed"), Editor::Zed);
    assert_eq!(Editor::from_name("VSCode"), Editor::VSCode);
    assert_eq!(Editor::from_name("vscode"), Editor::Unknown("vscode".to_string()));
    assert_eq!(Editor::from_name("Neovim").name(), "Neovim");
    assert_eq!(Editor::Zed.name(), "Zed");
}

#[test]
fn default_metadata_and_its_description() {
    let m = ClientMetadata::default();
    assert_eq!(m.editor, Editor::Unknown("unknown".to_string()));
    assert!(m.support_document_link);
    assert_eq!(m.describe(), "\n    editor: unknown\n    support_document_link: true");
    let m = ClientMetadata { editor: Editor::VSCode, support_document_link: false };
    assert_eq!(m.describe(), "\n    editor: VSCode\n    support_document_link: false");
}

#[test]
fn error_codes_titles_and_descriptions() {
    let cases = vec![
        (PathServerError::EncodingError("e".into()), 1000, "Encoding error"),
        (PathServerError::IoError("e".into()), 1001, "IO error"),
        (PathServerError::Unsupported("e".into()), 1002, "Unsupported"),
        (PathServerError::ParseError("e".into()), 1003, "Parse error"),
        (PathServerError::InvalidPath("e".into()), 1004, "Invalid path"),
        (PathServerError::UserConfigError("e".into()), 1005, "User config error"),
        (PathServerError::Unknown("e".into()), 2000, "Unknown error"),
    ];
    for (e, code, title) in cases {
        assert_eq!(e.code(), code);
        assert_eq!(e.title(), title);
        assert_eq!(e.detail(), "e");
        assert_eq!(e.describe(), format!("{}: e", title));
    }
}
