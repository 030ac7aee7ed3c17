use path_server::error::PathServerError;
use path_server::fs::{path_to_url, url_to_path};

#[test]
fn fs_test_url_to_path() {
    // valid file url
    let url_str = "file:///tmp";
    let path = url_to_path(url_str).unwrap().unwrap();
    assert!(std::path::Path::new(&path).ends_with("tmp"));

    // non-file scheme should error
    let err = url_to_path("http://example.com").unwrap_err();
    match err {
        PathServerError::Unsupported(_) => {}
        _ => assert!(false, "expected Unsupported error, got: {}", err.describe()),
    }
}

#[test]
fn utils_test_url_to_path() {
    // valid file url
    let url_str = "file:///tmp";
    let path = url_to_path(url_str).unwrap().unwrap();
    assert!(std::path::Path::new(&path).ends_with("tmp"));

    // non-file scheme should error
    let err = url_to_path("http://example.com").unwrap_err();
    match err {
        PathServerError::Unsupported(_) => {}
        _ => assert!(false, "expected Unsupported error, got: {}", err.describe()),
    }
}

#[test]
fn untitled_documents_have_no_path() {
    assert_eq!(url_to_path("untitled:Untitled-1").unwrap(), None);
}

#[test]
fn non_local_url_error_names_the_url() {
    match url_to_path("https://example.com/x").unwrap_err() {
        PathServerError::Unsupported(m) => {
            assert_eq!(m, "Non-local url is not supported: https://example.com/x")
        }
        other => panic!("unexpected {:?}", other),
    }
}

#[test]
fn paths_and_urls_round_trip() {
    let url = path_to_url("/tmp/some dir/f.txt").unwrap();
    assert_eq!(url, "file:///tmp/some%20dir/f.txt");
    assert_eq!(url_to_path(&url).unwrap(), Some("/tmp/some dir/f.txt".to_string()));
    match path_to_url("relative/path") {
        Err(PathServerError::InvalidPath(m)) => {
            assert_eq!(m, "Failed to convert file path to URL: relative/path")
        }
        other => panic!("unexpected {:?}", other),
    }
}

#[test]
fn file_urls_with_encoded_names_convert() {
    assert_eq!(url_to_path("file:///tmp/%E4%B8%AD%E6%96%87.md").unwrap(), Some("/tmp/中文.md".to_string()));
    assert_eq!(url_to_path("file:///a%20b").unwrap(), Some("/a b".to_string()));
}
