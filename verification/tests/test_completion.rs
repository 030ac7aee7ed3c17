use path_server::completion::{
    completion_dirs, expand_tilde, filter, filter_entries, is_hidden_file, is_hidden_name, plan_completion,
    select_entries, CompletionEntry, DirEntryInfo, EntryKind,
};
use path_server::config::Completion;
use path_server::error::PathServerError;

fn entry(label: &str, path: &str) -> CompletionEntry {
    CompletionEntry { label: label.to_string(), kind: EntryKind::File, full_path: path.to_string() }
}

#[test]
fn test_filter() {
    // test filter duplicate and exclude
    let items = vec![
        entry("keep.txt", "/some/path/to/keep.txt"),
        entry("ignore.log", "/some/path/to/ignore.log"),
        entry("keep.txt", "/some/path/to/keep.txt"),
    ];
    let filtered = filter(items, 0, &vec!["*.log".into()]);
    // should drop ".log" and deduplicate
    assert_eq!(filtered.len(), 1);
    assert_eq!(filtered[0].label, "keep.txt");

    // test cap at max results
    let items = vec![entry("1.txt", ""), entry("2.log", ""), entry("3.txt", "")];
    let filtered = filter(items, 1, &vec![]);
    // should cap at 1
    assert_eq!(filtered.len(), 1);
    assert_eq!(filtered[0].label, "1.txt");
}

#[test]
fn an_excluded_offer_still_hides_later_offers_of_its_label() {
    let items = vec![entry("a", "/x/a.log"), entry("a", "/y/a.txt"), entry("b", "/y/b")];
    let filtered = filter_entries(items, &vec![true, false, false], 0);
    let labels: Vec<&str> = filtered.iter().map(|e| e.label.as_str()).collect();
    assert_eq!(labels, vec!["b"]);
}

#[test]
fn invalid_exclude_patterns_are_ignored() {
    let items = vec![entry("a.rs", "/p/a.rs"), entry("b.log", "/p/b.log")];
    let filtered = filter(items, 0, &vec!["[".into(), "**/*.log".into()]);
    assert_eq!(filtered.len(), 1);
    assert_eq!(filtered[0].label, "a.rs");
}

#[test]
fn an_exclude_set_too_large_to_build_excludes_nothing() {
    let items = vec![entry("a.rs", "/p/a.rs"), entry("b.log", "/p/b.log")];
    let huge = "?".repeat(400_000);
    let filtered = filter(items, 0, &vec![huge, "*.log".into()]);
    let labels: Vec<&str> = filtered.iter().map(|e| e.label.as_str()).collect();
    assert_eq!(labels, vec!["a.rs", "b.log"]);
}

#[test]
fn test_expand_tilde() {
    let home: Result<String, String> = Ok("/home/me".to_string());
    assert_eq!(expand_tilde("~/projects", &home).unwrap(), "/home/me/projects");
    assert_eq!(expand_tilde("/path/without/tilde", &home).unwrap(), "/path/without/tilde");
    assert_eq!(expand_tilde("~", &home).unwrap(), "~");
    let missing: Result<String, String> = Err("environment variable not found".to_string());
    match expand_tilde("~/projects", &missing) {
        Err(PathServerError::Unknown(m)) => assert_eq!(
            m,
            "Failed to get HOME environment variable: environment variable not found"
        ),
        other => panic!("unexpected {:?}", other),
    }
}

#[test]
fn hidden_files_start_with_a_dot() {
    assert!(is_hidden_name(".config"));
    assert!(!is_hidden_name("config"));
    assert!(is_hidden_file("/a/b/.env").unwrap());
    assert!(!is_hidden_file("/a/b/env").unwrap());
    assert!(is_hidden_file(".git").unwrap());
    assert!(!is_hidden_file("git").unwrap());
    match is_hidden_file("/") {
        Err(PathServerError::InvalidPath(m)) => {
            assert_eq!(m, "/ do not contained file name, cannot check hidden or not")
        }
        other => panic!("unexpected {:?}", other),
    }
}

#[test]
fn select_entries_matches_prefix_and_hides_dot_files() {
    let infos = vec![
        DirEntryInfo { name: "apple.txt".into(), is_dir: false, full_path: "/b/apple.txt".into(), hidden: false },
        DirEntryInfo { name: "app_dir".into(), is_dir: true, full_path: "/b/app_dir".into(), hidden: false },
        DirEntryInfo { name: "banana.txt".into(), is_dir: false, full_path: "/b/banana.txt".into(), hidden: true },
        DirEntryInfo { name: ".app".into(), is_dir: false, full_path: "/b/.app".into(), hidden: false },
    ];
    let got = select_entries(&infos, "app", true);
    let labels: Vec<(&str, EntryKind)> = got.iter().map(|e| (e.label.as_str(), e.kind)).collect();
    assert_eq!(labels, vec![("apple.txt", EntryKind::File), ("app_dir", EntryKind::Folder)]);
    let all = select_entries(&infos, "", false);
    assert_eq!(all.len(), 2);
    assert!(all.iter().all(|e| e.label != "banana.txt" && e.label != ".app"));
    let with_hidden = select_entries(&infos, ".", true);
    assert_eq!(with_hidden.len(), 1);
    assert_eq!(with_hidden[0].label, ".app");
}

#[test]
fn plan_completion_for_relative_and_absolute_prefixes() {
    let completion = Completion {
        max_results: 1,
        show_hidden_files: true,
        exclude: vec!["*.log".into()],
        base_path: vec!["${workspaceFolder}".into(), "${document}".into()],
    };
    let home: Result<String, String> = Ok("/home/u".into());
    let plan = plan_completion(
        "./data/a",
        &completion,
        &["/ws".to_string()],
        &Some("/ws/src".to_string()),
        &home,
    )
    .unwrap();
    assert_eq!(plan.partial_name, "a");
    assert_eq!(plan.dirs, vec!["/ws/./data/".to_string(), "/ws/src/./data/".to_string()]);

    let plan = plan_completion("~/docs/re", &completion, &[], &None, &home).unwrap();
    assert_eq!(plan.dirs, vec!["/home/u/docs/".to_string()]);
    assert_eq!(plan.partial_name, "re");

    let plan = plan_completion("name", &completion, &["/ws".to_string()], &None, &home).unwrap();
    assert_eq!(plan.dirs, vec!["/ws/./".to_string()]);
    assert_eq!(plan.partial_name, "name");
}

#[test]
fn completion_dirs_keep_an_absolute_base_and_join_a_relative_one() {
    let bases = vec!["/w1".to_string(), "/w2/".to_string()];
    assert_eq!(completion_dirs("/abs/dir/", true, &bases), vec!["/abs/dir/".to_string()]);
    assert_eq!(completion_dirs("/abs/dir/", true, &vec![]), vec!["/abs/dir/".to_string()]);
    assert_eq!(
        completion_dirs("./src/", false, &bases),
        vec!["/w1/./src/".to_string(), "/w2/./src/".to_string()]
    );
    assert!(completion_dirs("./src/", false, &vec![]).is_empty());
}
