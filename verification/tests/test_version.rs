use path_server::version::{
    asset_name, find_binary, get_installed_version, is_compatible, is_stale_binary,
    release_decision, release_target, version_gt, version_to_run, Architecture, Os,
};

#[test]
fn version_gt_compares_numbers_place_by_place() {
    assert!(version_gt("v0.2.0", "v0.1.9"));
    assert!(version_gt("1.10.0", "v1.9.9"));
    assert!(!version_gt("v1.2.3", "v1.2.3"));
    assert!(!version_gt("v1.2", "v1.2.0"));
    assert!(!version_gt("v1.2.0", "v1.2"));
    assert!(version_gt("v2.x", "v1.5"));
    assert!(version_gt("vx.1", "v0.0"));
    assert!(!version_gt("vx.0", "v0.0"));
    assert!(version_gt("v+3", "v2"));
    assert!(!version_gt("v4294967296", "v1"));
}

#[test]
fn version_order_is_strict() {
    let vs = ["v0.1.0", "v0.2.0", "v1.0", "v1.0.1", "v10.0.0", "x", ""];
    for a in vs {
        assert!(!version_gt(a, a));
        for b in vs {
            assert!(!(version_gt(a, b) && version_gt(b, a)));
            for c in vs {
                if version_gt(a, b) && version_gt(b, c) {
                    assert!(version_gt(a, c));
                }
            }
        }
    }
}

#[test]
fn major_ten_is_not_major_one() {
    assert!(!is_compatible("v10.0.0", &[1]));
    assert!(is_compatible("v1.0.0", &[1]));
    assert!(is_compatible("v10.2.0", &[0, 10]));
    assert!(!is_compatible("1.0.0", &[1]));
}

#[test]
fn installed_version_is_the_newest_executable() {
    let names = vec![
        Some("path-server_v0.1.0_x86_64-unknown-linux-gnu".to_string()),
        Some("other".to_string()),
        Some("path-server_v0.2.0_x86_64-unknown-linux-gnu".to_string()),
        Some("path-server_v0.1.5_x86_64-unknown-linux-gnu".to_string()),
    ];
    assert_eq!(get_installed_version(&names), Some("v0.2.0".to_string()));
    assert_eq!(get_installed_version(&vec![]), None);
    let with_bad = vec![Some("path-server_v0.1.0_t".to_string()), None];
    assert_eq!(get_installed_version(&with_bad), None);
}

#[test]
fn release_decisions() {
    assert_eq!(release_decision("v0.3.0", &Some("v0.2.0".into()), &[0]), Ok(true));
    assert_eq!(release_decision("v0.2.0", &Some("v0.2.0".into()), &[0]), Ok(false));
    assert_eq!(release_decision("v0.2.0", &None, &[0]), Ok(true));
    assert_eq!(
        release_decision("v1.0.0", &None, &[0]),
        Err("Incompatible version: v1.0.0".to_string())
    );
}

#[test]
fn assets_targets_and_binaries() {
    assert_eq!(release_target(Os::Linux, Architecture::X8664), Some("x86_64-unknown-linux-gnu"));
    assert_eq!(release_target(Os::Windows, Architecture::Aarch64), Some("aarch64-pc-windows-msvc.exe"));
    assert_eq!(release_target(Os::Mac, Architecture::X86), None);
    let name = asset_name("v0.2.0", "aarch64-apple-darwin");
    assert_eq!(name, "path-server_v0.2.0_aarch64-apple-darwin");
    assert!(is_stale_binary("path-server_v0.1.0_aarch64-apple-darwin", &name));
    assert!(!is_stale_binary(&name, &name));
    assert!(!is_stale_binary("notes.txt", &name));
    let names = vec!["a".to_string(), name.clone(), "path-server_v0.2.0_x".to_string()];
    assert_eq!(find_binary(&names, "v0.2.0"), Some(1));
    assert_eq!(find_binary(&names, "v9"), None);
}

#[test]
fn version_to_run_prefers_the_update() {
    assert_eq!(version_to_run(Some("v1".into()), Ok(Some("v2".into()))), Ok("v2".to_string()));
    assert_eq!(version_to_run(Some("v1".into()), Ok(None)), Ok("v1".to_string()));
    assert_eq!(
        version_to_run(None, Ok(None)),
        Err("No cached executable found and no update available".to_string())
    );
    assert_eq!(version_to_run(Some("v1".into()), Err("net".into())), Ok("v1".to_string()));
    assert_eq!(
        version_to_run(None, Err("net".into())),
        Err("No cached executable found and update failed: net".to_string())
    );
}
