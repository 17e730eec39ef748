use syscallcage::policy::discovery::{discover_policy, validate_discovered_policy, DirLevel, DiscoveryError, PolicyFileFacts};

fn facts(is_file: bool, mode: u32, uid: u32, euid: u32, sudo: Option<&str>) -> PolicyFileFacts {
    PolicyFileFacts { is_file, mode, uid, euid, sudo_uid_text: sudo.map(|s| s.to_string()) }
}

#[test]
fn test_validate_discovered_policy_world_writable() {
    let result = validate_discovered_policy("/tmp/x/.syscallcage.yaml", &facts(true, 0o100666, 1000, 1000, None));
    assert!(matches!(result, Err(DiscoveryError::InsecurePolicy { .. })));
    if let Err(DiscoveryError::InsecurePolicy { reason, .. }) = result {
        assert!(reason.contains("o+w"));
    }
}

#[test]
fn test_discover_policy_boundary() {
    // From `project/src/module` upwards: module, src, project (holds .git), then the
    // directory above it, which holds a policy.
    let levels = vec![
        DirLevel { has_policy: false, has_git: false },
        DirLevel { has_policy: false, has_git: false },
        DirLevel { has_policy: false, has_git: true },
        DirLevel { has_policy: true, has_git: false },
    ];
    assert!(discover_policy(&levels).is_none());

    let mut with_inner = levels.clone();
    with_inner[2].has_policy = true;
    let found = discover_policy(&with_inner);
    assert!(found.is_some());
    assert_eq!(found.unwrap(), 2);
}

#[test]
fn discovery_takes_the_nearest_policy() {
    let levels = vec![
        DirLevel { has_policy: false, has_git: false },
        DirLevel { has_policy: true, has_git: false },
        DirLevel { has_policy: true, has_git: true },
    ];
    assert_eq!(discover_policy(&levels), Some(1));
    assert_eq!(discover_policy(&[]), None);
}

#[test]
fn without_git_only_the_start_directory_is_searched() {
    let above = vec![
        DirLevel { has_policy: false, has_git: false },
        DirLevel { has_policy: true, has_git: false },
    ];
    assert_eq!(discover_policy(&above), None);
    let here = vec![
        DirLevel { has_policy: true, has_git: false },
        DirLevel { has_policy: true, has_git: false },
    ];
    assert_eq!(discover_policy(&here), Some(0));
}

#[test]
fn validation_reasons() {
    let ok = validate_discovered_policy("/p", &facts(true, 0o600, 1000, 1000, None));
    assert!(ok.is_ok());
    let root_owned = validate_discovered_policy("/p", &facts(true, 0o644, 0, 1000, None));
    assert!(root_owned.is_ok());
    let via_sudo = validate_discovered_policy("/p", &facts(true, 0o644, 1000, 0, Some("1000")));
    assert!(via_sudo.is_ok());
    match validate_discovered_policy("/p", &facts(false, 0o600, 1000, 1000, None)) {
        Err(DiscoveryError::InsecurePolicy { path, reason }) => {
            assert_eq!(path, "/p");
            assert_eq!(reason, "não é um arquivo regular (pode ser um symlink malicioso)");
        }
        _ => panic!("expected InsecurePolicy"),
    }
    match validate_discovered_policy("/p", &facts(true, 0o600, 1001, 1000, Some("x"))) {
        Err(DiscoveryError::InsecurePolicy { reason, .. }) => {
            assert_eq!(
                reason,
                "dono do arquivo (uid: 1001) não é root nem o usuário atual (uid: 1000, sudo_uid: None)"
            );
        }
        _ => panic!("expected InsecurePolicy"),
    }
    match validate_discovered_policy("/p", &facts(true, 0o600, 1001, 0, Some("1002"))) {
        Err(DiscoveryError::InsecurePolicy { reason, .. }) => {
            assert!(reason.ends_with("(uid: 0, sudo_uid: Some(1002))"));
        }
        _ => panic!("expected InsecurePolicy"),
    }
}
