use syscallcage::policy_generator::{
    draft_policy, generalize_paths, is_blank_line, is_sensitive_path, log_file_label, policy_header, LogLine,
};

fn line(event_type: &str, target: &str) -> LogLine {
    LogLine { event_type: Some(event_type.to_string()), target: Some(target.to_string()), action: None }
}

#[test]
fn test_generalize_paths_same_dir() {
    let paths = vec![
        "/home/user/proj/a.rs".to_string(),
        "/home/user/proj/b.rs".to_string(),
        "/home/user/proj/sub/c.rs".to_string(),
    ];
    let result = generalize_paths(&paths);
    assert_eq!(result, vec!["/home/user/proj/**".to_string()]);
}

#[test]
fn test_generalize_paths_different_dirs() {
    let paths = vec!["/home/a/x".to_string(), "/tmp/b/y".to_string()];
    let result = generalize_paths(&paths);
    assert_eq!(result, vec!["/home/a/**".to_string(), "/tmp/b/**".to_string()]);
}

#[test]
fn test_is_sensitive_path() {
    assert!(is_sensitive_path("/path/to/.env"));
    assert!(is_sensitive_path("/home/user/.ssh/id_rsa"));
    assert!(is_sensitive_path("/home/user/my_key.pem"));
    assert!(!is_sensitive_path("/home/user/projects/main.rs"));
}

#[test]
fn sensitive_check_ignores_case() {
    assert!(is_sensitive_path("/HOME/USER/.ENV"));
    assert!(is_sensitive_path("/keys/SERVER.PEM"));
    assert!(!is_sensitive_path("/keys/server.pem.txt"));
}

#[test]
fn generalize_edge_cases() {
    assert!(generalize_paths(&[]).is_empty());
    // Alone in its cluster: the parent's tree.
    assert_eq!(generalize_paths(&["/etc/hosts".to_string()]), vec!["/etc/**".to_string()]);
    // A file directly under the root.
    assert_eq!(generalize_paths(&["/vmlinuz".to_string()]), vec!["/**".to_string()]);
    // The same path written twice counts once.
    assert_eq!(
        generalize_paths(&["/srv/app/a".to_string(), "/srv/app/a".to_string()]),
        vec!["/srv/app/**".to_string()]
    );
    // A cluster whose common ancestor is one of the paths: its parent's tree.
    assert_eq!(
        generalize_paths(&["/a/b/c".to_string(), "/a/b/c/d".to_string()]),
        vec!["/a/b/**".to_string()]
    );
    // Paths of different depth fall in different clusters.
    assert_eq!(
        generalize_paths(&["/a/b".to_string(), "/a/b/c/d".to_string()]),
        vec!["/a/**".to_string(), "/a/b/c/**".to_string()]
    );
    // The ancestor's parent is the root: the glob is written after it.
    assert_eq!(generalize_paths(&["/a".to_string(), "/a/b".to_string()]), vec!["/**".to_string()]);
    // Relative paths with nothing in common: one tree per parent.
    assert_eq!(
        generalize_paths(&["x/y".to_string(), "z/w".to_string()]),
        vec!["x/**".to_string(), "z/**".to_string()]
    );
}

#[test]
fn generalize_output_is_sorted_without_repeats() {
    let paths = vec![
        "/var/log/syslog".to_string(),
        "/etc/ssl/certs/a".to_string(),
        "/etc/ssl/certs/b".to_string(),
        "/usr/lib/x".to_string(),
    ];
    let r = generalize_paths(&paths);
    assert_eq!(r, vec!["/etc/ssl/certs/**".to_string(), "/usr/lib/**".to_string(), "/var/log/**".to_string()]);
}

#[test]
fn draft_policy_skips_sensitive_paths() {
    let lines = vec![
        line("read", "/home/user/proj/a.rs"),
        line("read", "/home/user/proj/.env"),
        line("write", "/home/user/proj/output.log"),
        line("Network", "api.example.com"),
        line("network", "api.example.com"),
        line("syscall", "execve:/bin/sh"),
        line("syscall", "openat"),
        LogLine { event_type: None, target: Some("/x".to_string()), action: None },
    ];
    let g = draft_policy(&lines);
    assert_eq!(g.mode, "enforce");
    assert_eq!(g.filesystem.allow_read, vec!["/home/user/proj/**".to_string()]);
    assert_eq!(g.filesystem.allow_write, vec!["/home/user/proj/**".to_string()]);
    assert!(!g.filesystem.allow_read.iter().any(|p| p.contains(".env")));
    assert_eq!(g.filesystem.deny_always, vec!["**/.env", "**/.ssh/**", "**/id_rsa*", "**/*.pem"]);
    assert_eq!(g.network.allow_domains, vec!["api.example.com".to_string()]);
    assert!(g.network.deny_all_else);
    assert_eq!(g.syscalls.deny, vec!["execve:/bin/bash", "execve:/bin/sh", "ptrace"]);
}

#[test]
fn draft_policy_adds_risky_syscalls_only() {
    let lines = vec![line("syscall", "ptrace:PTRACE_ATTACH"), line("syscall", "execve:/usr/bin/ls")];
    let g = draft_policy(&lines);
    assert_eq!(g.syscalls.deny, vec!["execve:/bin/bash", "execve:/bin/sh", "ptrace", "ptrace:PTRACE_ATTACH"]);
}

#[test]
fn header_and_labels() {
    let h = policy_header("sessao.jsonl", 3, "2026-07-06T04:44:15Z");
    assert!(h.starts_with("# Política gerada automaticamente por `syscallcage generate-policy`\n"));
    assert!(h.contains("# a partir de: sessao.jsonl (3 eventos analisados)\n"));
    assert!(h.contains("# Gerado em: 2026-07-06T04:44:15Z\n"));
    assert!(h.ends_with("# em modo enforce.\n\n"));
    assert_eq!(log_file_label("/tmp/logs/run.jsonl"), "run.jsonl");
    assert_eq!(log_file_label("/"), "sessao.jsonl");
    assert_eq!(log_file_label("logs/.."), "sessao.jsonl");
    assert!(is_blank_line("   \t"));
    assert!(!is_blank_line(" {} "));
}

#[test]
fn generalized_globs_cover_observed_paths() {
    let paths: Vec<String> = [
        "/home/user/proj/a.rs",
        "/home/user/proj/src/b.rs",
        "/home/user/notes.txt",
        "/etc/hosts",
        "/usr/lib/x86_64/libc.so",
        "/usr/lib/x86_64/libm.so",
        "/var/log/app/today.log",
    ]
    .iter()
    .map(|s| s.to_string())
    .collect();
    let globs = generalize_paths(&paths);
    for p in &paths {
        assert!(
            globs.iter().any(|g| g.ends_with("/**") && p.starts_with(&g[..g.len() - 2])),
            "{} is not covered by {:?}",
            p,
            globs
        );
    }
}

#[test]
fn generalized_globs_ignore_order_and_repeats() {
    let s = |v: &[&str]| v.iter().map(|x| x.to_string()).collect::<Vec<String>>();
    let a = generalize_paths(&s(&["/home/u/p/a.rs", "/etc/hosts", "/home/u/p/src/b.rs", "/etc"]));
    let b = generalize_paths(&s(&["/etc", "/home/u/p/src/b.rs", "/etc/hosts", "/etc", "/home/u/p/a.rs"]));
    assert_eq!(a, b);
    assert!(a.contains(&"/**".to_string()));
}

#[test]
fn every_glob_covers_an_observed_path() {
    let paths = vec!["/home/u/p/a.rs".to_string(), "/etc/hosts".to_string(), "/var/log/x/y.log".to_string()];
    let globs = generalize_paths(&paths);
    assert!(!globs.is_empty());
    for g in &globs {
        assert!(g.ends_with("/**"));
        let dir = &g[..g.len() - 2];
        assert!(paths.iter().any(|p| p.starts_with(dir)));
    }
    assert!(generalize_paths(&[]).is_empty());
}

#[test]
fn first_written_text_of_a_path_is_kept() {
    let a = generalize_paths(&["//a/b".to_string(), "/a/b".to_string()]);
    let b = generalize_paths(&["/a/b".to_string(), "//a/b".to_string()]);
    assert_eq!(a, vec!["//a/**".to_string()]);
    assert_eq!(b, vec!["/a/**".to_string()]);
}
