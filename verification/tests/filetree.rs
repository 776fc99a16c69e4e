use spm::config::{ContentConfig, ContentDefaults, DirectoryMapping, SymlinkMapping};
use spm::filetree::{
    add_implicit_directories, glob_base_path, is_system_directory, parse_mode,
    validate_install_path, EntryType, FileEntry, FileTree, FileTreeError,
};

fn file(path: &str) -> FileEntry {
    FileEntry {
        install_path: path.to_string(),
        source_path: format!("/src{path}"),
        entry_type: EntryType::RegularFile,
        size: 1,
        mode: 0o644,
        user: "root".to_string(),
        group: "root".to_string(),
        is_config: false,
    }
}

fn content() -> ContentConfig {
    ContentConfig {
        defaults: ContentDefaults::default(),
        files: vec![],
        symlinks: vec![],
        directories: vec![],
        alternatives: vec![],
    }
}

fn reason_of(e: FileTreeError) -> String {
    match e {
        FileTreeError::InvalidMapping { reason, .. } => reason,
        other => panic!("unexpected error: {other:?}"),
    }
}

#[test]
fn test_glob_base_path() {
    assert_eq!(glob_base_path("/opt/staging/R2025a/**"), "/opt/staging/R2025a");
    assert_eq!(glob_base_path("src/*.rs"), "src");
    assert_eq!(glob_base_path("**/*.rs"), ".");
    assert_eq!(glob_base_path("/opt/*/foo/**"), "/opt");
}

#[test]
fn test_glob_base_path_more() {
    assert_eq!(glob_base_path("./a/b?"), "./a");
    assert_eq!(glob_base_path("/a//b/[xy]"), "/a/b");
    assert_eq!(glob_base_path("/plain/file"), "/plain/file");
    assert_eq!(glob_base_path("/*"), "/");
}

#[test]
fn test_parse_mode() {
    assert_eq!(parse_mode("0755").unwrap(), 0o755);
    assert_eq!(parse_mode("0644").unwrap(), 0o644);
    assert_eq!(parse_mode("755").unwrap(), 0o755);
    assert_eq!(parse_mode("0750").unwrap(), 0o750);
    assert_eq!(parse_mode("0000").unwrap(), 0);
    assert_eq!(parse_mode("0").unwrap(), 0);
    assert_eq!(parse_mode("00644").unwrap(), 0o644);
}

#[test]
fn test_parse_mode_invalid() {
    assert_eq!(
        reason_of(parse_mode("0789").unwrap_err()),
        "invalid mode '0789': expected octal like '0755'"
    );
    assert!(parse_mode("rwx").is_err());
    assert!(parse_mode("").is_ok());
    assert_eq!(parse_mode("+17").unwrap(), 0o17);
    assert!(parse_mode("77777777777").is_err());
    assert_eq!(parse_mode("37777777777").unwrap(), u32::MAX);
}

#[test]
fn test_validate_install_path() {
    assert!(validate_install_path("/opt/app", "file mapping dst").is_ok());
    assert_eq!(
        reason_of(validate_install_path("opt/app", "file mapping dst").unwrap_err()),
        "file mapping dst must be an absolute path (starting with '/')"
    );
    assert_eq!(
        reason_of(validate_install_path("/opt/../etc", "symlink dst").unwrap_err()),
        "symlink dst must not contain '..' components"
    );
    assert!(validate_install_path("/opt/..x/y", "d").is_ok());
}

#[test]
fn test_is_system_directory() {
    assert!(is_system_directory("/usr"));
    assert!(is_system_directory("/usr/bin/"));
    assert!(is_system_directory("/opt"));
    assert!(!is_system_directory("/opt/app"));
    assert!(!is_system_directory("/"));
}

#[test]
fn test_implicit_directories() {
    let mut entries = vec![file("/opt/app/bin/tool"), file("/usr/bin/spm"), file("/opt/app/lib/x")];
    add_implicit_directories(&mut entries, &ContentDefaults::default());
    let added: Vec<&str> = entries[3..].iter().map(|e| e.install_path.as_str()).collect();
    assert_eq!(added, vec!["/opt/app/bin", "/opt/app", "/opt/app/lib"]);
    for e in &entries[3..] {
        assert!(matches!(e.entry_type, EntryType::Directory));
        assert_eq!(e.mode, 0o755);
        assert_eq!(e.user, "root");
    }
}

#[test]
fn test_assemble_dedup_sort_and_parents() {
    let mut c = content();
    c.symlinks = vec![SymlinkMapping {
        src: "tool".to_string(),
        dst: "/opt/app/bin/link".to_string(),
    }];
    c.directories = vec![DirectoryMapping {
        path: "/var/lib/app".to_string(),
        mode: Some("0700".to_string()),
        user: Some("app".to_string()),
        group: None,
    }];
    let mut second = file("/opt/app/bin/tool");
    second.size = 99;
    let mapped = vec![file("/opt/app/bin/tool"), file("/opt/app/a"), second];
    let entries = FileTree::assemble(&mapped, &c).unwrap();
    let paths: Vec<&str> = entries.iter().map(|e| e.install_path.as_str()).collect();
    assert_eq!(
        paths,
        vec![
            "/opt/app",
            "/opt/app/a",
            "/opt/app/bin",
            "/opt/app/bin/link",
            "/opt/app/bin/tool",
            "/var/lib/app",
        ]
    );
    let tool = entries.iter().find(|e| e.install_path == "/opt/app/bin/tool").unwrap();
    assert_eq!(tool.size, 1, "first mapping wins");
    let dir = entries.iter().find(|e| e.install_path == "/var/lib/app").unwrap();
    assert_eq!(dir.mode, 0o700);
    assert_eq!(dir.user, "app");
    let link = entries.iter().find(|e| e.install_path == "/opt/app/bin/link").unwrap();
    assert_eq!(link.mode, 0o120777);
    for w in entries.windows(2) {
        assert!(w[0].install_path < w[1].install_path);
    }
}

#[test]
fn test_assemble_rejects_empty_symlink_target() {
    let mut c = content();
    c.symlinks = vec![SymlinkMapping {
        src: String::new(),
        dst: "/opt/x".to_string(),
    }];
    assert_eq!(
        reason_of(FileTree::assemble(&vec![], &c).unwrap_err()),
        "symlink target must not be empty"
    );
}

#[test]
fn test_assemble_rejects_relative_directory() {
    let mut c = content();
    c.directories = vec![DirectoryMapping {
        path: "var/x".to_string(),
        mode: None,
        user: None,
        group: None,
    }];
    assert_eq!(
        reason_of(FileTree::assemble(&vec![], &c).unwrap_err()),
        "directory path must be an absolute path (starting with '/')"
    );
}
