use spm::config::{ContentDefaults, FileMapping};
use spm::filetree::{EntryType, FileTreeError};
use spm::mapping::{
    check_mapping_dst, dir_mapping, is_glob_pattern, mapping_entries, single_source_base_exec, SourceFile,
    SourceKind,
};

fn mapping(src: &str, dst: &str) -> FileMapping {
    FileMapping {
        src: src.into(),
        dst: dst.into(),
        mode: None,
        dir_mode: None,
        user: None,
        group: None,
        file_type: None,
    }
}

fn file(path: &str, mode: u32, size: u64) -> SourceFile {
    SourceFile { path: path.into(), kind: SourceKind::File, mode, size, dev: 1, ino: 0, nlink: 1 }
}

fn dir(path: &str, mode: u32) -> SourceFile {
    SourceFile { path: path.into(), kind: SourceKind::Directory, mode, size: 4096, dev: 1, ino: 0, nlink: 2 }
}

#[test]
fn test_is_glob_pattern() {
    assert!(is_glob_pattern("/opt/x/**"));
    assert!(is_glob_pattern("/opt/x/file?.txt"));
    assert!(is_glob_pattern("/opt/x/[ab].txt"));
    assert!(!is_glob_pattern("/opt/x/file.txt"));
}

#[test]
fn test_check_mapping_dst() {
    assert!(check_mapping_dst("/opt/app/").is_ok());
    assert!(check_mapping_dst("/opt/app").is_ok());
    match check_mapping_dst("opt/app/") {
        Err(FileTreeError::InvalidMapping { src, dst, reason }) => {
            assert_eq!(src, "");
            assert_eq!(dst, "opt/app");
            assert_eq!(reason, "file mapping dst must be an absolute path (starting with '/')");
        }
        other => panic!("unexpected {other:?}"),
    }
    match check_mapping_dst("/opt/../etc/") {
        Err(FileTreeError::InvalidMapping { reason, .. }) => {
            assert_eq!(reason, "file mapping dst must not contain '..' components");
        }
        other => panic!("unexpected {other:?}"),
    }
}

#[test]
fn test_dir_mapping_adds_glob_and_slash() {
    assert_eq!(
        dir_mapping("/stage/app/", "/opt/testpkg"),
        ("/stage/app/**".to_string(), "/opt/testpkg/".to_string())
    );
    assert_eq!(dir_mapping("/stage/app", "/opt/testpkg/"), ("/stage/app/**".to_string(), "/opt/testpkg/".to_string()));
}

#[test]
fn test_single_source_base() {
    assert_eq!(single_source_base_exec("/stage/license.txt", "/work"), "/stage");
    assert_eq!(single_source_base_exec("license.txt", "/work"), "/work");
}

#[test]
fn test_mapping_src_dst_path_stripping() {
    let m = mapping("/stage/**", "/opt/app/");
    let sources = vec![dir("/stage/bin", 0o40755), file("/stage/bin/tool", 0o100755, 6)];
    let mut inodes = Vec::new();
    let entries = mapping_entries(&m, &ContentDefaults::default(), "/opt/app/", true, "/stage", 2, &sources, &mut inodes)
        .unwrap();
    assert_eq!(entries.len(), 2);
    assert_eq!(entries[0].install_path, "/opt/app/bin");
    assert!(matches!(entries[0].entry_type, EntryType::Directory));
    assert_eq!(entries[0].mode, 0o755);
    assert_eq!(entries[1].install_path, "/opt/app/bin/tool");
    assert_eq!(entries[1].mode, 0o755);
    assert_eq!(entries[1].size, 6);
    assert_eq!(entries[1].user, "root");
    assert_eq!(entries[1].source_path, "/stage/bin/tool");
}

#[test]
fn test_mapping_literal_file() {
    let m = mapping("/stage/license.txt", "/opt/app/LICENSE");
    let sources = vec![file("/stage/license.txt", 0o100644, 11)];
    let mut inodes = Vec::new();
    let entries =
        mapping_entries(&m, &ContentDefaults::default(), "/opt/app/LICENSE", false, "/stage", 1, &sources, &mut inodes)
            .unwrap();
    assert_eq!(entries[0].install_path, "/opt/app/LICENSE");
}

#[test]
fn test_mapping_mode_override_and_config_flag() {
    let mut m = mapping("/stage/app.conf", "/etc/app.conf");
    m.mode = Some("0600".into());
    m.file_type = Some("config".into());
    m.user = Some("appuser".into());
    m.group = Some("appgroup".into());
    let sources = vec![file("/stage/app.conf", 0o100644, 13)];
    let mut inodes = Vec::new();
    let entries =
        mapping_entries(&m, &ContentDefaults::default(), "/etc/app.conf", false, "/stage", 1, &sources, &mut inodes)
            .unwrap();
    assert_eq!(entries[0].mode, 0o600);
    assert!(entries[0].is_config);
    assert_eq!(entries[0].user, "appuser");
    assert_eq!(entries[0].group, "appgroup");
}

#[test]
fn test_mapping_dir_mode_vs_file_mode() {
    let mut m = mapping("/stage/**", "/opt/app/");
    m.mode = Some("0644".into());
    m.dir_mode = Some("0755".into());
    let sources = vec![dir("/stage/subdir", 0o40700), file("/stage/subdir/file.txt", 0o100600, 4)];
    let mut inodes = Vec::new();
    let entries =
        mapping_entries(&m, &ContentDefaults::default(), "/opt/app/", true, "/stage", 2, &sources, &mut inodes).unwrap();
    assert_eq!(entries[0].mode, 0o755);
    assert_eq!(entries[1].mode, 0o644);
}

#[test]
fn test_mapping_defaults_apply() {
    let m = mapping("/stage/**", "/opt/app/");
    let defaults = ContentDefaults {
        user: "root".into(),
        group: "appgroup".into(),
        file_mode: Some("0640".into()),
        dir_mode: Some("0750".into()),
    };
    let sources = vec![dir("/stage/d", 0o40777), file("/stage/d/f", 0o100777, 1)];
    let mut inodes = Vec::new();
    let entries = mapping_entries(&m, &defaults, "/opt/app/", true, "/stage", 2, &sources, &mut inodes).unwrap();
    assert_eq!(entries[0].mode, 0o750);
    assert_eq!(entries[1].mode, 0o640);
    assert_eq!(entries[1].group, "appgroup");
}

#[test]
fn test_mapping_hardlink_detection() {
    let m = mapping("/stage/*", "/opt/pkg/");
    let a = SourceFile { path: "/stage/file_a".into(), kind: SourceKind::File, mode: 0o100644, size: 14, dev: 7, ino: 42, nlink: 2 };
    let b = SourceFile { path: "/stage/file_b".into(), kind: SourceKind::File, mode: 0o100644, size: 14, dev: 7, ino: 42, nlink: 2 };
    let sources = vec![a, b];
    let mut inodes = Vec::new();
    let entries =
        mapping_entries(&m, &ContentDefaults::default(), "/opt/pkg/", true, "/stage", 2, &sources, &mut inodes).unwrap();
    assert!(matches!(entries[0].entry_type, EntryType::RegularFile));
    assert_eq!(entries[0].size, 14);
    match &entries[1].entry_type {
        EntryType::Hardlink { target } => assert_eq!(target, "/opt/pkg/file_a"),
        other => panic!("expected hard link, got {other:?}"),
    }
    assert_eq!(entries[1].size, 0);
    assert_eq!(inodes, vec![(7, 42, "/opt/pkg/file_a".to_string())]);
}

#[test]
fn test_mapping_symlink_source() {
    let m = mapping("/stage/*", "/opt/pkg/");
    let s = SourceFile {
        path: "/stage/link".into(),
        kind: SourceKind::Symlink { target: "real".into() },
        mode: 0o120777,
        size: 4,
        dev: 1,
        ino: 3,
        nlink: 1,
    };
    let mut inodes = Vec::new();
    let entries =
        mapping_entries(&m, &ContentDefaults::default(), "/opt/pkg/", true, "/stage", 1, &vec![s], &mut inodes).unwrap();
    match &entries[0].entry_type {
        EntryType::Symlink { target } => assert_eq!(target, "real"),
        other => panic!("expected symlink, got {other:?}"),
    }
    assert_eq!(entries[0].mode, 0o120777);
    assert_eq!(entries[0].size, 0);
}

#[test]
fn test_mapping_no_matches() {
    let m = mapping("/stage/*.none", "/opt/pkg/");
    let mut inodes = Vec::new();
    match mapping_entries(&m, &ContentDefaults::default(), "/opt/pkg/", true, "/stage", 0, &vec![], &mut inodes) {
        Err(FileTreeError::NoMatches { pattern }) => assert_eq!(pattern, "/stage/*.none"),
        other => panic!("unexpected {other:?}"),
    }
}

#[test]
fn test_mapping_multiple_matches_need_dir_dst() {
    let m = mapping("/stage/*", "/opt/pkg/file");
    let sources = vec![file("/stage/a", 0o100644, 1), file("/stage/b", 0o100644, 1)];
    let mut inodes = Vec::new();
    match mapping_entries(&m, &ContentDefaults::default(), "/opt/pkg/file", true, "/stage", 2, &sources, &mut inodes) {
        Err(FileTreeError::InvalidMapping { reason, .. }) => {
            assert_eq!(reason, "glob matches multiple files but dst does not end with '/'")
        }
        other => panic!("unexpected {other:?}"),
    }
}

#[test]
fn test_mapping_bad_mode() {
    let mut m = mapping("/stage/a", "/opt/a");
    m.mode = Some("0999".into());
    let mut inodes = Vec::new();
    match mapping_entries(&m, &ContentDefaults::default(), "/opt/a", false, "/stage", 1, &vec![file("/stage/a", 0o644, 1)], &mut inodes) {
        Err(FileTreeError::InvalidMapping { reason, .. }) => {
            assert_eq!(reason, "invalid mode '0999': expected octal like '0755'")
        }
        other => panic!("unexpected {other:?}"),
    }
}

#[test]
fn test_mapping_special_file_refused() {
    let m = mapping("/stage/*", "/opt/pkg/");
    let s = SourceFile { path: "/stage/fifo".into(), kind: SourceKind::Special, mode: 0o10644, size: 0, dev: 1, ino: 9, nlink: 1 };
    let mut inodes = Vec::new();
    match mapping_entries(&m, &ContentDefaults::default(), "/opt/pkg/", true, "/stage", 1, &vec![s], &mut inodes) {
        Err(FileTreeError::InvalidMapping { src, dst, reason }) => {
            assert_eq!(src, "/stage/fifo");
            assert_eq!(dst, "/opt/pkg/fifo");
            assert_eq!(reason, "special files (devices, FIFOs, sockets) are not supported");
        }
        other => panic!("unexpected {other:?}"),
    }
}
