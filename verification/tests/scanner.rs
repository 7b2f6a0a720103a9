use lib::error::RustScopeError;
use lib::scanner::{is_rust_file, scan_rust_files, should_ignore_dir, RootKind};

#[test]
fn scans_rs_files_and_ignores_target_and_git() -> Result<(), RustScopeError> {
    let root = "scanner";
    let entries = ["src/main.rs", "src/lib.txt", "target/debug/generated.rs", ".git/hooks/hook.rs"];
    let mut found = Vec::new();
    for entry in entries {
        let dir = &entry[..entry.rfind('/').unwrap_or(0)];
        let skipped = dir.split('/').any(should_ignore_dir);
        if !skipped && is_rust_file(entry) {
            found.push(format!("{root}/{entry}"));
        }
    }
    let files = scan_rust_files(root, RootKind::Directory, found)?;

    assert_eq!(files.len(), 1);
    assert_eq!(files[0], "scanner/src/main.rs");
    Ok(())
}

#[test]
fn rejects_invalid_project_path() {
    let path = "/tmp/rustscope_missing_project_path";
    assert!(matches!(
        scan_rust_files(path, RootKind::Missing, Vec::new()),
        Err(RustScopeError::InvalidPath(_))
    ));
}

#[test]
fn invalid_project_path_messages() {
    assert_eq!(
        scan_rust_files("nowhere", RootKind::Missing, vec!["x.rs".to_string()]),
        Err(RustScopeError::InvalidPath("Project path does not exist: nowhere".to_string()))
    );
    assert_eq!(
        scan_rust_files("Cargo.toml", RootKind::NotDirectory, Vec::new()),
        Err(RustScopeError::InvalidPath("Project path is not a directory: Cargo.toml".to_string()))
    );
}

#[test]
fn found_files_come_out_in_path_order() -> Result<(), RustScopeError> {
    let found = vec![
        "p/src/main.rs".to_string(),
        "p/src/a.rs".to_string(),
        "p/src/a/b.rs".to_string(),
        "p/build.rs".to_string(),
    ];
    let files = scan_rust_files("p", RootKind::Directory, found)?;
    assert_eq!(files, vec!["p/build.rs", "p/src/a/b.rs", "p/src/a.rs", "p/src/main.rs"]);
    Ok(())
}

#[test]
fn recognizes_rust_files_and_ignored_directories() {
    assert!(is_rust_file("src/main.rs"));
    assert!(is_rust_file("lib.rs"));
    assert!(!is_rust_file("src/lib.txt"));
    assert!(!is_rust_file(".rs"));
    assert!(!is_rust_file("src/rs"));
    assert!(!is_rust_file("main.rs.bak"));
    assert!(should_ignore_dir("target"));
    assert!(should_ignore_dir("project/.git"));
    assert!(should_ignore_dir("project/target/"));
    assert!(!should_ignore_dir("targets"));
    assert!(!should_ignore_dir("src"));
}
