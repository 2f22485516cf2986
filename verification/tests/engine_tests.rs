use imp::config::Symlink;
use imp::engine::{
    backup_path_for, parent_of, ApplyObservation, ConflictAction, EngineError, LinkState,
    RemovalAction, RemovalObservation, SymlinkManager, TargetObservation, VerifyObservation,
};
use imp::mounts::{is_mount_point_in, mount_pair_in};
use imp::store::GenerationSymlink;

fn file_binding(source: &str, target: &str, backup: bool) -> Symlink {
    Symlink {
        source: String::from(source),
        target: String::from(target),
        is_directory: false,
        create_parents: false,
        backup,
        user: None,
        group: None,
        mode: None,
    }
}

fn dir_binding(source: &str, target: &str) -> Symlink {
    Symlink {
        source: String::from(source),
        target: String::from(target),
        is_directory: true,
        create_parents: true,
        backup: false,
        user: None,
        group: None,
        mode: None,
    }
}

fn vacant() -> TargetObservation {
    TargetObservation { exists: false, is_symlink: false, is_dir: false, is_mount_point: false }
}

fn plain_file() -> TargetObservation {
    TargetObservation { exists: true, is_symlink: false, is_dir: false, is_mount_point: false }
}

#[test]
fn parse_mode_accepts_octal_strings() {
    let e = SymlinkManager::new();
    assert_eq!(e.parse_mode("0755").unwrap(), 0o755);
    assert_eq!(e.parse_mode("0o755").unwrap(), 0o755);
    assert_eq!(e.parse_mode("777").unwrap(), 0o777);
    assert_eq!(e.parse_mode("0o0644").unwrap(), 0o644);
}

#[test]
fn parse_mode_rejects_bad_strings() {
    let e = SymlinkManager::new();
    let err = e.parse_mode("rwx").unwrap_err();
    assert_eq!(err.message(), "Invalid mode string: rwx");
    assert!(e.parse_mode("").is_err());
    assert!(e.parse_mode("0").is_err());
    assert!(e.parse_mode("79").is_err());
    assert!(e.parse_mode("77777777777777").is_err());
}

#[test]
fn backup_path_replaces_the_extension() {
    assert_eq!(backup_path_for("/a/b.txt", "X"), "/a/b.backup.X");
    assert_eq!(
        backup_path_for("/tmp/test-repo/.testfile", "20240101_120000"),
        "/tmp/test-repo/.testfile.backup.20240101_120000"
    );
    assert_eq!(backup_path_for("/a/b", "S"), "/a/b.backup.S");
}

#[test]
fn parent_of_strips_the_file_name() {
    assert_eq!(parent_of("/a/b/c").as_deref(), Some("/a/b"));
    assert_eq!(parent_of("/a").as_deref(), Some("/"));
    assert_eq!(parent_of("plain").as_deref(), None);
}

#[test]
fn conflict_backs_up_or_removes_an_existing_file() {
    let e = SymlinkManager::new();
    assert_eq!(e.plan_conflict(true, &plain_file()), ConflictAction::BackupRename);
    assert_eq!(e.plan_conflict(false, &plain_file()), ConflictAction::RemoveFile);
    assert_eq!(e.plan_conflict(true, &vacant()), ConflictAction::KeepNone);
    let dangling = TargetObservation {
        exists: false,
        is_symlink: true,
        is_dir: false,
        is_mount_point: false,
    };
    assert_eq!(e.plan_conflict(false, &dangling), ConflictAction::RemoveSymlink);
    assert_eq!(e.plan_conflict(true, &dangling), ConflictAction::BackupRelink);
    let mounted_dir = TargetObservation {
        exists: true,
        is_symlink: false,
        is_dir: true,
        is_mount_point: true,
    };
    assert_eq!(e.plan_conflict(false, &mounted_dir), ConflictAction::UnmountAndRemoveDir);
}

#[test]
fn plan_binding_with_backup_records_the_backup_path() {
    let e = SymlinkManager::new();
    let b = file_binding("/persist/f", "/home/f.txt", true);
    let obs = ApplyObservation {
        canonical_source: Some(String::from("/persist/f")),
        target: plain_file(),
        has_mount_capability: false,
        in_container: false,
    };
    let pb = e.plan_binding(&b, &obs, "STAMP").unwrap();
    assert_eq!(pb.plan.conflict, ConflictAction::BackupRename);
    assert_eq!(pb.plan.backup_dest.as_deref(), Some("/home/f.backup.STAMP"));
    assert!(!pb.plan.mount);
    assert!(!pb.plan.require_empty);
    assert_eq!(pb.realized.source, "/persist/f");
    assert_eq!(pb.realized.target, "/home/f.txt");
    assert_eq!(pb.realized.backup_path.as_deref(), Some("/home/f.backup.STAMP"));
}

#[test]
fn plan_binding_without_backup_records_no_backup_path() {
    let e = SymlinkManager::new();
    let b = file_binding("/persist/f", "/home/f.txt", false);
    let obs = ApplyObservation {
        canonical_source: Some(String::from("/persist/f")),
        target: plain_file(),
        has_mount_capability: false,
        in_container: false,
    };
    let pb = e.plan_binding(&b, &obs, "STAMP").unwrap();
    assert_eq!(pb.plan.conflict, ConflictAction::RemoveFile);
    assert_eq!(pb.plan.backup_dest, None);
    assert_eq!(pb.realized.backup_path, None);
}

#[test]
fn plan_binding_fails_on_unresolved_source() {
    let e = SymlinkManager::new();
    let b = file_binding("/persist/missing", "/t", false);
    let obs = ApplyObservation {
        canonical_source: None,
        target: vacant(),
        has_mount_capability: true,
        in_container: false,
    };
    let err = e.plan_binding(&b, &obs, "S").unwrap_err();
    assert_eq!(err.message(), "Failed to resolve source path: /persist/missing");
}

#[test]
fn plan_binding_fails_without_mount_capability() {
    let e = SymlinkManager::new();
    let b = dir_binding("/persist/d", "/d");
    let obs = ApplyObservation {
        canonical_source: Some(String::from("/persist/d")),
        target: vacant(),
        has_mount_capability: false,
        in_container: true,
    };
    let err = e.plan_binding(&b, &obs, "S").unwrap_err();
    match &err {
        EngineError::MissingMountCapability { source, target, in_container } => {
            assert_eq!(source, "/persist/d");
            assert_eq!(target, "/d");
            assert!(*in_container);
        }
        other => panic!("unexpected error: {:?}", other),
    }
    assert!(err.message().contains("CAP_SYS_ADMIN"));
    assert!(err.message().contains("container"));
}

#[test]
fn plan_binding_fails_on_bad_mode_override() {
    let e = SymlinkManager::new();
    let mut b = dir_binding("/persist/d", "/d");
    b.mode = Some(String::from("bad"));
    let obs = ApplyObservation {
        canonical_source: Some(String::from("/persist/d")),
        target: vacant(),
        has_mount_capability: true,
        in_container: false,
    };
    let err = e.plan_binding(&b, &obs, "S").unwrap_err();
    assert_eq!(err.message(), "Invalid mode string: bad");
}

#[test]
fn check_target_empty_gates_the_mount() {
    let e = SymlinkManager::new();
    assert!(e.check_target_empty("/d", 0).is_ok());
    let err = e.check_target_empty("/d", 3).unwrap_err();
    assert_eq!(err.message(), "Target directory /d is not empty (contains 3 entries).");
}

#[test]
fn should_synthesize_source_only_for_directories() {
    let e = SymlinkManager::new();
    let d = dir_binding("/persist/d", "/d");
    let f = file_binding("/persist/f", "/f", false);
    assert!(e.should_synthesize_source(&d, false, true));
    assert!(!e.should_synthesize_source(&d, true, true));
    assert!(!e.should_synthesize_source(&d, false, false));
    assert!(!e.should_synthesize_source(&f, false, true));
}

#[test]
fn plan_removal_undoes_by_live_kind() {
    let e = SymlinkManager::new();
    let rec = GenerationSymlink {
        source: String::from("/persist/x"),
        target: String::from("/x"),
        backup_path: Some(String::from("/x.backup.S")),
    };
    let mounted = RemovalObservation {
        is_mount_point: true,
        is_dir: true,
        is_symlink: false,
        backup_exists: true,
    };
    let step = e.plan_removal(&rec, &mounted);
    assert_eq!(step.action, RemovalAction::Unmount);
    assert!(step.remove_empty_dir);
    assert_eq!(step.restore_backup.as_deref(), Some("/x.backup.S"));

    let linked = RemovalObservation {
        is_mount_point: false,
        is_dir: false,
        is_symlink: true,
        backup_exists: false,
    };
    let step = e.plan_removal(&rec, &linked);
    assert_eq!(step.action, RemovalAction::Unlink);
    assert!(!step.remove_empty_dir);
    assert_eq!(step.restore_backup, None);

    let absent = RemovalObservation {
        is_mount_point: false,
        is_dir: false,
        is_symlink: false,
        backup_exists: true,
    };
    let step = e.plan_removal(&rec, &absent);
    assert_eq!(step.action, RemovalAction::NoAction);
    assert_eq!(step.restore_backup, None);
}

#[test]
fn apply_stops_at_the_first_failing_binding() {
    let e = SymlinkManager::new();
    let good = file_binding("/persist/ok", "/ok", false);
    let bad = file_binding("/persist/missing", "/bad", false);
    let obs_good = ApplyObservation {
        canonical_source: Some(String::from("/persist/ok")),
        target: vacant(),
        has_mount_capability: false,
        in_container: false,
    };
    let obs_bad = ApplyObservation {
        canonical_source: None,
        target: vacant(),
        has_mount_capability: false,
        in_container: false,
    };
    let err = e
        .apply(
            &vec![good, bad],
            &vec![obs_good, obs_bad],
            &vec![String::from("S"), String::from("S")],
        )
        .unwrap_err();
    assert_eq!(err.message(), "Failed to resolve source path: /persist/missing");
}

#[test]
fn remove_plans_each_binding_in_order() {
    let e = SymlinkManager::new();
    let recs = vec![
        GenerationSymlink {
            source: String::from("/p/a"),
            target: String::from("/a"),
            backup_path: None,
        },
        GenerationSymlink {
            source: String::from("/p/b"),
            target: String::from("/b"),
            backup_path: None,
        },
    ];
    let obs = vec![
        RemovalObservation {
            is_mount_point: true,
            is_dir: true,
            is_symlink: false,
            backup_exists: false,
        },
        RemovalObservation {
            is_mount_point: false,
            is_dir: false,
            is_symlink: true,
            backup_exists: false,
        },
    ];
    let steps = e.remove(&recs, &obs);
    assert_eq!(steps.len(), 2);
    assert_eq!(steps[0].action, RemovalAction::Unmount);
    assert_eq!(steps[1].action, RemovalAction::Unlink);
}

#[test]
fn mount_table_queries() {
    let table = "/persist/a /mnt/a ext4 rw 0 0\nshort\n/persist/b /mnt/b ext4 rw 0 0\n";
    assert!(is_mount_point_in(table, "/mnt/a"));
    assert!(is_mount_point_in(table, "/mnt/b"));
    assert!(!is_mount_point_in(table, "/mnt/c"));
    assert!(!is_mount_point_in(table, "short"));
    assert!(mount_pair_in(table, "/persist/a", "/mnt/a"));
    assert!(!mount_pair_in(table, "/persist/a", "/mnt/b"));
}

#[test]
fn verify_reports_each_deviation() {
    let e = SymlinkManager::new();
    let rec = GenerationSymlink {
        source: String::from("/persist/x"),
        target: String::from("/x"),
        backup_path: None,
    };
    let table = "/persist/other /x ext4 rw 0 0\n";

    let not_mounted = VerifyObservation::Directory {
        canonical_target: String::from("/y"),
        canonical_source: String::from("/persist/x"),
    };
    assert_eq!(
        e.verify_binding(&rec, &not_mounted, table).unwrap(),
        "Directory is not a mount point: /x"
    );

    let wrong_source = VerifyObservation::Directory {
        canonical_target: String::from("/x"),
        canonical_source: String::from("/persist/x"),
    };
    assert_eq!(
        e.verify_binding(&rec, &wrong_source, table).unwrap(),
        "Directory is mounted but from wrong source: /x (expected source: /persist/x)"
    );

    let good = VerifyObservation::Directory {
        canonical_target: String::from("/x"),
        canonical_source: String::from("/persist/other"),
    };
    assert!(e.verify_binding(&rec, &good, table).is_none());

    let not_symlink = VerifyObservation::NotDirectory { link: LinkState::NotSymlink };
    assert_eq!(
        e.verify_binding(&rec, &not_symlink, table).unwrap(),
        "File is not a symlink: /x"
    );

    let wrong_target = VerifyObservation::NotDirectory {
        link: LinkState::Points(String::from("/elsewhere")),
    };
    assert_eq!(
        e.verify_binding(&rec, &wrong_target, table).unwrap(),
        "Symlink points to wrong target: /x -> /elsewhere (expected: /persist/x)"
    );

    let right_target = VerifyObservation::NotDirectory {
        link: LinkState::Points(String::from("/persist/x")),
    };
    assert!(e.verify_binding(&rec, &right_target, table).is_none());

    let unreadable = VerifyObservation::NotDirectory {
        link: LinkState::Unreadable(String::from("permission denied")),
    };
    assert_eq!(
        e.verify_binding(&rec, &unreadable, table).unwrap(),
        "Failed to read symlink /x: permission denied"
    );

    let unresolved = VerifyObservation::DirectoryUnresolved {
        error: String::from("No such file or directory"),
    };
    assert_eq!(
        e.verify_binding(&rec, &unresolved, table).unwrap(),
        "Failed to resolve directory paths for /x: No such file or directory"
    );
}

#[test]
fn verify_list_collects_diagnostics_in_order() {
    let e = SymlinkManager::new();
    let recs = vec![
        GenerationSymlink {
            source: String::from("/p/a"),
            target: String::from("/a"),
            backup_path: None,
        },
        GenerationSymlink {
            source: String::from("/p/b"),
            target: String::from("/b"),
            backup_path: None,
        },
    ];
    let obs = vec![
        VerifyObservation::NotDirectory { link: LinkState::Points(String::from("/p/a")) },
        VerifyObservation::NotDirectory { link: LinkState::NotSymlink },
    ];
    let diags = e.verify(&recs, &obs, "");
    assert_eq!(diags, vec![String::from("File is not a symlink: /b")]);
}
