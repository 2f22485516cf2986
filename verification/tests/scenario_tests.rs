use imp::config::Symlink;
use imp::engine::{
    ApplyObservation, ConflictAction, SymlinkManager, TargetObservation, VerifyObservation,
};
use imp::mounts::{is_mount_point_in, mount_pair_in};
use imp::store::GenerationManager;

/// The full path of one directory binding, from specification to verified
/// generation: apply plans the bind mount, the store records generation 1
/// as active with the realized binding, the mount table then pairs the
/// source with the target, and verification is clean.
#[test]
fn directory_binding_end_to_end() {
    let engine = SymlinkManager::new();
    let spec = Symlink {
        source: String::from("/store/a"),
        target: String::from("/root/.cache"),
        is_directory: true,
        create_parents: true,
        backup: false,
        user: None,
        group: None,
        mode: None,
    };
    let obs = ApplyObservation {
        canonical_source: Some(String::from("/store/a")),
        target: TargetObservation {
            exists: false,
            is_symlink: false,
            is_dir: false,
            is_mount_point: false,
        },
        has_mount_capability: true,
        in_container: false,
    };
    let planned = engine
        .apply(
            &vec![spec],
            &vec![obs],
            &vec![String::from("20240101_000000")],
        )
        .expect("planning must succeed");
    assert_eq!(planned.len(), 1);
    let pb = &planned[0];
    assert_eq!(pb.plan.conflict, ConflictAction::KeepNone);
    assert!(pb.plan.mount);
    assert!(pb.plan.require_empty);
    assert_eq!(pb.realized.source, "/store/a");
    assert_eq!(pb.realized.target, "/root/.cache");
    assert_eq!(pb.realized.backup_path, None);

    // The store records the apply as generation 1, active.
    let mut store = GenerationManager::new();
    let generation = store.create_generation(
        String::from("imp.toml"),
        vec![pb.realized.duplicate()],
    );
    assert_eq!(generation.number, 1);
    assert!(generation.active);
    assert_eq!(generation.symlinks.len(), 1);
    assert_eq!(generation.symlinks[0].source, "/store/a");
    assert_eq!(generation.symlinks[0].target, "/root/.cache");
    assert_eq!(generation.symlinks[0].backup_path, None);

    // After the caller executes the plan, the mount table pairs the source
    // with the target, and verification draws no diagnostics.
    let table = "/store/a /root/.cache none rw,bind 0 0\n";
    assert!(is_mount_point_in(table, "/root/.cache"));
    assert!(mount_pair_in(table, "/store/a", "/root/.cache"));
    let diags = engine.verify(
        &generation.symlinks,
        &vec![VerifyObservation::Directory {
            canonical_target: String::from("/root/.cache"),
            canonical_source: String::from("/store/a"),
        }],
        table,
    );
    assert!(diags.is_empty());
}

/// Applying a second configuration and switching back mirrors the
/// generation lifecycle of the command-line tool.
#[test]
fn generation_lifecycle() {
    let engine = SymlinkManager::new();
    let store_doc;
    {
        let mut store = GenerationManager::new();
        let spec = Symlink {
            source: String::from("/persist/home/.env"),
            target: String::from("/home/.env"),
            is_directory: false,
            create_parents: false,
            backup: false,
            user: None,
            group: None,
            mode: None,
        };
        let obs = ApplyObservation {
            canonical_source: Some(String::from("/persist/home/.env")),
            target: TargetObservation {
                exists: false,
                is_symlink: false,
                is_dir: false,
                is_mount_point: false,
            },
            has_mount_capability: false,
            in_container: false,
        };
        let planned = engine
            .apply(&vec![spec], &vec![obs], &vec![String::from("S")])
            .unwrap();
        store.create_generation(String::from("v1.toml"), vec![]);
        store.create_generation(
            String::from("v2.toml"),
            vec![planned[0].realized.duplicate()],
        );
        store.switch_generation(1).unwrap();
        assert_eq!(store.get_active_generation().unwrap().number, 1);
        store_doc = store.to_document();
    }
    // The persisted document reloads to the same store.
    let reloaded = GenerationManager::from_document(&store_doc).unwrap();
    assert_eq!(reloaded.get_active_generation().unwrap().number, 1);
    assert_eq!(reloaded.list_generations().len(), 2);
    assert_eq!(reloaded.next_generation_number(), 3);
}
