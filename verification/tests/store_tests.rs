use imp::store::{Generation, GenerationManager, GenerationSymlink, StoreError};

fn symlink(source: &str, target: &str) -> GenerationSymlink {
    GenerationSymlink {
        source: String::from(source),
        target: String::from(target),
        backup_path: None,
    }
}

#[test]
fn next_number_of_empty_store_is_one() {
    let m = GenerationManager::new();
    assert_eq!(m.next_generation_number(), 1);
}

#[test]
fn create_assigns_consecutive_numbers() {
    let mut m = GenerationManager::new();
    let g1 = m.create_generation(String::from("imp.toml"), vec![]);
    let g2 = m.create_generation(String::from("imp.toml"), vec![]);
    assert_eq!(g1.number, 1);
    assert_eq!(g2.number, 2);
    assert!(g2.active);
    let all = m.list_generations();
    assert_eq!(all.len(), 2);
    assert!(!all[0].active);
    assert!(all[1].active);
}

#[test]
fn numbers_are_not_reused_after_inner_deletion() {
    let mut m = GenerationManager::new();
    m.create_generation(String::from("a"), vec![]);
    m.create_generation(String::from("b"), vec![]);
    m.create_generation(String::from("c"), vec![]);
    m.delete_generation(2).unwrap();
    let g = m.create_generation(String::from("d"), vec![]);
    assert_eq!(g.number, 4);
    let numbers: Vec<u64> = m.list_generations().iter().map(|g| g.number).collect();
    assert_eq!(numbers, vec![1, 3, 4]);
}

#[test]
fn exactly_one_generation_is_active() {
    let mut m = GenerationManager::new();
    m.create_generation(String::from("a"), vec![symlink("/p/x", "/x")]);
    m.create_generation(String::from("b"), vec![]);
    m.create_generation(String::from("c"), vec![]);
    m.switch_generation(2).unwrap();
    let actives: Vec<u64> = m
        .list_generations()
        .iter()
        .filter(|g| g.active)
        .map(|g| g.number)
        .collect();
    assert_eq!(actives, vec![2]);
}

#[test]
fn switch_returns_the_activated_generation() {
    let mut m = GenerationManager::new();
    m.create_generation(String::from("a"), vec![symlink("/p/x", "/x")]);
    m.create_generation(String::from("b"), vec![]);
    let g = m.switch_generation(1).unwrap();
    assert_eq!(g.number, 1);
    assert!(g.active);
    assert_eq!(g.symlinks.len(), 1);
    assert_eq!(g.symlinks[0].target, "/x");
    let active = m.get_active_generation().unwrap();
    assert_eq!(active.number, 1);
}

#[test]
fn switch_to_missing_number_fails_unchanged() {
    let mut m = GenerationManager::new();
    m.create_generation(String::from("a"), vec![]);
    let before = m.list_generations();
    let e = m.switch_generation(7).unwrap_err();
    assert_eq!(e, StoreError::NotFound);
    assert_eq!(e.message(), "Generation not found");
    assert_eq!(m.list_generations(), before);
}

#[test]
fn delete_of_active_generation_fails_unchanged() {
    let mut m = GenerationManager::new();
    m.create_generation(String::from("a"), vec![]);
    m.create_generation(String::from("b"), vec![]);
    let before = m.list_generations();
    let e = m.delete_generation(2).unwrap_err();
    assert_eq!(e, StoreError::ActiveGeneration);
    assert_eq!(e.message(), "Cannot delete active generation");
    assert_eq!(m.list_generations(), before);
}

#[test]
fn delete_of_inactive_generation_removes_only_it() {
    let mut m = GenerationManager::new();
    m.create_generation(String::from("a"), vec![symlink("/p/x", "/x")]);
    m.create_generation(String::from("b"), vec![]);
    m.delete_generation(1).unwrap();
    let all = m.list_generations();
    assert_eq!(all.len(), 1);
    assert_eq!(all[0].number, 2);
    assert!(all[0].active);
}

#[test]
fn delete_of_missing_number_fails_unchanged() {
    let mut m = GenerationManager::new();
    m.create_generation(String::from("a"), vec![]);
    let before = m.list_generations();
    let e = m.delete_generation(9).unwrap_err();
    assert_eq!(e, StoreError::NotFound);
    assert_eq!(e.message(), "Generation not found");
    assert_eq!(m.list_generations(), before);
}

#[test]
fn delete_guards_every_carrier_of_a_number() {
    // A store document may carry duplicate numbers; deletion must refuse
    // whenever any carrier is the active generation.
    let duplicate = |active: bool| Generation {
        number: 1,
        created_at: 0,
        config_path: String::from("a"),
        symlinks: vec![],
        active,
    };
    let doc = imp::codec::store_document(&vec![duplicate(false), duplicate(true)]);
    let mut m = GenerationManager::from_document(&doc).unwrap();
    let before = m.list_generations();
    let e = m.delete_generation(1).unwrap_err();
    assert_eq!(e, StoreError::ActiveGeneration);
    assert_eq!(m.list_generations(), before);
}

#[test]
fn get_active_of_empty_store_is_none() {
    let m = GenerationManager::new();
    assert!(m.get_active_generation().is_none());
}

#[test]
fn generation_duplicate_is_equal() {
    let g = Generation {
        number: 3,
        created_at: 1700000000,
        config_path: String::from("imp.toml"),
        symlinks: vec![GenerationSymlink {
            source: String::from("/p/a"),
            target: String::from("/a"),
            backup_path: Some(String::from("/a.backup.x")),
        }],
        active: true,
    };
    assert_eq!(g.duplicate(), g);
}
