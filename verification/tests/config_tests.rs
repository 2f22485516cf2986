use imp::config::{
    Config, ConfigError, DirectoryEntry, FileEntry, ParentDirectoryConfig, PersistenceConfig,
    PersistenceEntry,
};

fn sample_config() -> Config {
    Config {
        persistence: vec![PersistenceEntry {
            persist_dir: String::from("/persist/home"),
            config: PersistenceConfig {
                hide_mounts: false,
                directories: vec![
                    DirectoryEntry::Simple(String::from("/home/user/.cargo")),
                    DirectoryEntry::Detailed {
                        directory: String::from("/home/user/.config"),
                        user: Some(String::from("user")),
                        group: None,
                        mode: Some(String::from("0755")),
                    },
                ],
                files: vec![
                    FileEntry::Simple(String::from("/home/user/.testfile")),
                    FileEntry::Detailed {
                        file: String::from("/home/user/.env"),
                        parent_directory: Some(ParentDirectoryConfig {
                            mode: Some(String::from("0700")),
                        }),
                    },
                ],
            },
        }],
        state_dir: String::from("/var/lib/imp"),
    }
}

#[test]
fn directory_entry_getters() {
    let simple = DirectoryEntry::Simple(String::from("/d"));
    assert_eq!(simple.path(), "/d");
    assert_eq!(simple.user(), None);
    assert_eq!(simple.group(), None);
    assert_eq!(simple.mode(), None);
    let detailed = DirectoryEntry::Detailed {
        directory: String::from("/d2"),
        user: Some(String::from("u")),
        group: Some(String::from("g")),
        mode: Some(String::from("0777")),
    };
    assert_eq!(detailed.path(), "/d2");
    assert_eq!(detailed.user(), Some("u"));
    assert_eq!(detailed.group(), Some("g"));
    assert_eq!(detailed.mode(), Some("0777"));
}

#[test]
fn file_entry_getters() {
    let simple = FileEntry::Simple(String::from("/f"));
    assert_eq!(simple.path(), "/f");
    assert!(simple.parent_directory().is_none());
    let detailed = FileEntry::Detailed {
        file: String::from("/f2"),
        parent_directory: Some(ParentDirectoryConfig { mode: None }),
    };
    assert_eq!(detailed.path(), "/f2");
    assert!(detailed.parent_directory().is_some());
}

#[test]
fn to_symlinks_flattens_directories_then_files() {
    let symlinks = sample_config().to_symlinks();
    assert_eq!(symlinks.len(), 4);

    assert_eq!(symlinks[0].source, "/persist/home/home/user/.cargo");
    assert_eq!(symlinks[0].target, "/home/user/.cargo");
    assert!(symlinks[0].is_directory);
    assert!(symlinks[0].create_parents);
    assert!(!symlinks[0].backup);
    assert_eq!(symlinks[0].user, None);

    assert_eq!(symlinks[1].target, "/home/user/.config");
    assert_eq!(symlinks[1].user.as_deref(), Some("user"));
    assert_eq!(symlinks[1].mode.as_deref(), Some("0755"));

    assert_eq!(symlinks[2].source, "/persist/home/home/user/.testfile");
    assert_eq!(symlinks[2].target, "/home/user/.testfile");
    assert!(!symlinks[2].is_directory);
    assert!(!symlinks[2].create_parents);
    assert_eq!(symlinks[2].mode, None);

    assert_eq!(symlinks[3].target, "/home/user/.env");
    assert!(symlinks[3].create_parents);
    assert_eq!(symlinks[3].mode.as_deref(), Some("0700"));
}

#[test]
fn to_symlinks_keeps_relative_targets_whole() {
    let c = Config {
        persistence: vec![PersistenceEntry {
            persist_dir: String::from("/persist"),
            config: PersistenceConfig {
                hide_mounts: false,
                directories: vec![DirectoryEntry::Simple(String::from("rel/dir"))],
                files: vec![],
            },
        }],
        state_dir: String::from("."),
    };
    let symlinks = c.to_symlinks();
    assert_eq!(symlinks[0].source, "/persist/rel/dir");
    assert_eq!(symlinks[0].target, "rel/dir");
}

#[test]
fn validate_accepts_when_all_sources_exist() {
    let c = sample_config();
    assert!(c.validate(&vec![true, true, true, true]).is_ok());
}

#[test]
fn validate_names_the_first_missing_source() {
    let c = sample_config();
    let e = c.validate(&vec![true, false, false, true]).unwrap_err();
    let ConfigError::MissingSource { source } = &e;
    assert_eq!(source, "/persist/home/home/user/.config");
    assert_eq!(
        e.message(),
        "Source path does not exist: /persist/home/home/user/.config"
    );
}
