use imp::codec::{parse_store_document, store_document, u64_to_string};
use imp::store::{Generation, GenerationManager, GenerationSymlink};

fn sample_generation() -> Generation {
    Generation {
        number: 1,
        created_at: 1700000000,
        config_path: String::from("/etc/imp.toml"),
        symlinks: vec![
            GenerationSymlink {
                source: String::from("/persist/home/user/.cargo"),
                target: String::from("/home/user/.cargo"),
                backup_path: None,
            },
            GenerationSymlink {
                source: String::from("/persist/home/user/.env"),
                target: String::from("/home/user/.env"),
                backup_path: Some(String::from("/home/user/.env.backup.20240101_000000")),
            },
        ],
        active: true,
    }
}

#[test]
fn empty_store_serializes_to_brackets() {
    assert_eq!(store_document(&vec![]), "[]");
}

#[test]
fn document_has_canonical_shape() {
    let g = Generation {
        number: 2,
        created_at: 5,
        config_path: String::from("a"),
        symlinks: vec![GenerationSymlink {
            source: String::from("s"),
            target: String::from("t"),
            backup_path: None,
        }],
        active: false,
    };
    let doc = store_document(&vec![g]);
    assert_eq!(
        doc,
        "[{\"number\":2,\"created_at\":5,\"config_path\":\"a\",\"symlinks\":\
         [{\"source\":\"s\",\"target\":\"t\",\"backup_path\":null}],\"active\":false}]"
    );
}

#[test]
fn document_roundtrip_preserves_generations() {
    let gens = vec![
        sample_generation(),
        Generation {
            number: 2,
            created_at: 1700000101,
            config_path: String::from("path with \"quotes\" and \\backslash\\"),
            symlinks: vec![],
            active: false,
        },
    ];
    let doc = store_document(&gens);
    let parsed = parse_store_document(&doc).expect("canonical document must parse");
    assert_eq!(parsed, gens);
}

#[test]
fn escaped_strings_roundtrip() {
    let gens = vec![Generation {
        number: 18446744073709551615,
        created_at: 0,
        config_path: String::from("\\\"\\\""),
        symlinks: vec![GenerationSymlink {
            source: String::from("a\"b"),
            target: String::from("c\\d"),
            backup_path: Some(String::from("\"")),
        }],
        active: true,
    }];
    let doc = store_document(&gens);
    let parsed = parse_store_document(&doc).expect("canonical document must parse");
    assert_eq!(parsed, gens);
}

#[test]
fn manager_document_roundtrip() {
    let mut m = GenerationManager::new();
    m.create_generation(String::from("imp.toml"), vec![]);
    m.create_generation(
        String::from("imp.toml"),
        vec![GenerationSymlink {
            source: String::from("/persist/x"),
            target: String::from("/x"),
            backup_path: None,
        }],
    );
    let doc = m.to_document();
    let back = GenerationManager::from_document(&doc).expect("document must parse");
    assert_eq!(back.list_generations(), m.list_generations());
}

#[test]
fn malformed_documents_are_rejected() {
    assert!(parse_store_document("").is_none());
    assert!(parse_store_document("{}").is_none());
    assert!(parse_store_document("[nonsense]").is_none());
    assert!(parse_store_document("[]trailing").is_none());
    let e = GenerationManager::load_generations("not json").unwrap_err();
    assert_eq!(e.message(), "Malformed generations document");
}

#[test]
fn oversized_numbers_are_rejected() {
    let doc = "[{\"number\":99999999999999999999,\"created_at\":0,\"config_path\":\"a\",\
               \"symlinks\":[],\"active\":true}]";
    assert!(parse_store_document(doc).is_none());
}

#[test]
fn decimal_strings() {
    assert_eq!(u64_to_string(0), "0");
    assert_eq!(u64_to_string(12345), "12345");
    assert_eq!(u64_to_string(u64::MAX), "18446744073709551615");
}
