use blindfold::{build_file_map, destructure_to_tup, sorted_keys, template_rows, Catalog, FileRes};

#[test]
fn destructures_name_and_url() {
    let f = FileRes {
        name: "Python.gitignore".to_string(),
        download_url: Some("http://p".to_string()),
    };
    assert_eq!(
        destructure_to_tup(&f),
        ("python".to_string(), "http://p".to_string())
    );
}

#[test]
fn missing_url_becomes_empty_string() {
    let f = FileRes {
        name: "Go.gitignore".to_string(),
        download_url: None,
    };
    assert_eq!(destructure_to_tup(&f), ("go".to_string(), String::new()));
}

#[test]
fn builds_catalog_from_listing() {
    let files = vec![
        FileRes {
            name: "Python.gitignore".to_string(),
            download_url: Some("http://p".to_string()),
        },
        FileRes {
            name: "README.md".to_string(),
            download_url: Some("http://r".to_string()),
        },
        FileRes {
            name: "Node.gitignore".to_string(),
            download_url: Some("http://n".to_string()),
        },
        FileRes {
            name: "Broken.gitignore".to_string(),
            download_url: None,
        },
    ];
    let cat = build_file_map(&files);
    assert_eq!(cat.len(), 2);
    assert!(cat.contains_key("python"));
    assert!(cat.contains_key("node"));
    assert!(!cat.contains_key("readme.md"));
    assert!(!cat.contains_key("broken"));
    assert_eq!(cat.get("python"), Some(&"http://p".to_string()));
    assert_eq!(cat.get("node"), Some(&"http://n".to_string()));
    assert_eq!(cat.get("rust"), None);
}

#[test]
fn lookup_is_case_sensitive() {
    let mut cat = Catalog::new();
    cat.insert("python".to_string(), "u".to_string());
    assert!(cat.contains_key("python"));
    assert!(!cat.contains_key("Python"));
}

#[test]
fn insert_replaces_existing_value() {
    let mut cat = Catalog::new();
    cat.insert("python".to_string(), "old".to_string());
    cat.insert("python".to_string(), "new".to_string());
    assert_eq!(cat.len(), 1);
    assert_eq!(cat.get("python"), Some(&"new".to_string()));
}

#[test]
fn sorted_keys_sorts_lexicographically() {
    let mut cat = Catalog::new();
    for name in ["node", "ada", "zig", "python", "c"] {
        cat.insert(name.to_string(), "u".to_string());
    }
    assert_eq!(
        sorted_keys(&cat),
        vec![
            "ada".to_string(),
            "c".to_string(),
            "node".to_string(),
            "python".to_string(),
            "zig".to_string(),
        ]
    );
}

#[test]
fn template_rows_chunk_by_four() {
    let mut cat = Catalog::new();
    for name in ["f", "b", "a", "e", "d", "c"] {
        cat.insert(name.to_string(), "u".to_string());
    }
    let rows = template_rows(&cat);
    assert_eq!(rows.len(), 2);
    assert_eq!(
        rows[0],
        vec![
            "a".to_string(),
            "b".to_string(),
            "c".to_string(),
            "d".to_string(),
        ]
    );
    assert_eq!(rows[1], vec!["e".to_string(), "f".to_string()]);
}

#[test]
fn template_rows_of_empty_catalog() {
    let cat = Catalog::new();
    let rows = template_rows(&cat);
    assert_eq!(rows.len(), 0);
}
