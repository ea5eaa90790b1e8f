use github_db::{commit_message, CryptoError, DbError, GithubDb, JsonValue, Mutation, Storage};

fn text(v: &JsonValue) -> String {
    match v {
        JsonValue::Object(es) => match &es[0].1 {
            JsonValue::String(s) => s.clone(),
            _ => panic!("not a string"),
        },
        _ => panic!("not an object"),
    }
}

fn named(s: &str) -> JsonValue {
    JsonValue::Object(vec![("name".to_string(), JsonValue::String(s.to_string()))])
}

#[test]
fn test_storage_operations() {
    let storage = Storage::new("dir");
    let id = "test";
    assert_eq!(storage.get_file_path(id), "dir/test.json");
    let files = storage.list(&vec!["test.json".to_string(), "certs".to_string(), ".git".to_string()]);
    assert_eq!(files, vec!["test"]);
    assert_eq!(storage.list(&vec![]), Vec::<String>::new());
}

#[test]
fn test_crud_operations() {
    let db = GithubDb::new("dir", None).unwrap();

    let doc = db.create("test1", named("Test Document")).unwrap();
    assert_eq!(doc.id, "test1");
    assert_eq!(text(&doc.data), "Test Document");
    assert_eq!(doc.created_at, doc.updated_at);

    let json = br#"{"id":"test1"}"#;
    let blob = db.seal_document(json).unwrap();
    assert_eq!(db.open_document(&blob).unwrap(), json.to_vec());

    let created = doc.created_at;
    let updated = db.update(doc, named("Updated Document")).unwrap();
    assert_eq!(updated.id, "test1");
    assert_eq!(text(&updated.data), "Updated Document");
    assert_eq!(updated.created_at, created);
    assert!(updated.updated_at >= updated.created_at);

    let docs = db.list(&vec!["test1.json".to_string(), "certs".to_string()]);
    assert_eq!(docs, vec!["test1"]);

    assert_eq!(db.list(&vec!["certs".to_string()]), Vec::<String>::new());
}

#[test]
fn test_encryption() {
    let key = [0u8; 32];
    let db = GithubDb::new("dir", Some(&key)).unwrap();
    let json = br#"{"id":"test1","data":{"secret":"Classified"}}"#;
    let blob = db.seal_document(json).unwrap();
    assert_ne!(blob, json.to_vec());
    assert_eq!(db.open_document(&blob).unwrap(), json.to_vec());
}

#[test]
fn without_a_key_blobs_are_the_plain_bytes() {
    let db = GithubDb::new("dir", None).unwrap();
    assert_eq!(db.seal_document(b"{}").unwrap(), b"{}".to_vec());
    assert_eq!(db.open_document(b"xyz").unwrap(), b"xyz".to_vec());
}

#[test]
fn a_bad_key_length_refuses_the_service() {
    assert!(matches!(
        GithubDb::new("dir", Some(&[0u8; 16])),
        Err(DbError::Encryption(CryptoError::InvalidKeyLength))
    ));
}

#[test]
fn commit_messages_name_the_document() {
    assert_eq!(commit_message(Mutation::Create, "a"), "Create document a");
    assert_eq!(commit_message(Mutation::Update, "b"), "Update document b");
    assert_eq!(commit_message(Mutation::Delete, "c"), "Delete document c");
}

#[test]
fn file_paths_join_one_separator() {
    assert_eq!(Storage::new("dir/").get_file_path("x"), "dir/x.json");
    assert_eq!(Storage::new("").get_file_path("x"), "x.json");
    assert_eq!(Storage::new("d").base_path(), "d");
}

#[test]
fn creation_time_is_the_current_unix_time() {
    let db = GithubDb::new("dir", None).unwrap();
    let doc = db.create("t", JsonValue::Null).unwrap();
    assert!(doc.created_at > 1_600_000_000);
    assert_eq!(doc.created_at, doc.updated_at);
}
