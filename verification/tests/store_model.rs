use vorgrs::db::MetadataStore;
use vorgrs::error::ErrorKind;

const HASH_A: &str = "09c683231bb0e88e84a8408fdbfe174c70d83d03e0604eb612631e79";
const HASH_B: &str = "4effadeed3957d9dab1a645b9a7d01c18380d54e71d51148fdf84633";

#[test]
fn test_import_file() {
    let mut db = MetadataStore::new();

    // Import file
    let title = "Test title";
    let ext = "mp4";
    let hash = HASH_A;
    let result = db.import_file(title, hash, ext);
    assert!(result.is_ok());

    // The item is recorded, tagged meta:Incomplete.
    let items = db.get_items();
    assert_eq!(items.len(), 1);
    assert_eq!(items[0].title, title);
    assert_eq!(items[0].ext, ext);
    assert_eq!(items[0].hash, hash);
    assert_eq!(items[0].tags, vec!["meta:Incomplete".to_string()]);

    // Test duplicate import
    let duplicate_title = "Another title";
    let result = db.import_file(duplicate_title, hash, ext);
    assert!(result.is_err());
    let error = result.unwrap_err();
    assert_eq!(error.message(), "The item to import already exists in the database.");
    assert_eq!(error.kind, ErrorKind::Duplicate);
    // Make sure no redundant collection is created.
    let items = db.get_items();
    assert_eq!(items.len(), 1);
    assert!(items.iter().all(|item| item.title != duplicate_title));

    // Test reusing tag
    let title2 = "Some title";
    let result = db.import_file(title2, HASH_B, ext);
    assert!(result.is_ok());
    let items = db.get_items();
    assert_eq!(items.len(), 2);
    for item in &items {
        assert_eq!(item.tags, vec!["meta:Incomplete".to_string()]);
    }
}

#[test]
fn test_get_items() {
    let mut db = MetadataStore::new();

    let title = "Test title";
    let ext = "mp4";
    let hash = HASH_A;
    let result = db.import_file(title, hash, ext);
    assert!(result.is_ok());

    let items = db.get_items();

    assert_eq!(items.len(), 1);
    assert_eq!(items[0].title, title);
    assert_eq!(items[0].ext, ext);
    assert_eq!(items[0].hash, hash);
    assert_eq!(items[0].tags.len(), 1);
    assert_eq!(items[0].tags[0], "meta:Incomplete");
}

#[test]
fn items_come_back_sorted_by_hash() {
    let mut db = MetadataStore::new();
    db.import_file("b", "bbbb", "mp4").unwrap();
    db.import_file("a", "aaaa", "mp4").unwrap();
    db.import_file("c", "cccc", "mp4").unwrap();

    let items = db.get_items();
    let hashes: Vec<&str> = items.iter().map(|i| i.hash.as_str()).collect();
    assert_eq!(hashes, vec!["aaaa", "bbbb", "cccc"]);
}

#[test]
fn import_then_duplicate_scenario() {
    // One import: a single item whose tag set is ["meta:Incomplete"].
    let mut db = MetadataStore::new();
    db.import_file("/videos/black.mp4", HASH_B, "mp4").unwrap();
    let items = db.get_items();
    assert_eq!(items.len(), 1);
    assert_eq!(items[0].tags, vec!["meta:Incomplete".to_string()]);

    // Importing identical bytes again fails with Duplicate and adds nothing.
    let result = db.import_file("/videos/black-copy.mp4", HASH_B, "mp4");
    assert_eq!(result.unwrap_err().kind, ErrorKind::Duplicate);
    assert_eq!(db.get_items().len(), 1);
}

#[test]
fn incomplete_tag_exists_once_for_two_imports() {
    let mut db = MetadataStore::new();
    db.import_file("first", HASH_A, "mp4").unwrap();
    db.import_file("second", HASH_B, "mp4").unwrap();

    // Both collections carry the tag; the tag row itself is shared, so the
    // items report exactly the same single tag name.
    let items = db.get_items();
    assert_eq!(items.len(), 2);
    for item in &items {
        assert_eq!(item.tags, vec!["meta:Incomplete".to_string()]);
    }
    assert_ne!(items[0].collection_id, items[1].collection_id);
}

#[test]
fn add_tag_to_collection_rejects_unknown_collection() {
    let mut db = MetadataStore::new();
    let result = db.add_tag_to_collection(7, "meta:Incomplete");
    assert_eq!(result.unwrap_err().kind, ErrorKind::DB);
}

#[test]
fn add_tag_to_collection_rejects_duplicate_link() {
    let mut db = MetadataStore::new();
    db.import_file("first", HASH_A, "mp4").unwrap();
    let collection_id = db.get_items()[0].collection_id;
    let result = db.add_tag_to_collection(collection_id, "meta:Incomplete");
    assert_eq!(result.unwrap_err().kind, ErrorKind::DB);
    // A fresh tag still attaches.
    db.add_tag_to_collection(collection_id, "genre:Documentary").unwrap();
    let items = db.get_items();
    assert_eq!(
        items[0].tags,
        vec!["meta:Incomplete".to_string(), "genre:Documentary".to_string()]
    );
}
