use vorgrs::db::Item;
use vorgrs::fstore::StoreFile;
use vorgrs::integrity::check_data_integrity;

fn item(hash: &str, ext: &str) -> Item {
    Item {
        hash: hash.to_string(),
        title: String::new(),
        ext: ext.to_string(),
        collection_id: 1,
        tags: Vec::new(),
    }
}

fn leaf(hash: &str, ext: &str) -> StoreFile {
    StoreFile { hash: hash.to_string(), ext: ext.to_string() }
}

const HASH_A: &str = "4effadeed3957d9dab1a645b9a7d01c18380d54e71d51148fdf84633";
const HASH_B: &str = "effaa79355fe625a1df6e916b1c30a5f68ae76687dbd954d759353d6";

#[test]
fn agreement_yields_an_empty_report() {
    let db = vec![item(HASH_A, "mp4"), item(HASH_B, "mp4")];
    let store = vec![leaf(HASH_B, "mp4"), leaf(HASH_A, "mp4")];
    let report = check_data_integrity(&db, store, &Vec::new());
    assert_eq!(report, "");
}

#[test]
fn files_missing_from_store_are_reported() {
    let db = vec![item(HASH_A, "mp4"), item(HASH_B, "mp4")];
    let report = check_data_integrity(&db, Vec::new(), &Vec::new());
    assert_eq!(
        report,
        format!(
            "store: file not found in store: {HASH_A}\nstore: file not found in store: {HASH_B}\n"
        )
    );
}

#[test]
fn redundant_files_are_reported() {
    let store = vec![leaf(HASH_A, "mp4"), leaf(HASH_B, "mp4")];
    let report = check_data_integrity(&Vec::new(), store, &Vec::new());
    assert_eq!(
        report,
        format!(
            "store: redundant file in store: {HASH_A}\nstore: redundant file in store: {HASH_B}\n"
        )
    );
}

#[test]
fn ext_and_hash_mismatches_are_reported() {
    let shared = "50a04dc1cbd3d8edd5ad7acbcaad95362fe1c47c212f7b6b2b66d8bc";
    let claimed = "50a04dc1cbd3d8edd5ad7acbcaad95362fe1c47c212f7b6b2b66d8bd";
    let db = vec![item(shared, "avi")];
    let store = vec![leaf(shared, "mp4")];
    let wrong_hash = vec![format!("Expected {claimed}, but real hash is {shared}")];
    let report = check_data_integrity(&db, store, &wrong_hash);
    assert_eq!(
        report,
        format!(
            "ext: different extensions: avi in db but mp4 in store\nhash: Expected {claimed}, but real hash is {shared}\n"
        )
    );
}

#[test]
fn one_deleted_file_yields_exactly_one_line() {
    // The store lost one of two files; everything else agrees.
    let db = vec![item(HASH_A, "mp4"), item(HASH_B, "mp4")];
    let store = vec![leaf(HASH_B, "mp4")];
    let report = check_data_integrity(&db, store, &Vec::new());
    assert_eq!(report, format!("store: file not found in store: {HASH_A}\n"));
}

#[test]
fn mixed_divergences_come_out_in_hash_order() {
    let db = vec![item("aaaa", "mp4"), item("cccc", "avi"), item("dddd", "mp4")];
    let store = vec![leaf("cccc", "mp4"), leaf("bbbb", "mp4"), leaf("dddd", "mp4")];
    let report = check_data_integrity(&db, store, &Vec::new());
    assert_eq!(
        report,
        "store: file not found in store: aaaa\n\
         store: redundant file in store: bbbb\n\
         ext: different extensions: avi in db but mp4 in store\n"
    );
}
