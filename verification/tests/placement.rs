use vorgrs::fstore::{claimed_hash, shard_dir_name, store_entry, store_file_name};
use vorgrs::hashing::content_hash;

const HASH: &str = "4effadeed3957d9dab1a645b9a7d01c18380d54e71d51148fdf84633";

#[test]
fn placement_splits_the_hash() {
    assert_eq!(shard_dir_name(HASH), "4e");
    assert_eq!(
        store_file_name(HASH, "mp4"),
        "ffadeed3957d9dab1a645b9a7d01c18380d54e71d51148fdf84633.mp4"
    );
}

#[test]
fn walking_reassembles_the_hash() {
    let shard = shard_dir_name(HASH);
    let file_name = store_file_name(HASH, "mp4");
    let stem = file_name.strip_suffix(".mp4").unwrap();
    assert_eq!(claimed_hash(&shard, stem), HASH);
}

#[test]
fn content_hash_is_hex_sha224() {
    // SHA-224 of the empty input and of "abc", hex-encoded.
    assert_eq!(
        content_hash(b""),
        "d14a028c2a3a2bc9476102bb288234c415a2b01f828ea62ac5b3e42f"
    );
    assert_eq!(
        content_hash(b"abc"),
        "23097d223405d8228642a477bda255b32aadbce4bda0b3f7e36c9da7"
    );
    assert_eq!(content_hash(b"abc").len(), 56);
}

#[test]
fn store_entry_accepts_matching_hash() {
    let (file, mismatch) = store_entry("4e", "ffadeed3957d9dab1a645b9a7d01c18380d54e71d51148fdf84633", "mp4", HASH);
    assert_eq!(file.hash, HASH);
    assert_eq!(file.ext, "mp4");
    assert!(mismatch.is_none());
}

#[test]
fn store_entry_reports_mismatching_hash() {
    let real = "50a04dc1cbd3d8edd5ad7acbcaad95362fe1c47c212f7b6b2b66d8bc";
    let (file, mismatch) = store_entry("4e", "ffadeed3957d9dab1a645b9a7d01c18380d54e71d51148fdf84633", "mp4", real);
    assert_eq!(file.hash, HASH);
    assert_eq!(
        mismatch.unwrap(),
        format!("Expected {HASH}, but real hash is {real}")
    );
}
