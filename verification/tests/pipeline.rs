use vorgrs::db::MetadataStore;
use vorgrs::error::ErrorKind;
use vorgrs::hashing::content_hash;
use vorgrs::repo::{
    import_target, is_fatal_import_error, plan_import, supported_mimetypes, validate_repo_layout,
    ImportTarget,
};

#[test]
fn supported_types_map_to_default_extensions() {
    let supported = supported_mimetypes();
    assert_eq!(supported.lookup("video/mp4"), Some("mp4".to_string()));
    assert_eq!(supported.lookup("text/plain"), None);
}

#[test]
fn missing_import_target_is_refused() {
    let error = import_target("/videos/no.mp4", false, false).unwrap_err();
    assert_eq!(error.kind, ErrorKind::FileNotFound);
    assert_eq!(error.message(), "The file to import cannot be found: /videos/no.mp4.");
}

#[test]
fn import_target_distinguishes_files_and_directories() {
    assert!(matches!(import_target("/videos", true, true), Ok(ImportTarget::Directory)));
    assert!(matches!(import_target("/videos/a.mp4", true, false), Ok(ImportTarget::File)));
}

#[test]
fn plan_import_keeps_the_filename_extension() {
    let supported = supported_mimetypes();
    let hash = "4effadeed3957d9dab1a645b9a7d01c18380d54e71d51148fdf84633";
    let plan = plan_import(&supported, "video/mp4", "/videos/black.m4v", Some("m4v"), hash)
        .unwrap();
    assert_eq!(plan.title, "/videos/black.m4v");
    assert_eq!(plan.ext, "m4v");
    assert_eq!(plan.hash, hash);
    assert_eq!(plan.shard_dir, "4e");
    assert_eq!(
        plan.file_name,
        "ffadeed3957d9dab1a645b9a7d01c18380d54e71d51148fdf84633.m4v"
    );
}

#[test]
fn plan_import_falls_back_to_the_default_extension() {
    let supported = supported_mimetypes();
    let hash = "4effadeed3957d9dab1a645b9a7d01c18380d54e71d51148fdf84633";
    let plan = plan_import(&supported, "video/mp4", "/videos/black", None, hash).unwrap();
    assert_eq!(plan.ext, "mp4");
}

#[test]
fn plan_import_refuses_unsupported_types() {
    let supported = supported_mimetypes();
    let hash = "4effadeed3957d9dab1a645b9a7d01c18380d54e71d51148fdf84633";
    let error = plan_import(&supported, "text/plain", "/videos/fake-video.txt", Some("txt"), hash)
        .unwrap_err();
    assert_eq!(error.kind, ErrorKind::Unsupported);
    assert_eq!(
        error.message(),
        "The file to import has an supported type: /videos/fake-video.txt."
    );
}

#[test]
fn only_io_failures_abort_a_directory_import() {
    assert!(is_fatal_import_error(&ErrorKind::IO));
    assert!(!is_fatal_import_error(&ErrorKind::Unsupported));
    assert!(!is_fatal_import_error(&ErrorKind::Duplicate));
    assert!(!is_fatal_import_error(&ErrorKind::Magic));
}

#[test]
fn repo_layout_requires_both_folders() {
    assert!(validate_repo_layout("/r/store", true, "/r/thumbnail", true).is_ok());
    let error = validate_repo_layout("/r/store", false, "/r/thumbnail", true).unwrap_err();
    assert_eq!(error.kind, ErrorKind::StoreFolder);
    assert_eq!(
        error.message(),
        "File store does not exist or is not a directory at /r/store."
    );
    let error = validate_repo_layout("/r/store", true, "/r/thumbnail", false).unwrap_err();
    assert_eq!(error.kind, ErrorKind::ThumbnailFolder);
    assert_eq!(
        error.message(),
        "Thumbnail store does not exist or is not a directory at /r/thumbnail."
    );
}

#[test]
fn directory_import_suppresses_all_but_io_failures() {
    // A directory holding three importable files and one unsupported file:
    // the unsupported one is skipped, the other three are recorded.
    let supported = supported_mimetypes();
    let files: [(&str, &str, &[u8]); 4] = [
        ("/videos/random title 1.mp4", "video/mp4", b"first video"),
        ("/videos/fake video.txt", "text/plain", b"not a video"),
        ("/videos/random title 2.mp4", "video/mp4", b"second video"),
        ("/videos/random title 3.mp4", "video/mp4", b"third video"),
    ];
    let mut db = MetadataStore::new();
    for (path, mime, bytes) in files {
        let hash = content_hash(bytes);
        match plan_import(&supported, mime, path, Some("mp4"), &hash) {
            Ok(plan) => {
                db.import_file(&plan.title, &plan.hash, &plan.ext).unwrap();
            }
            Err(error) => {
                // The suppression policy lets the directory import continue.
                assert!(!is_fatal_import_error(&error.kind));
            }
        }
    }
    assert_eq!(db.get_items().len(), 3);
}
