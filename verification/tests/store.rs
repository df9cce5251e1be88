use filedrop::store::{Store, UploadOutcome};

#[test]
fn upload_then_download_round_trip() {
    let mut store = Store::new();
    let bytes = b"pdf bytes".to_vec();

    match store.upload(Some("report.pdf"), bytes.clone()) {
        UploadOutcome::Stored { name, size } => {
            assert_eq!(name, "report.pdf");
            assert_eq!(size, bytes.len());
        }
        other => panic!("upload failed: {:?}", other),
    }
    assert_eq!(store.download("report.pdf"), Some(bytes));
}

#[test]
fn second_upload_is_renamed_and_leaves_original_untouched() {
    let mut store = Store::new();
    let first = b"first".to_vec();
    let second = b"second".to_vec();

    store.upload(Some("report.pdf"), first.clone());
    match store.upload(Some("report.pdf"), second.clone()) {
        UploadOutcome::Stored { name, size } => {
            assert_eq!(name, "report_copy0.pdf");
            assert_eq!(size, second.len());
        }
        other => panic!("upload failed: {:?}", other),
    }
    assert_eq!(store.download("report.pdf"), Some(first));
    assert_eq!(store.download("report_copy0.pdf"), Some(second));
    assert_eq!(store.file_count(), 2);
}

#[test]
fn traversal_name_is_rejected_without_effect() {
    let mut store = Store::new();
    let out = store.upload(Some("../../etc/passwd"), b"boom".to_vec());
    assert!(matches!(out, UploadOutcome::Rejected));
    assert_eq!(store.file_count(), 0);
    assert_eq!(store.download("../../etc/passwd"), None);
}

#[test]
fn missing_file_field_is_rejected() {
    let mut store = Store::new();
    let out = store.upload(None, b"data".to_vec());
    assert!(matches!(out, UploadOutcome::Rejected));
    assert_eq!(store.file_count(), 0);
}

#[test]
fn download_of_missing_name_is_not_found() {
    let store = Store::new();
    assert_eq!(store.download("report.pdf"), None);
}

#[test]
fn renamed_dotfile_is_stored_but_not_addressable() {
    // Renaming ".a" gives "_copy0.a": still a safe path segment, and for a
    // name with an alphanumeric extension it stays downloadable.
    let mut store = Store::new();
    store.upload(Some(".a"), b"one".to_vec());
    match store.upload(Some(".a"), b"two".to_vec()) {
        UploadOutcome::Stored { name, .. } => assert_eq!(name, "_copy0.a"),
        other => panic!("upload failed: {:?}", other),
    }
    assert_eq!(store.download("_copy0.a"), Some(b"two".to_vec()));

    // But renaming a dotfile with word-only chunks, such as ".a_b", gives
    // "_copy0.a_b", which the download grammar reads as a name with an
    // invalid extension: the file exists yet no route ever matches it.
    store.upload(Some(".a_b"), b"three".to_vec());
    match store.upload(Some(".a_b"), b"four".to_vec()) {
        UploadOutcome::Stored { name, .. } => assert_eq!(name, "_copy0.a_b"),
        other => panic!("upload failed: {:?}", other),
    }
    assert_eq!(store.file_count(), 4);
    assert_eq!(store.download("_copy0.a_b"), None);
}

#[test]
fn upload_size_reports_byte_count() {
    let mut store = Store::new();
    match store.upload(Some("empty.txt"), Vec::new()) {
        UploadOutcome::Stored { name, size } => {
            assert_eq!(name, "empty.txt");
            assert_eq!(size, 0);
        }
        other => panic!("upload failed: {:?}", other),
    }
    assert_eq!(store.download("empty.txt"), Some(Vec::new()));
}
