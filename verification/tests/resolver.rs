use filedrop::resolve::candidate_name;
use filedrop::store::{ResolveError, Store, UploadOutcome};

fn stored_name(out: UploadOutcome) -> String {
    match out {
        UploadOutcome::Stored { name, .. } => name,
        other => panic!("expected a stored file, got {:?}", other),
    }
}

#[test]
fn candidate_goes_before_first_dot() {
    assert_eq!(candidate_name("photo.jpg", 0), "photo_copy0.jpg");
    assert_eq!(candidate_name("photo.jpg", 1), "photo_copy1.jpg");
    assert_eq!(candidate_name("archive.tar.gz", 7), "archive_copy7.tar.gz");
    assert_eq!(candidate_name(".bashrc", 0), "_copy0.bashrc");
}

#[test]
fn candidate_appends_when_no_dot() {
    assert_eq!(candidate_name("README", 0), "README_copy0");
    assert_eq!(candidate_name("README", 1), "README_copy1");
}

#[test]
fn candidate_renders_whole_counter() {
    assert_eq!(candidate_name("a.b", 1234), "a_copy1234.b");
    assert_eq!(candidate_name("a.b", 4294967295), "a_copy4294967295.b");
}

#[test]
fn resolves_taken_name_to_first_free_candidate() {
    let mut store = Store::new();
    assert_eq!(store.make_dst_name("photo.jpg"), Ok(None));

    let out = store.upload(Some("photo.jpg"), vec![1]);
    assert_eq!(stored_name(out), "photo.jpg");
    assert_eq!(
        store.make_dst_name("photo.jpg"),
        Ok(Some("photo_copy0.jpg".to_string()))
    );

    let out = store.upload(Some("photo.jpg"), vec![2]);
    assert_eq!(stored_name(out), "photo_copy0.jpg");
    assert_eq!(
        store.make_dst_name("photo.jpg"),
        Ok(Some("photo_copy1.jpg".to_string()))
    );
}

#[test]
fn resolves_past_existing_copies_without_extension() {
    let mut store = Store::new();
    let out = store.upload(Some("README"), vec![1]);
    assert_eq!(stored_name(out), "README");
    let out = store.upload(Some("README"), vec![2]);
    assert_eq!(stored_name(out), "README_copy0");
    assert_eq!(
        store.make_dst_name("README"),
        Ok(Some("README_copy1".to_string()))
    );
}

#[test]
fn resolve_error_is_comparable() {
    // The exhaustion error itself would take 2^32 existing copies to
    // provoke; here we only pin down the error value the resolver uses.
    assert_eq!(ResolveError::Exhausted, ResolveError::Exhausted);
}
