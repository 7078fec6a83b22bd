use lima::bundle::{describe_file, BundleBuilder, BundleError};

#[test]
fn file_record_has_mime_kind_and_digest() {
    let f = describe_file("photo.png", 3, Some("2024".to_string()), Some(b"abc".as_slice()));
    assert_eq!(f.name, "photo.png");
    assert_eq!(f.size, 3);
    assert_eq!(f.mime, "image/png");
    assert_eq!(f.kind, "image");
    assert_eq!(f.checksum.as_deref(), Some("ba7816bf8f01cfea414140de5dae2223b00361a396177a9cb410ff61f20015ad"));
    let g = describe_file("blob", 0, None, None);
    assert_eq!(g.mime, "application/octet-stream");
    assert_eq!(g.kind, "other");
    assert_eq!(g.checksum, None);
}

#[test]
fn bundle_records_failures_and_files() {
    let mut b = BundleBuilder::new();
    assert_eq!(b.accept_name("../etc"), None);
    assert_eq!(b.accept_name("good.stl"), Some("good.stl".to_string()));
    b.record(describe_file("good.stl", 10, None, None));
    b.record_failure("broken.png".to_string());
    let (meta, resp) = b.finish("bundle-1".to_string(), "2024-06-01T00:00:00Z".to_string()).unwrap();
    assert_eq!(meta.uploaded_at, "2024-06-01T00:00:00Z");
    assert_eq!(meta.files.len(), 1);
    assert_eq!(meta.files[0].kind, "model");
    assert_eq!(resp.id, "bundle-1");
    assert_eq!(resp.files, vec!["good.stl".to_string()]);
    assert_eq!(resp.failed_files, vec!["../etc".to_string(), "broken.png".to_string()]);
}

#[test]
fn bundle_without_files_is_empty() {
    let mut b = BundleBuilder::new();
    assert_eq!(b.accept_name(""), None);
    assert_eq!(b.finish("x".to_string(), "t".to_string()).unwrap_err(), BundleError::EmptyBundle);
}

#[test]
fn bundle_refuses_unsafe_recorded_names() {
    let mut b = BundleBuilder::new();
    b.record(describe_file("a/b.png", 1, None, None));
    b.record(describe_file("ok.png", 2, None, Some(b"abc".as_slice())));
    let (meta, resp) = b.finish("id".to_string(), "t".to_string()).unwrap();
    assert_eq!(resp.failed_files, vec!["a/b.png".to_string()]);
    assert_eq!(meta.files.len(), 1);
    assert_eq!(meta.files[0].size, 2);
    assert_eq!(meta.files[0].mime, "image/png");
    assert_eq!(meta.files[0].checksum.as_deref(), Some("ba7816bf8f01cfea414140de5dae2223b00361a396177a9cb410ff61f20015ad"));
}
