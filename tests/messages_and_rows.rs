use lima::deletion::{DeleteAssetError, GetProjectError};
use lima::import::{check_bundle, joined, new_asset_row, ImportFromBundleError};
use lima::models::BundleMeta;
use lima::requests::{upload_response, uploaded_at_path, UploadedAsset};
use lima::tags::new_tag_row;

#[test]
fn import_errors_read_as_messages() {
    assert_eq!(ImportFromBundleError::BundleNotFound.to_string(), "Bundle not found");
    assert_eq!(ImportFromBundleError::MetaNotFound.to_string(), "Missing meta file in bundle");
    assert_eq!(ImportFromBundleError::ProjectNotFound.to_string(), "Project not found");
    assert_eq!(ImportFromBundleError::MissingFile { name: "a.png".to_string() }.to_string(), "Missing file in bundle: a.png");
    assert_eq!(ImportFromBundleError::Conflict { name: "b".to_string() }.to_string(), "Conflict with existing file: b");
    assert_eq!(ImportFromBundleError::FileSystemError("x".to_string()).to_string(), "File system error: x");
    assert_eq!(ImportFromBundleError::DatabaseError("y".to_string()).to_string(), "Database error: y");
}

#[test]
fn delete_and_read_errors_read_as_messages() {
    assert_eq!(DeleteAssetError::NotFound { project_id: "p1".to_string() }.to_string(), "Asset not found in project p1");
    assert_eq!(DeleteAssetError::Db("locked".to_string()).to_string(), "Database error: locked");
    assert_eq!(DeleteAssetError::Fs("denied".to_string()).to_string(), "Filesystem error: denied");
    assert_eq!(GetProjectError::NotFound.to_string(), "Project not found");
    assert_eq!(GetProjectError::Db("z".to_string()).to_string(), "Database error: z");
    assert_eq!(joined("ab", "cd"), "abcd");
}

#[test]
fn bundle_check_reports_what_is_missing() {
    let meta = BundleMeta { uploaded_at: "t".to_string(), files: vec![] };
    assert_eq!(check_bundle(false, Some(meta.clone())), Err(ImportFromBundleError::BundleNotFound));
    assert_eq!(check_bundle(true, None), Err(ImportFromBundleError::MetaNotFound));
    assert_eq!(check_bundle(true, Some(meta.clone())), Ok(meta));
}

#[test]
fn new_rows_get_fresh_ids() {
    let tag = new_tag_row("red", "2024");
    assert_eq!(tag.name, "red");
    assert_eq!(tag.color, "#01B891");
    assert_eq!(tag.created_at, "2024");
    assert_eq!(tag.id.len(), 36);
    assert_ne!(new_tag_row("red", "2024").id, tag.id);
    let (row, inserted) = new_asset_row("p1", "a.png", "image", 5, "m", "image/png", "now");
    assert_eq!(row.id, inserted.id);
    assert_eq!(row.id.len(), 36);
    assert_eq!((row.project_id.as_str(), row.file_path.as_str(), row.kind.as_str()), ("p1", "a.png", "image"));
    assert_eq!((row.size_bytes, row.mtime.as_str(), row.mime.as_str()), (5, "m", "image/png"));
    assert_eq!(row.file_hash, None);
    assert_eq!((row.created_at.as_str(), row.updated_at.as_str()), ("now", "now"));
    assert_eq!(inserted.file_path, "a.png");
}

#[test]
fn upload_helpers() {
    let assets = vec![
        UploadedAsset { id: "1".to_string(), file_path: "a.png".to_string(), kind: "image".to_string() },
        UploadedAsset { id: "2".to_string(), file_path: "b.png".to_string(), kind: "image".to_string() },
    ];
    assert_eq!(uploaded_at_path(&assets, &"b.png".to_string()), Some(1));
    assert_eq!(uploaded_at_path(&assets, &"c.png".to_string()), None);
    let resp = upload_response("p1".to_string(), assets);
    assert_eq!(resp.added, 2);
    assert_eq!(resp.project_id, "p1");
}
