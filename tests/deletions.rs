use lima::deletion::{
    AssetDeleteAction, AssetDeletion, DeleteAssetError, DeleteEvent, DeleteProjectError, ProjectDeleteAction,
    ProjectDeletion,
};

fn located(folder: Option<&str>, file: Option<&str>) -> DeleteEvent {
    DeleteEvent::Located { folder_path: folder.map(|s| s.to_string()), file_path: file.map(|s| s.to_string()) }
}

#[test]
fn asset_delete_removes_row_then_file() {
    let mut d = AssetDeletion::begin("p1".to_string());
    assert!(matches!(d.step(located(Some("proj"), Some("a.png"))), AssetDeleteAction::DeleteRow));
    match d.step(DeleteEvent::RowsDeleted { count: 1 }) {
        AssetDeleteAction::RemoveFile { folder_path, file_path } => {
            assert_eq!(folder_path, "proj");
            assert_eq!(file_path, "a.png");
        }
        other => panic!("unexpected {:?}", other),
    }
    assert!(matches!(d.step(DeleteEvent::Succeeded), AssetDeleteAction::Commit));
    assert!(matches!(d.step(DeleteEvent::Succeeded), AssetDeleteAction::Finish));
}

#[test]
fn asset_delete_rolls_back_when_unlink_fails() {
    let mut d = AssetDeletion::begin("p1".to_string());
    d.step(located(Some("proj"), Some("a.png")));
    d.step(DeleteEvent::RowsDeleted { count: 1 });
    match d.step(DeleteEvent::Failed { message: "permission denied".to_string() }) {
        AssetDeleteAction::Abort { error } => {
            assert_eq!(error, DeleteAssetError::Fs("permission denied".to_string()))
        }
        other => panic!("unexpected {:?}", other),
    }
}

#[test]
fn asset_delete_reports_not_found() {
    let mut d = AssetDeletion::begin("p1".to_string());
    match d.step(located(None, None)) {
        AssetDeleteAction::Abort { error } => {
            assert_eq!(error, DeleteAssetError::NotFound { project_id: "p1".to_string() })
        }
        other => panic!("unexpected {:?}", other),
    }
    let mut d = AssetDeletion::begin("p1".to_string());
    assert!(matches!(d.step(located(Some("proj"), None)), AssetDeleteAction::Abort { .. }));
    let mut d = AssetDeletion::begin("p1".to_string());
    d.step(located(Some("proj"), Some("a")));
    match d.step(DeleteEvent::RowsDeleted { count: 0 }) {
        AssetDeleteAction::Abort { error } => assert!(matches!(error, DeleteAssetError::NotFound { .. })),
        other => panic!("unexpected {:?}", other),
    }
    let mut d = AssetDeletion::begin("p1".to_string());
    match d.step(DeleteEvent::Failed { message: "io".to_string() }) {
        AssetDeleteAction::Abort { error } => assert_eq!(error, DeleteAssetError::Db("io".to_string())),
        other => panic!("unexpected {:?}", other),
    }
}

#[test]
fn project_delete_removes_folder_before_row() {
    let mut d = ProjectDeletion::begin();
    match d.step(located(Some("proj"), None)) {
        ProjectDeleteAction::RemoveFolder { folder_path } => assert_eq!(folder_path, "proj"),
        other => panic!("unexpected {:?}", other),
    }
    assert!(matches!(d.step(DeleteEvent::Succeeded), ProjectDeleteAction::DeleteRow));
    assert!(matches!(d.step(DeleteEvent::RowsDeleted { count: 1 }), ProjectDeleteAction::Commit));
    assert!(matches!(d.step(DeleteEvent::Succeeded), ProjectDeleteAction::Finish));
}

#[test]
fn project_delete_keeps_row_when_folder_removal_fails() {
    let mut d = ProjectDeletion::begin();
    d.step(located(Some("proj"), None));
    match d.step(DeleteEvent::Failed { message: "busy".to_string() }) {
        ProjectDeleteAction::Abort { error } => {
            assert_eq!(error, DeleteProjectError::DeleteFailed("busy".to_string()))
        }
        other => panic!("unexpected {:?}", other),
    }
    let mut d = ProjectDeletion::begin();
    match d.step(located(None, None)) {
        ProjectDeleteAction::Abort { error } => assert_eq!(error, DeleteProjectError::NotFound),
        other => panic!("unexpected {:?}", other),
    }
}
