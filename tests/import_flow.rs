use std::collections::BTreeSet;

use lima::import::{ImportAction, ImportEvent, ImportFromBundleError, ImportRun};
use lima::models::{BundleMeta, FileMeta, ProjectAssetRow};

fn file(name: &str) -> FileMeta {
    FileMeta {
        name: name.to_string(),
        size: 3,
        mtime: Some("2024-01-01T00:00:00Z".to_string()),
        mime: "application/octet-stream".to_string(),
        kind: "other".to_string(),
        checksum: None,
    }
}

fn manifest(names: &[&str]) -> BundleMeta {
    BundleMeta { uploaded_at: "2024-05-05T00:00:00Z".to_string(), files: names.iter().map(|n| file(n)).collect() }
}

/// In-memory stand-ins for the two stores.
struct Stores {
    staging: BTreeSet<String>,
    project: BTreeSet<String>,
    pending: Vec<String>,
    rows: BTreeSet<String>,
    fail_move: Option<String>,
    fail_upsert: Option<String>,
    fail_commit: bool,
    upserted_ids: Vec<String>,
}

impl Stores {
    fn new(staged: &[&str], existing: &[&str]) -> Stores {
        Stores {
            staging: staged.iter().map(|s| s.to_string()).collect(),
            project: existing.iter().map(|s| s.to_string()).collect(),
            pending: Vec::new(),
            rows: BTreeSet::new(),
            fail_move: None,
            fail_upsert: None,
            fail_commit: false,
            upserted_ids: Vec::new(),
        }
    }

    fn run(&mut self, meta: BundleMeta) -> (Result<Vec<ProjectAssetRow>, ImportFromBundleError>, Vec<String>) {
        let (mut run, mut action) = ImportRun::begin("p1".to_string(), meta);
        let mut undo_seen = Vec::new();
        loop {
            let event = match action {
                ImportAction::Probe { name } => ImportEvent::Probed {
                    source_exists: self.staging.contains(&name),
                    destination_exists: self.project.contains(&name),
                },
                ImportAction::Move { name } => {
                    if self.fail_move.as_deref() == Some(name.as_str()) {
                        ImportEvent::Failed { message: "disk full".to_string() }
                    } else {
                        self.staging.remove(&name);
                        self.project.insert(name);
                        ImportEvent::Succeeded
                    }
                }
                ImportAction::Upsert { asset } => {
                    assert_eq!(asset.project_id, "p1");
                    assert_eq!(asset.created_at, "2024-05-05T00:00:00Z");
                    assert_eq!(asset.mtime, "2024-01-01T00:00:00Z");
                    assert_eq!(asset.id.len(), 36);
                    if self.fail_upsert.as_deref() == Some(asset.file_path.as_str()) {
                        ImportEvent::Failed { message: "constraint".to_string() }
                    } else {
                        self.upserted_ids.push(asset.id.clone());
                        self.pending.push(asset.file_path);
                        ImportEvent::Succeeded
                    }
                }
                ImportAction::Commit => {
                    let pending = std::mem::take(&mut self.pending);
                    if self.fail_commit {
                        ImportEvent::Failed { message: "busy".to_string() }
                    } else {
                        self.rows.extend(pending);
                        ImportEvent::Succeeded
                    }
                }
                ImportAction::Abort { undo, error } => {
                    for name in &undo {
                        self.project.remove(name);
                    }
                    self.pending.clear();
                    undo_seen = undo;
                    return (Err(error), undo_seen);
                }
                ImportAction::Finish { imported } => {
                    self.staging.clear();
                    return (Ok(imported), undo_seen);
                }
            };
            action = run.step(event);
        }
    }
}

#[test]
fn import_conflict_on_third_file_leaves_nothing() {
    let mut stores = Stores::new(&["a.png", "b.stl", "c.txt"], &["c.txt"]);
    let (r, undo) = stores.run(manifest(&["a.png", "b.stl", "c.txt"]));
    assert_eq!(r.unwrap_err(), ImportFromBundleError::Conflict { name: "c.txt".to_string() });
    assert_eq!(undo, vec!["b.stl".to_string(), "a.png".to_string()]);
    assert_eq!(stores.project, ["c.txt".to_string()].into_iter().collect());
    assert!(stores.rows.is_empty());
    assert!(stores.pending.is_empty());
}

#[test]
fn import_moves_every_file_with_a_row() {
    let mut stores = Stores::new(&["a.png", "b.stl"], &["old.txt"]);
    let (r, _) = stores.run(manifest(&["a.png", "b.stl"]));
    let rows = r.unwrap();
    assert_eq!(rows.iter().map(|r| r.file_path.as_str()).collect::<Vec<_>>(), vec!["a.png", "b.stl"]);
    assert_eq!(rows[0].size_bytes, 3);
    assert_eq!(rows[1].kind, "other");
    assert_eq!(rows[0].id.len(), 36);
    assert_ne!(rows[0].id, rows[1].id);
    assert_eq!(rows.iter().map(|r| r.id.clone()).collect::<Vec<_>>(), stores.upserted_ids);
    assert_eq!(stores.project.len(), 3);
    assert_eq!(stores.rows.len(), 2);
}

#[test]
fn import_of_empty_manifest_finishes_at_once() {
    let (run, action) = ImportRun::begin("p1".to_string(), manifest(&[]));
    drop(run);
    match action {
        ImportAction::Finish { imported } => assert!(imported.is_empty()),
        other => panic!("unexpected {:?}", other),
    }
}

#[test]
fn import_missing_source_is_reported() {
    let mut stores = Stores::new(&["a.png"], &[]);
    let (r, _) = stores.run(manifest(&["a.png", "gone.png"]));
    assert_eq!(r.unwrap_err(), ImportFromBundleError::MissingFile { name: "gone.png".to_string() });
    assert!(stores.project.is_empty());
}

#[test]
fn import_move_failure_undoes_earlier_moves() {
    let mut stores = Stores::new(&["a.png", "b.png"], &[]);
    stores.fail_move = Some("b.png".to_string());
    let (r, undo) = stores.run(manifest(&["a.png", "b.png"]));
    assert_eq!(r.unwrap_err(), ImportFromBundleError::FileSystemError("disk full".to_string()));
    assert_eq!(undo, vec!["a.png".to_string()]);
    assert!(stores.project.is_empty());
}

#[test]
fn import_store_failures_undo_all_moves() {
    let mut stores = Stores::new(&["a.png", "b.png"], &[]);
    stores.fail_upsert = Some("b.png".to_string());
    let (r, undo) = stores.run(manifest(&["a.png", "b.png"]));
    assert_eq!(r.unwrap_err(), ImportFromBundleError::DatabaseError("constraint".to_string()));
    assert_eq!(undo, vec!["b.png".to_string(), "a.png".to_string()]);
    assert!(stores.project.is_empty());

    let mut stores = Stores::new(&["a.png", "b.png"], &[]);
    stores.fail_commit = true;
    let (r, undo) = stores.run(manifest(&["a.png", "b.png"]));
    assert_eq!(r.unwrap_err(), ImportFromBundleError::DatabaseError("busy".to_string()));
    assert_eq!(undo.len(), 2);
    assert!(stores.project.is_empty());
    assert!(stores.rows.is_empty());
}

#[test]
fn import_repeated_name_conflicts_with_itself() {
    let mut stores = Stores::new(&["a.png"], &[]);
    let (r, _) = stores.run(manifest(&["a.png", "a.png"]));
    assert!(r.is_err());
    assert!(stores.project.is_empty());
}
