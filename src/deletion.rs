//! Deleting an asset and deleting a project: two orderings of a file-system step and
//! a row step inside one transaction.
//!
//! An asset loses its row first (cheap to roll back) and its file second; if the
//! file cannot be removed the row deletion is rolled back. A project loses its
//! folder first (it cannot be rolled back) and its row only afterwards; if the folder
//! cannot be removed the transaction is never committed.

use vstd::prelude::*;
use crate::import::joined;

verus! {

/// Why deleting an asset failed.
#[derive(Debug, Clone, PartialEq, Eq)]
pub enum DeleteAssetError {
    NotFound { project_id: String },
    Db(String),
    Fs(String),
}

impl DeleteAssetError {
    /// A message for people.
    pub fn to_string(&self) -> (r: String)
        ensures
            self matches DeleteAssetError::NotFound { project_id } ==> r@ == "Asset not found in project "@ + project_id@,
    {
        match self {
            DeleteAssetError::NotFound { project_id } => joined("Asset not found in project ", project_id.as_str()),
            DeleteAssetError::Db(e) => joined("Database error: ", e.as_str()),
            DeleteAssetError::Fs(e) => joined("Filesystem error: ", e.as_str()),
        }
    }
}

/// Why reading a project failed.
#[derive(Debug, Clone, PartialEq, Eq)]
pub enum GetProjectError {
    NotFound,
    Db(String),
}

impl GetProjectError {
    /// A message for people.
    pub fn to_string(&self) -> (r: String)
        ensures
            self is NotFound ==> r@ == "Project not found"@,
    {
        match self {
            GetProjectError::NotFound => "Project not found".to_owned(),
            GetProjectError::Db(e) => joined("Database error: ", e.as_str()),
        }
    }
}

/// Why deleting a project failed.
#[derive(Debug, Clone, PartialEq, Eq)]
pub enum DeleteProjectError {
    NotFound,
    DeleteFailed(String),
    Db(String),
}

#[derive(PartialEq, Eq, Structural, Clone, Copy, Debug)]
pub enum DeletePhase {
    Locating,
    DeletingRow,
    RemovingFile,
    Committing,
    Done,
}

/// What happened to the last action of a deletion.
#[derive(Debug, Clone)]
pub enum DeleteEvent {
    /// The lookup inside the transaction: the project's folder and, for an asset, its
    /// path within that folder.
    Located { folder_path: Option<String>, file_path: Option<String> },
    RowsDeleted { count: u64 },
    Succeeded,
    Failed { message: String },
}

pub enum DeleteEventView {
    Located(bool, bool),
    RowsDeleted(u64),
    Succeeded,
    Failed,
}

impl DeleteEvent {
    pub open spec fn view(&self) -> DeleteEventView {
        match self {
            DeleteEvent::Located { folder_path, file_path } => DeleteEventView::Located(
                folder_path is Some,
                file_path is Some,
            ),
            DeleteEvent::RowsDeleted { count } => DeleteEventView::RowsDeleted(*count),
            DeleteEvent::Succeeded => DeleteEventView::Succeeded,
            DeleteEvent::Failed { .. } => DeleteEventView::Failed,
        }
    }
}

pub enum FaultView {
    NotFound,
    Store,
    Files,
}

pub enum DeleteActionView {
    DeleteRow,
    RemoveFile,
    Commit,
    Abort(FaultView),
    Finish,
}

// ---------------------------------------------------------------- assets

/// What the driver must do next to delete an asset.
#[derive(Debug)]
pub enum AssetDeleteAction {
    DeleteRow,
    RemoveFile { folder_path: String, file_path: String },
    Commit,
    /// Roll the transaction back, then fail.
    Abort { error: DeleteAssetError },
    Finish,
}

impl AssetDeleteAction {
    pub open spec fn view(&self) -> DeleteActionView {
        match self {
            AssetDeleteAction::DeleteRow => DeleteActionView::DeleteRow,
            AssetDeleteAction::RemoveFile { .. } => DeleteActionView::RemoveFile,
            AssetDeleteAction::Commit => DeleteActionView::Commit,
            AssetDeleteAction::Abort { error } => DeleteActionView::Abort(
                match error {
                    DeleteAssetError::NotFound { .. } => FaultView::NotFound,
                    DeleteAssetError::Db(_) => FaultView::Store,
                    DeleteAssetError::Fs(_) => FaultView::Files,
                },
            ),
            AssetDeleteAction::Finish => DeleteActionView::Finish,
        }
    }
}

/// One step of an asset deletion.
pub open spec fn asset_step(p: DeletePhase, e: DeleteEventView) -> (DeletePhase, DeleteActionView) {
    let stop = |f: FaultView| (DeletePhase::Done, DeleteActionView::Abort(f));
    match p {
        DeletePhase::Locating => match e {
            DeleteEventView::Located(true, true) => (DeletePhase::DeletingRow, DeleteActionView::DeleteRow),
            DeleteEventView::Located(_, _) => stop(FaultView::NotFound),
            _ => stop(FaultView::Store),
        },
        DeletePhase::DeletingRow => match e {
            DeleteEventView::RowsDeleted(n) => if n == 0 {
                stop(FaultView::NotFound)
            } else {
                (DeletePhase::RemovingFile, DeleteActionView::RemoveFile)
            },
            _ => stop(FaultView::Store),
        },
        DeletePhase::RemovingFile => match e {
            DeleteEventView::Succeeded => (DeletePhase::Committing, DeleteActionView::Commit),
            _ => stop(FaultView::Files),
        },
        DeletePhase::Committing => match e {
            DeleteEventView::Succeeded => (DeletePhase::Done, DeleteActionView::Finish),
            _ => stop(FaultView::Store),
        },
        DeletePhase::Done => (DeletePhase::Done, DeleteActionView::Finish),
    }
}

/// An asset deletion in progress.
pub struct AssetDeletion {
    project_id: String,
    folder_path: String,
    file_path: String,
    phase: DeletePhase,
}

impl AssetDeletion {
    pub closed spec fn phase(&self) -> DeletePhase {
        self.phase
    }

    /// The project whose asset is deleted.
    pub closed spec fn project(&self) -> Seq<char> {
        self.project_id@
    }

    /// The project folder found by the lookup.
    pub closed spec fn folder(&self) -> Seq<char> {
        self.folder_path@
    }

    /// The asset's path within the folder, found by the lookup.
    pub closed spec fn file(&self) -> Seq<char> {
        self.file_path@
    }

    /// Starts deleting an asset of `project_id`: the driver opens a transaction and
    /// looks up the project's folder and the asset's path.
    pub fn begin(project_id: String) -> (r: AssetDeletion)
        ensures
            r.phase() == DeletePhase::Locating,
            r.project() == project_id@,
    {
        AssetDeletion { project_id, folder_path: String::new(), file_path: String::new(), phase: DeletePhase::Locating }
    }

    fn not_found(&self) -> (e: DeleteAssetError)
        ensures
            e matches DeleteAssetError::NotFound { project_id } && project_id@ == self.project(),
    {
        DeleteAssetError::NotFound { project_id: self.project_id.clone() }
    }

    /// Takes the outcome of the last action and returns the next one.
    pub fn step(&mut self, event: DeleteEvent) -> (a: AssetDeleteAction)
        requires
            old(self).phase() != DeletePhase::Done,
        ensures
            (final(self).phase(), a.view()) == asset_step(old(self).phase(), event.view()),
            final(self).project() == old(self).project(),
            old(self).phase() == DeletePhase::Locating ==> (event matches DeleteEvent::Located {
                folder_path: Some(f),
                file_path: Some(p),
            } ==> final(self).folder() == f@ && final(self).file() == p@),
            old(self).phase() != DeletePhase::Locating ==> final(self).folder() == old(self).folder()
                && final(self).file() == old(self).file(),
            a matches AssetDeleteAction::RemoveFile { folder_path, file_path } ==> folder_path@ == old(
                self,
            ).folder() && file_path@ == old(self).file(),
            a matches AssetDeleteAction::Abort { error } ==> (error matches DeleteAssetError::NotFound {
                project_id,
            } ==> project_id@ == old(self).project()),
    {
        match self.phase {
            DeletePhase::Locating => match event {
                DeleteEvent::Located { folder_path: Some(folder), file_path: Some(file) } => {
                    self.folder_path = folder;
                    self.file_path = file;
                    self.phase = DeletePhase::DeletingRow;
                    AssetDeleteAction::DeleteRow
                },
                DeleteEvent::Located { .. } => {
                    self.phase = DeletePhase::Done;
                    AssetDeleteAction::Abort { error: self.not_found() }
                },
                DeleteEvent::Failed { message } => {
                    self.phase = DeletePhase::Done;
                    AssetDeleteAction::Abort { error: DeleteAssetError::Db(message) }
                },
                _ => {
                    self.phase = DeletePhase::Done;
                    AssetDeleteAction::Abort { error: DeleteAssetError::Db("no lookup result".to_owned()) }
                },
            },
            DeletePhase::DeletingRow => match event {
                DeleteEvent::RowsDeleted { count } => {
                    if count == 0 {
                        self.phase = DeletePhase::Done;
                        AssetDeleteAction::Abort { error: self.not_found() }
                    } else {
                        self.phase = DeletePhase::RemovingFile;
                        AssetDeleteAction::RemoveFile {
                            folder_path: self.folder_path.clone(),
                            file_path: self.file_path.clone(),
                        }
                    }
                },
                DeleteEvent::Failed { message } => {
                    self.phase = DeletePhase::Done;
                    AssetDeleteAction::Abort { error: DeleteAssetError::Db(message) }
                },
                _ => {
                    self.phase = DeletePhase::Done;
                    AssetDeleteAction::Abort { error: DeleteAssetError::Db("no delete result".to_owned()) }
                },
            },
            DeletePhase::RemovingFile => match event {
                DeleteEvent::Succeeded => {
                    self.phase = DeletePhase::Committing;
                    AssetDeleteAction::Commit
                },
                DeleteEvent::Failed { message } => {
                    self.phase = DeletePhase::Done;
                    AssetDeleteAction::Abort { error: DeleteAssetError::Fs(message) }
                },
                _ => {
                    self.phase = DeletePhase::Done;
                    AssetDeleteAction::Abort { error: DeleteAssetError::Fs("no unlink result".to_owned()) }
                },
            },
            _ => match event {
                DeleteEvent::Succeeded => {
                    self.phase = DeletePhase::Done;
                    AssetDeleteAction::Finish
                },
                DeleteEvent::Failed { message } => {
                    self.phase = DeletePhase::Done;
                    AssetDeleteAction::Abort { error: DeleteAssetError::Db(message) }
                },
                _ => {
                    self.phase = DeletePhase::Done;
                    AssetDeleteAction::Abort { error: DeleteAssetError::Db("no commit result".to_owned()) }
                },
            },
        }
    }
}

/// The row and the file of one asset: whether the row is committed, whether the
/// file exists, and whether the open transaction has deleted the row.
pub struct AssetWorld {
    pub row: bool,
    pub file: bool,
    pub deleted_in_tx: bool,
}

pub open spec fn asset_answers(p: DeletePhase, w: AssetWorld, e: DeleteEventView) -> bool {
    match (p, e) {
        (DeletePhase::Locating, DeleteEventView::Located(folder, path)) => path == w.row,
        (DeletePhase::DeletingRow, DeleteEventView::RowsDeleted(n)) => (n > 0) == w.row,
        _ => true,
    }
}

pub open spec fn asset_outcome(p: DeletePhase, w: AssetWorld, e: DeleteEventView) -> AssetWorld {
    match (p, e) {
        (DeletePhase::DeletingRow, DeleteEventView::RowsDeleted(n)) => if n > 0 {
            AssetWorld { deleted_in_tx: true, ..w }
        } else {
            w
        },
        (DeletePhase::RemovingFile, DeleteEventView::Succeeded) => AssetWorld { file: false, ..w },
        (DeletePhase::Committing, DeleteEventView::Succeeded) => AssetWorld {
            row: false,
            deleted_in_tx: false,
            ..w
        },
        (DeletePhase::Committing, _) => AssetWorld { deleted_in_tx: false, ..w },
        _ => w,
    }
}

pub open spec fn rolled_back(w: AssetWorld) -> AssetWorld {
    AssetWorld { deleted_in_tx: false, ..w }
}

/// What holds between the steps of an asset deletion that started on `w0`, where
/// the row exists exactly when the file does.
pub open spec fn asset_inv(p: DeletePhase, w0: AssetWorld, w: AssetWorld) -> bool {
    &&& w0.row == w0.file
    &&& !w0.deleted_in_tx
    &&& match p {
        DeletePhase::Locating => w == w0,
        DeletePhase::DeletingRow => w == w0 && w.row,
        DeletePhase::RemovingFile => w.row && w.file && w.deleted_in_tx,
        DeletePhase::Committing => w.row && !w.file && w.deleted_in_tx,
        DeletePhase::Done => false,
    }
}

/// Asset delete consistency. A deletion that finishes leaves neither the row nor the
/// file. One that aborts because the file could not be removed leaves, once rolled
/// back, both the row and the file. One that aborts before that changes nothing.
/// (A failure of the commit itself, after the file is gone, is outside this law.)
pub proof fn lemma_asset_delete_step(p: DeletePhase, w0: AssetWorld, w: AssetWorld, e: DeleteEventView)
    requires
        asset_inv(p, w0, w),
        asset_answers(p, w, e),
    ensures
        ({
            let (next_phase, a) = asset_step(p, e);
            let w1 = asset_outcome(p, w, e);
            match a {
                DeleteActionView::Finish => !w1.row && !w1.file,
                DeleteActionView::Abort(FaultView::Files) => rolled_back(w1).row && rolled_back(w1).file,
                DeleteActionView::Abort(_) => p != DeletePhase::Committing ==> rolled_back(w1) == w0,
                _ => asset_inv(next_phase, w0, w1),
            }
        }),
{
}

/// An asset deletion fed the outcomes `events` in order, from phase `p` whose last
/// action was `a`, on `w`: the phase, the row and file, and the last action at the end.
pub open spec fn asset_replay(p: DeletePhase, w: AssetWorld, a: DeleteActionView, events: Seq<DeleteEventView>) -> (DeletePhase, AssetWorld, DeleteActionView)
    decreases events.len(),
{
    if events.len() == 0 || p == DeletePhase::Done {
        (p, w, a)
    } else {
        let (p2, a2) = asset_step(p, events[0]);
        asset_replay(p2, asset_outcome(p, w, events[0]), a2, events.drop_first())
    }
}

pub open spec fn asset_truthful(p: DeletePhase, w: AssetWorld, events: Seq<DeleteEventView>) -> bool
    decreases events.len(),
{
    events.len() == 0 || p == DeletePhase::Done || (asset_answers(p, w, events[0]) && asset_truthful(
        asset_step(p, events[0]).0,
        asset_outcome(p, w, events[0]),
        events.drop_first(),
    ))
}

proof fn lemma_asset_replay(p: DeletePhase, w0: AssetWorld, w: AssetWorld, a: DeleteActionView, events: Seq<DeleteEventView>)
    requires
        asset_inv(p, w0, w),
        asset_truthful(p, w, events),
        !(a is Finish || a is Abort),
    ensures
        ({
            let (_, w2, a2) = asset_replay(p, w, a, events);
            &&& a2 is Finish ==> !w2.row && !w2.file
            &&& a2 == DeleteActionView::Abort(FaultView::Files) ==> rolled_back(w2).row && rolled_back(w2).file
        }),
    decreases events.len(),
{
    if events.len() > 0 {
        let e = events[0];
        let (q, b) = asset_step(p, e);
        let w1 = asset_outcome(p, w, e);
        lemma_asset_delete_step(p, w0, w, e);
        if !(b is Finish || b is Abort) {
            lemma_asset_replay(q, w0, w1, b, events.drop_first());
        } else {
            assert(asset_replay(q, w1, b, events.drop_first()) == (q, w1, b));
        }
    }
}

/// Asset delete consistency over a whole deletion. Start on an asset whose row exists
/// exactly when its file does and give the deletion truthful outcomes. If it
/// finishes, neither the row nor the file is left. If it aborts because the file could
/// not be removed, the rolled-back row and the file are both still there.
pub proof fn lemma_asset_delete(w0: AssetWorld, events: Seq<DeleteEventView>)
    requires
        w0.row == w0.file,
        !w0.deleted_in_tx,
        asset_truthful(DeletePhase::Locating, w0, events),
    ensures
        ({
            let (_, w, a) = asset_replay(DeletePhase::Locating, w0, DeleteActionView::DeleteRow, events);
            &&& a is Finish ==> !w.row && !w.file
            &&& a == DeleteActionView::Abort(FaultView::Files) ==> rolled_back(w).row && rolled_back(w).file
        }),
{
    lemma_asset_replay(DeletePhase::Locating, w0, w0, DeleteActionView::DeleteRow, events);
}

// ---------------------------------------------------------------- projects

/// What the driver must do next to delete a project.
#[derive(Debug)]
pub enum ProjectDeleteAction {
    RemoveFolder { folder_path: String },
    DeleteRow,
    Commit,
    /// Drop the transaction uncommitted, then fail.
    Abort { error: DeleteProjectError },
    Finish,
}

impl ProjectDeleteAction {
    pub open spec fn view(&self) -> DeleteActionView {
        match self {
            ProjectDeleteAction::RemoveFolder { .. } => DeleteActionView::RemoveFile,
            ProjectDeleteAction::DeleteRow => DeleteActionView::DeleteRow,
            ProjectDeleteAction::Commit => DeleteActionView::Commit,
            ProjectDeleteAction::Abort { error } => DeleteActionView::Abort(
                match error {
                    DeleteProjectError::NotFound => FaultView::NotFound,
                    DeleteProjectError::Db(_) => FaultView::Store,
                    DeleteProjectError::DeleteFailed(_) => FaultView::Files,
                },
            ),
            ProjectDeleteAction::Finish => DeleteActionView::Finish,
        }
    }
}

/// One step of a project deletion: folder first, then the row, then commit.
pub open spec fn project_step(p: DeletePhase, e: DeleteEventView) -> (DeletePhase, DeleteActionView) {
    let stop = |f: FaultView| (DeletePhase::Done, DeleteActionView::Abort(f));
    match p {
        DeletePhase::Locating => match e {
            DeleteEventView::Located(true, _) => (DeletePhase::RemovingFile, DeleteActionView::RemoveFile),
            DeleteEventView::Located(false, _) => stop(FaultView::NotFound),
            _ => stop(FaultView::Store),
        },
        DeletePhase::RemovingFile => match e {
            DeleteEventView::Succeeded => (DeletePhase::DeletingRow, DeleteActionView::DeleteRow),
            _ => stop(FaultView::Files),
        },
        DeletePhase::DeletingRow => match e {
            DeleteEventView::Succeeded => (DeletePhase::Committing, DeleteActionView::Commit),
            DeleteEventView::RowsDeleted(_) => (DeletePhase::Committing, DeleteActionView::Commit),
            _ => stop(FaultView::Store),
        },
        DeletePhase::Committing => match e {
            DeleteEventView::Succeeded => (DeletePhase::Done, DeleteActionView::Finish),
            _ => stop(FaultView::Store),
        },
        DeletePhase::Done => (DeletePhase::Done, DeleteActionView::Finish),
    }
}

/// A project deletion in progress.
pub struct ProjectDeletion {
    phase: DeletePhase,
}

impl ProjectDeletion {
    pub closed spec fn phase(&self) -> DeletePhase {
        self.phase
    }

    /// Starts deleting a project: the driver opens a transaction and looks up the
    /// project's folder.
    pub fn begin() -> (r: ProjectDeletion)
        ensures
            r.phase() == DeletePhase::Locating,
    {
        ProjectDeletion { phase: DeletePhase::Locating }
    }

    /// Takes the outcome of the last action and returns the next one.
    pub fn step(&mut self, event: DeleteEvent) -> (a: ProjectDeleteAction)
        requires
            old(self).phase() != DeletePhase::Done,
        ensures
            (final(self).phase(), a.view()) == project_step(old(self).phase(), event.view()),
            a matches ProjectDeleteAction::RemoveFolder { folder_path } ==> (event matches DeleteEvent::Located {
                folder_path: Some(f),
                ..
            } && folder_path@ == f@),
    {
        match self.phase {
            DeletePhase::Locating => match event {
                DeleteEvent::Located { folder_path: Some(folder_path), .. } => {
                    self.phase = DeletePhase::RemovingFile;
                    ProjectDeleteAction::RemoveFolder { folder_path }
                },
                DeleteEvent::Located { folder_path: None, .. } => {
                    self.phase = DeletePhase::Done;
                    ProjectDeleteAction::Abort { error: DeleteProjectError::NotFound }
                },
                DeleteEvent::Failed { message } => {
                    self.phase = DeletePhase::Done;
                    ProjectDeleteAction::Abort { error: DeleteProjectError::Db(message) }
                },
                _ => {
                    self.phase = DeletePhase::Done;
                    ProjectDeleteAction::Abort { error: DeleteProjectError::Db("no lookup result".to_owned()) }
                },
            },
            DeletePhase::RemovingFile => match event {
                DeleteEvent::Succeeded => {
                    self.phase = DeletePhase::DeletingRow;
                    ProjectDeleteAction::DeleteRow
                },
                DeleteEvent::Failed { message } => {
                    self.phase = DeletePhase::Done;
                    ProjectDeleteAction::Abort { error: DeleteProjectError::DeleteFailed(message) }
                },
                _ => {
                    self.phase = DeletePhase::Done;
                    ProjectDeleteAction::Abort {
                        error: DeleteProjectError::DeleteFailed("no removal result".to_owned()),
                    }
                },
            },
            DeletePhase::DeletingRow => match event {
                DeleteEvent::Succeeded | DeleteEvent::RowsDeleted { .. } => {
                    self.phase = DeletePhase::Committing;
                    ProjectDeleteAction::Commit
                },
                DeleteEvent::Failed { message } => {
                    self.phase = DeletePhase::Done;
                    ProjectDeleteAction::Abort { error: DeleteProjectError::Db(message) }
                },
                _ => {
                    self.phase = DeletePhase::Done;
                    ProjectDeleteAction::Abort { error: DeleteProjectError::Db("no delete result".to_owned()) }
                },
            },
            _ => match event {
                DeleteEvent::Succeeded => {
                    self.phase = DeletePhase::Done;
                    ProjectDeleteAction::Finish
                },
                DeleteEvent::Failed { message } => {
                    self.phase = DeletePhase::Done;
                    ProjectDeleteAction::Abort { error: DeleteProjectError::Db(message) }
                },
                _ => {
                    self.phase = DeletePhase::Done;
                    ProjectDeleteAction::Abort { error: DeleteProjectError::Db("no commit result".to_owned()) }
                },
            },
        }
    }
}

/// A project's committed row, its folder, and whether the open transaction has
/// deleted the row.
pub struct ProjectWorld {
    pub row: bool,
    pub folder: bool,
    pub deleted_in_tx: bool,
}

pub open spec fn project_answers(p: DeletePhase, w: ProjectWorld, e: DeleteEventView) -> bool {
    match (p, e) {
        (DeletePhase::Locating, DeleteEventView::Located(found, _)) => found == w.row,
        _ => true,
    }
}

pub open spec fn project_outcome(p: DeletePhase, w: ProjectWorld, e: DeleteEventView) -> ProjectWorld {
    match (p, e) {
        (DeletePhase::RemovingFile, DeleteEventView::Succeeded) => ProjectWorld { folder: false, ..w },
        (DeletePhase::DeletingRow, DeleteEventView::Succeeded) => ProjectWorld { deleted_in_tx: true, ..w },
        (DeletePhase::DeletingRow, DeleteEventView::RowsDeleted(_)) => ProjectWorld {
            deleted_in_tx: true,
            ..w
        },
        (DeletePhase::Committing, DeleteEventView::Succeeded) => ProjectWorld {
            row: !w.deleted_in_tx && w.row,
            deleted_in_tx: false,
            ..w
        },
        (DeletePhase::Committing, _) => ProjectWorld { deleted_in_tx: false, ..w },
        _ => w,
    }
}

/// Between the steps of a project deletion that started on `w0`: the committed row
/// is never gone while the folder is still there.
pub open spec fn project_inv(p: DeletePhase, w0: ProjectWorld, w: ProjectWorld) -> bool {
    &&& !w0.deleted_in_tx
    &&& (w.row || !w.folder)
    &&& match p {
        DeletePhase::Locating => w == w0,
        DeletePhase::RemovingFile => w == w0 && w.row,
        DeletePhase::DeletingRow => w0.row && w.row && !w.folder && !w.deleted_in_tx,
        DeletePhase::Committing => w0.row && w.row && !w.folder && w.deleted_in_tx,
        DeletePhase::Done => false,
    }
}

/// Project delete ordering. At every step no committed state has the row gone while
/// the folder remains; if the folder cannot be removed, the deletion aborts and the
/// row is still there, unchanged.
pub proof fn lemma_project_delete_step(p: DeletePhase, w0: ProjectWorld, w: ProjectWorld, e: DeleteEventView)
    requires
        project_inv(p, w0, w),
        project_answers(p, w, e),
        w0.row || !w0.folder,
    ensures
        ({
            let (next_phase, a) = project_step(p, e);
            let w1 = project_outcome(p, w, e);
            &&& (w1.row || !w1.folder)
            &&& match a {
                DeleteActionView::Finish => !w1.row && !w1.folder,
                DeleteActionView::Abort(FaultView::Files) => w1 == w0 && w1.row,
                DeleteActionView::Abort(_) => w1.row == w0.row,
                _ => project_inv(next_phase, w0, w1),
            }
        }),
{
}

/// A project deletion fed the outcomes `events` in order.
pub open spec fn project_replay(p: DeletePhase, w: ProjectWorld, a: DeleteActionView, events: Seq<DeleteEventView>) -> (DeletePhase, ProjectWorld, DeleteActionView)
    decreases events.len(),
{
    if events.len() == 0 || p == DeletePhase::Done {
        (p, w, a)
    } else {
        let (p2, a2) = project_step(p, events[0]);
        project_replay(p2, project_outcome(p, w, events[0]), a2, events.drop_first())
    }
}

pub open spec fn project_truthful(p: DeletePhase, w: ProjectWorld, events: Seq<DeleteEventView>) -> bool
    decreases events.len(),
{
    events.len() == 0 || p == DeletePhase::Done || (project_answers(p, w, events[0]) && project_truthful(
        project_step(p, events[0]).0,
        project_outcome(p, w, events[0]),
        events.drop_first(),
    ))
}

proof fn lemma_project_replay(p: DeletePhase, w0: ProjectWorld, w: ProjectWorld, a: DeleteActionView, events: Seq<DeleteEventView>)
    requires
        project_inv(p, w0, w),
        project_truthful(p, w, events),
        !(a is Finish || a is Abort),
        w0.row || !w0.folder,
    ensures
        ({
            let (_, w2, a2) = project_replay(p, w, a, events);
            &&& (w2.row || !w2.folder)
            &&& a2 is Finish ==> !w2.row && !w2.folder
            &&& a2 == DeleteActionView::Abort(FaultView::Files) ==> w2 == w0 && w2.row
        }),
    decreases events.len(),
{
    if events.len() > 0 {
        let e = events[0];
        let (q, b) = project_step(p, e);
        let w1 = project_outcome(p, w, e);
        lemma_project_delete_step(p, w0, w, e);
        if !(b is Finish || b is Abort) {
            lemma_project_replay(q, w0, w1, b, events.drop_first());
        } else {
            assert(project_replay(q, w1, b, events.drop_first()) == (q, w1, b));
        }
    }
}

/// Project delete ordering over a whole deletion. Start on a project whose row
/// exists, give the deletion truthful outcomes, and at no point is the row gone while
/// the folder remains. If the folder cannot be removed, the deletion aborts with the
/// row still there and nothing changed; if it finishes, row and folder are both gone.
pub proof fn lemma_project_delete(w0: ProjectWorld, events: Seq<DeleteEventView>)
    requires
        w0.row,
        !w0.deleted_in_tx,
        project_truthful(DeletePhase::Locating, w0, events),
    ensures
        ({
            let (_, w, a) = project_replay(DeletePhase::Locating, w0, DeleteActionView::DeleteRow, events);
            &&& (w.row || !w.folder)
            &&& a is Finish ==> !w.row && !w.folder
            &&& a == DeleteActionView::Abort(FaultView::Files) ==> w == w0 && w.row
        }),
{
    lemma_project_replay(DeletePhase::Locating, w0, w0, DeleteActionView::DeleteRow, events);
}

} // verus!
