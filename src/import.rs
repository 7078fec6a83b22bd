//! Importing a bundle into a project: the staged files move into the project folder
//! and matching asset rows are written in one transaction, all or nothing.
//!
//! The coordinator is a step machine. It tells its driver which action to perform
//! next (probe a file, move it, upsert its row, commit, or abort with the list of
//! files to delete), and the driver answers with what happened.

use vstd::prelude::*;
use crate::models::{FileMeta, BundleMeta, ProjectAssetRow, manifest_names};
use crate::ids::new_id;
use crate::models::InsertedAsset;
use crate::text::{chars_of, string_of};

verus! {

/// Why an import failed.
#[derive(Debug, Clone, PartialEq, Eq)]
pub enum ImportFromBundleError {
    BundleNotFound,
    MetaNotFound,
    ProjectNotFound,
    MissingFile { name: String },
    Conflict { name: String },
    FileSystemError(String),
    DatabaseError(String),
}

/// `prefix` followed by `rest`.
pub fn joined(prefix: &str, rest: &str) -> (r: String)
    ensures
        r@ == prefix@ + rest@,
{
    let mut a = chars_of(prefix);
    let mut b = chars_of(rest);
    a.append(&mut b);
    string_of(&a)
}

impl ImportFromBundleError {
    /// A message for people.
    pub fn to_string(&self) -> (r: String)
        ensures
            self matches ImportFromBundleError::MissingFile { name } ==> r@ == "Missing file in bundle: "@ + name@,
            self matches ImportFromBundleError::Conflict { name } ==> r@ == "Conflict with existing file: "@ + name@,
    {
        match self {
            ImportFromBundleError::BundleNotFound => "Bundle not found".to_owned(),
            ImportFromBundleError::MetaNotFound => "Missing meta file in bundle".to_owned(),
            ImportFromBundleError::ProjectNotFound => "Project not found".to_owned(),
            ImportFromBundleError::MissingFile { name } => joined("Missing file in bundle: ", name.as_str()),
            ImportFromBundleError::Conflict { name } => joined("Conflict with existing file: ", name.as_str()),
            ImportFromBundleError::DatabaseError(e) => joined("Database error: ", e.as_str()),
            ImportFromBundleError::FileSystemError(e) => joined("File system error: ", e.as_str()),
        }
    }
}

/// The row upserted for one imported file, keyed by `(project_id, file_path)`.
#[derive(Debug, Clone, PartialEq, Eq)]
pub struct AssetUpsert {
    pub id: String,
    pub project_id: String,
    pub file_path: String,
    pub kind: String,
    pub size_bytes: i64,
    pub mtime: String,
    pub mime: String,
    pub file_hash: Option<String>,
    pub created_at: String,
    pub updated_at: String,
}

/// A new asset row of `project_id` at `file_path`, created at `now`, with a fresh id
/// and no digest; and what inserting it reports.
pub fn new_asset_row(
    project_id: &str,
    file_path: &str,
    kind: &str,
    size_bytes: i64,
    mtime: &str,
    mime: &str,
    now: &str,
) -> (r: (AssetUpsert, InsertedAsset))
    ensures
        r.0.id@.len() == 36,
        r.0.project_id@ == project_id@ && r.0.file_path@ == file_path@ && r.0.kind@ == kind@,
        r.0.size_bytes == size_bytes && r.0.mtime@ == mtime@ && r.0.mime@ == mime@,
        r.0.file_hash is None && r.0.created_at@ == now@ && r.0.updated_at@ == now@,
        r.1.id@ == r.0.id@ && r.1.file_path@ == file_path@ && r.1.kind@ == kind@,
{
    let id = new_id();
    let inserted = InsertedAsset { id: id.clone(), file_path: file_path.to_owned(), kind: kind.to_owned() };
    let row = AssetUpsert {
        id,
        project_id: project_id.to_owned(),
        file_path: file_path.to_owned(),
        kind: kind.to_owned(),
        size_bytes,
        mtime: mtime.to_owned(),
        mime: mime.to_owned(),
        file_hash: None,
        created_at: now.to_owned(),
        updated_at: now.to_owned(),
    };
    (row, inserted)
}

/// Checks the staging directory of a bundle before an import: it must exist and hold a
/// readable manifest.
pub fn check_bundle(bundle_found: bool, meta: Option<BundleMeta>) -> (r: Result<BundleMeta, ImportFromBundleError>)
    ensures
        !bundle_found ==> r == Err::<BundleMeta, ImportFromBundleError>(ImportFromBundleError::BundleNotFound),
        bundle_found && meta is None ==> r == Err::<BundleMeta, ImportFromBundleError>(ImportFromBundleError::MetaNotFound),
        bundle_found && meta is Some ==> r == Ok::<BundleMeta, ImportFromBundleError>(meta->Some_0),
{
    if !bundle_found {
        return Err(ImportFromBundleError::BundleNotFound);
    }
    match meta {
        None => Err(ImportFromBundleError::MetaNotFound),
        Some(m) => Ok(m),
    }
}

/// What the driver must do next.
#[derive(Debug)]
pub enum ImportAction {
    /// Report whether `name` exists in the staging directory and in the project folder.
    Probe { name: String },
    /// Move `name` from the staging directory into the project folder.
    Move { name: String },
    /// Upsert the row inside the open transaction.
    Upsert { asset: AssetUpsert },
    /// Commit the transaction.
    Commit,
    /// Delete these project files, in this order, ignoring failures; roll back the
    /// transaction; fail with `error`.
    Abort { undo: Vec<String>, error: ImportFromBundleError },
    /// Remove the staging directory, ignoring failure; succeed with `imported`.
    Finish { imported: Vec<ProjectAssetRow> },
}

/// What happened to the last action.
#[derive(Debug, Clone)]
pub enum ImportEvent {
    Probed { source_exists: bool, destination_exists: bool },
    Succeeded,
    Failed { message: String },
}

#[derive(PartialEq, Eq, Structural, Clone, Copy, Debug)]
pub enum ImportPhase {
    Probe,
    Move,
    Upsert,
    Commit,
    Finished,
}

/// An import in progress.
pub struct ImportRun {
    current: Option<ProjectAssetRow>,
    project_id: String,
    uploaded_at: String,
    files: Vec<FileMeta>,
    index: usize,
    phase: ImportPhase,
    moved: Vec<String>,
    imported: Vec<ProjectAssetRow>,
}

pub struct RunView {
    pub names: Seq<Seq<char>>,
    pub index: nat,
    pub phase: ImportPhase,
    pub moved: Seq<Seq<char>>,
    pub imported: Seq<Seq<char>>,
}

pub open spec fn views(s: Seq<String>) -> Seq<Seq<char>> {
    s.map_values(|x: String| x@)
}

pub open spec fn paths(rows: Seq<ProjectAssetRow>) -> Seq<Seq<char>> {
    rows.map_values(|r: ProjectAssetRow| r.file_path@)
}

impl View for ImportRun {
    type V = RunView;

    closed spec fn view(&self) -> RunView {
        RunView {
            names: manifest_names(self.files@),
            index: self.index as nat,
            phase: self.phase,
            moved: views(self.moved@),
            imported: paths(self.imported@),
        }
    }
}

pub enum EventView {
    Probed(bool, bool),
    Succeeded,
    Failed,
}

impl ImportEvent {
    pub open spec fn view(&self) -> EventView {
        match self {
            ImportEvent::Probed { source_exists, destination_exists } => EventView::Probed(
                *source_exists,
                *destination_exists,
            ),
            ImportEvent::Succeeded => EventView::Succeeded,
            ImportEvent::Failed { .. } => EventView::Failed,
        }
    }
}

pub enum FailureView {
    MissingFile(Seq<char>),
    Conflict(Seq<char>),
    FileSystem,
    Database,
    Other,
}

pub open spec fn failure_view(e: ImportFromBundleError) -> FailureView {
    match e {
        ImportFromBundleError::MissingFile { name } => FailureView::MissingFile(name@),
        ImportFromBundleError::Conflict { name } => FailureView::Conflict(name@),
        ImportFromBundleError::FileSystemError(_) => FailureView::FileSystem,
        ImportFromBundleError::DatabaseError(_) => FailureView::Database,
        _ => FailureView::Other,
    }
}

pub enum ActionView {
    Probe(Seq<char>),
    Move(Seq<char>),
    Upsert(Seq<char>),
    Commit,
    Abort(Seq<Seq<char>>, FailureView),
    Finish(Seq<Seq<char>>),
}

impl ImportAction {
    pub open spec fn view(&self) -> ActionView {
        match self {
            ImportAction::Probe { name } => ActionView::Probe(name@),
            ImportAction::Move { name } => ActionView::Move(name@),
            ImportAction::Upsert { asset } => ActionView::Upsert(asset.file_path@),
            ImportAction::Commit => ActionView::Commit,
            ImportAction::Abort { undo, error } => ActionView::Abort(views(undo@), failure_view(*error)),
            ImportAction::Finish { imported } => ActionView::Finish(paths(imported@)),
        }
    }
}

/// The run after a failure: nothing more to do.
pub open spec fn ended(r: RunView) -> RunView {
    RunView { phase: ImportPhase::Finished, ..r }
}

pub open spec fn abort(r: RunView, f: FailureView) -> (RunView, ActionView) {
    (ended(r), ActionView::Abort(r.moved.reverse(), f))
}

/// One step of the coordinator: the next state and the next action.
pub open spec fn step_spec(r: RunView, e: EventView) -> (RunView, ActionView) {
    let name = r.names[r.index as int];
    match r.phase {
        ImportPhase::Probe => match e {
            EventView::Probed(source, destination) => if !source {
                abort(r, FailureView::MissingFile(name))
            } else if destination {
                abort(r, FailureView::Conflict(name))
            } else {
                (RunView { phase: ImportPhase::Move, ..r }, ActionView::Move(name))
            },
            _ => abort(r, FailureView::FileSystem),
        },
        ImportPhase::Move => match e {
            EventView::Succeeded => (
                RunView { phase: ImportPhase::Upsert, moved: r.moved.push(name), ..r },
                ActionView::Upsert(name),
            ),
            _ => abort(r, FailureView::FileSystem),
        },
        ImportPhase::Upsert => match e {
            EventView::Succeeded => {
                let next = r.index + 1;
                let imported = r.imported.push(name);
                if next == r.names.len() {
                    (
                        RunView { phase: ImportPhase::Commit, index: next, imported, ..r },
                        ActionView::Commit,
                    )
                } else {
                    (
                        RunView { phase: ImportPhase::Probe, index: next, imported, ..r },
                        ActionView::Probe(r.names[next as int]),
                    )
                }
            },
            _ => abort(r, FailureView::Database),
        },
        ImportPhase::Commit => match e {
            EventView::Succeeded => (ended(r), ActionView::Finish(r.imported)),
            _ => abort(r, FailureView::Database),
        },
        ImportPhase::Finished => (r, ActionView::Finish(r.imported)),
    }
}

/// The shape of a run between steps.
pub open spec fn run_wf(r: RunView) -> bool {
    match r.phase {
        ImportPhase::Probe | ImportPhase::Move => r.index < r.names.len() && r.moved
            == r.names.subrange(0, r.index as int) && r.imported == r.moved,
        ImportPhase::Upsert => r.index < r.names.len() && r.moved == r.names.subrange(0, r.index + 1 as int) && r.imported == r.names.subrange(0, r.index as int),
        ImportPhase::Commit => r.index == r.names.len() && r.moved == r.names && r.imported
            == r.names,
        ImportPhase::Finished => true,
    }
}

/// The first state and action of a run over the manifest `names`.
pub open spec fn start_spec(names: Seq<Seq<char>>) -> (RunView, ActionView) {
    let r = RunView {
        names,
        index: 0,
        phase: ImportPhase::Probe,
        moved: Seq::empty(),
        imported: Seq::empty(),
    };
    if names.len() == 0 {
        (ended(r), ActionView::Finish(Seq::empty()))
    } else {
        (r, ActionView::Probe(names[0]))
    }
}

// ---------------------------------------------------------------- the two stores

/// What the two stores hold, as far as an import is concerned: the files of the
/// staging directory and of the project folder, the asset paths upserted in the
/// open transaction, and the committed asset paths of the project.
pub struct World {
    pub staging: Set<Seq<char>>,
    pub project: Set<Seq<char>>,
    pub pending: Seq<Seq<char>>,
    pub rows: Set<Seq<char>>,
}

/// The event truthfully reports the stores: a probe tells what exists.
pub open spec fn answers(r: RunView, w: World, e: EventView) -> bool {
    r.phase == ImportPhase::Probe ==> match e {
        EventView::Probed(source, destination) => source == w.staging.contains(r.names[r.index as int])
            && destination == w.project.contains(r.names[r.index as int]),
        _ => true,
    }
}

/// The stores after the action that the run was waiting on ended with `e`. A failed
/// move leaves no file behind; a failed commit persists nothing.
pub open spec fn outcome(r: RunView, w: World, e: EventView) -> World {
    let name = r.names[r.index as int];
    match r.phase {
        ImportPhase::Move => match e {
            EventView::Succeeded => World {
                project: w.project.insert(name),
                staging: w.staging.remove(name),
                ..w
            },
            _ => w,
        },
        ImportPhase::Upsert => match e {
            EventView::Succeeded => World { pending: w.pending.push(name), ..w },
            _ => w,
        },
        ImportPhase::Commit => match e {
            EventView::Succeeded => World {
                rows: w.rows + w.pending.to_set(),
                pending: Seq::empty(),
                ..w
            },
            _ => World { pending: Seq::empty(), ..w },
        },
        _ => w,
    }
}

/// The stores after an abort: the listed files are deleted and the transaction is
/// rolled back.
pub open spec fn after_abort(w: World, undo: Seq<Seq<char>>) -> World {
    World { project: w.project - undo.to_set(), pending: Seq::empty(), ..w }
}

/// What holds between steps of a run that started on the stores `w0`.
pub open spec fn import_inv(r: RunView, w0: World, w: World) -> bool {
    &&& run_wf(r)
    &&& r.phase != ImportPhase::Finished
    &&& w.project == w0.project + r.moved.to_set()
    &&& forall|i: int| 0 <= i < r.moved.len() ==> !w0.project.contains(#[trigger] r.moved[i])
    &&& r.phase == ImportPhase::Move ==> !w.project.contains(r.names[r.index as int])
    &&& w.rows == w0.rows
    &&& w.pending == r.imported
}

proof fn lemma_reverse_to_set(s: Seq<Seq<char>>)
    ensures
        s.reverse().to_set() == s.to_set(),
{
    assert forall|x: Seq<char>| s.reverse().to_set().contains(x) <==> s.to_set().contains(x) by {
        if s.reverse().to_set().contains(x) {
            let i = choose|i: int| 0 <= i < s.reverse().len() && s.reverse()[i] == x;
            assert(s[s.len() - 1 - i] == x);
        }
        if s.to_set().contains(x) {
            let i = choose|i: int| 0 <= i < s.len() && s[i] == x;
            assert(s.reverse()[s.len() - 1 - i] == x);
        }
    }
    assert(s.reverse().to_set() =~= s.to_set());
}

proof fn lemma_undo_restores(w0: World, w: World, moved: Seq<Seq<char>>)
    requires
        w.project == w0.project + moved.to_set(),
        forall|i: int| 0 <= i < moved.len() ==> !w0.project.contains(#[trigger] moved[i]),
    ensures
        after_abort(w, moved.reverse()).project == w0.project,
{
    lemma_reverse_to_set(moved);
    assert forall|x: Seq<char>| moved.to_set().contains(x) implies !w0.project.contains(x) by {
        let i = choose|i: int| 0 <= i < moved.len() && moved[i] == x;
    }
    assert(after_abort(w, moved.reverse()).project =~= w0.project);
}

/// A run starts from a fresh transaction with nothing moved.
pub proof fn lemma_import_start(names: Seq<Seq<char>>, w0: World)
    requires
        names.len() > 0,
        w0.pending.len() == 0,
    ensures
        import_inv(start_spec(names).0, w0, w0),
{
    let r = start_spec(names).0;
    assert(r.moved.to_set() =~= Set::<Seq<char>>::empty());
    assert(w0.project + r.moved.to_set() =~= w0.project);
    assert(names.subrange(0, 0) =~= Seq::<Seq<char>>::empty());
    assert(w0.pending =~= Seq::<Seq<char>>::empty());
}

/// Import atomicity. Whatever each action's outcome, each step of a run keeps the
/// stores in step with the run, and a run ends in one of two ways. Either it aborts,
/// and once its files are deleted and its transaction rolled back the project folder
/// holds exactly what it held before and no row was added. Or it finishes, and every
/// listed file is in the folder with a committed row.
pub proof fn lemma_import_step_atomic(r: RunView, w0: World, w: World, e: EventView)
    requires
        import_inv(r, w0, w),
        answers(r, w, e),
    ensures
        ({
            let (r2, a) = step_spec(r, e);
            let w1 = outcome(r, w, e);
            match a {
                ActionView::Abort(undo, _) => after_abort(w1, undo).project == w0.project
                    && after_abort(w1, undo).rows == w0.rows
                    && after_abort(w1, undo).pending.len() == 0,
                ActionView::Finish(done) => done == r.names && w1.project == w0.project
                    + r.names.to_set() && w1.rows == w0.rows + r.names.to_set(),
                _ => import_inv(r2, w0, w1),
            }
        }),
{
    let (r2, a) = step_spec(r, e);
    let w1 = outcome(r, w, e);
    let name = r.names[r.index as int];
    if let ActionView::Abort(undo, _) = a {
        assert(undo == r.moved.reverse());
        assert(w1.project == w.project && w1.rows == w.rows);
        lemma_undo_restores(w0, w1, r.moved);
    } else if r.phase == ImportPhase::Move {
        let m2 = r.moved.push(name);
        assert forall|i: int| 0 <= i < m2.len() implies !w0.project.contains(#[trigger] m2[i]) by {
            if i < r.moved.len() {
                assert(m2[i] == r.moved[i]);
            }
        }
        r.moved.lemma_push_to_set_commute(name);
        assert(m2.to_set() == r.moved.to_set().insert(name));
        assert(w1.project =~= w0.project + m2.to_set());
        assert(r.names.subrange(0, r.index + 1 as int) =~= r.names.subrange(0, r.index as int).push(name));
    } else if r.phase == ImportPhase::Upsert {
        assert(r.names.subrange(0, r.index + 1 as int) =~= r.names.subrange(0, r.index as int).push(name));
        if r.index + 1 == r.names.len() {
            assert(r.names.subrange(0, r.names.len() as int) =~= r.names);
        }
    } else if r.phase == ImportPhase::Commit {
        assert(w1.project == w0.project + r.names.to_set());
    }
}

/// A run fed the outcomes `events` in order, from the state `r` whose last action was
/// `a`, on the stores `w`: the state, the stores and the last action at the end.
pub open spec fn replay(r: RunView, w: World, a: ActionView, events: Seq<EventView>) -> (RunView, World, ActionView)
    decreases events.len(),
{
    if events.len() == 0 || r.phase == ImportPhase::Finished {
        (r, w, a)
    } else {
        let (r2, a2) = step_spec(r, events[0]);
        replay(r2, outcome(r, w, events[0]), a2, events.drop_first())
    }
}

/// Every outcome in `events` reports the stores truthfully when it is given.
pub open spec fn truthful(r: RunView, w: World, events: Seq<EventView>) -> bool
    decreases events.len(),
{
    events.len() == 0 || r.phase == ImportPhase::Finished || (answers(r, w, events[0]) && truthful(
        step_spec(r, events[0]).0,
        outcome(r, w, events[0]),
        events.drop_first(),
    ))
}

pub open spec fn import_settled(w0: World, w: World, a: ActionView, names: Seq<Seq<char>>) -> bool {
    match a {
        ActionView::Abort(undo, _) => after_abort(w, undo).project == w0.project && after_abort(w, undo).rows
            == w0.rows && after_abort(w, undo).pending.len() == 0,
        ActionView::Finish(done) => done == names && w.project == w0.project + names.to_set() && w.rows
            == w0.rows + names.to_set(),
        _ => true,
    }
}

proof fn lemma_replay(r: RunView, w0: World, w: World, a: ActionView, events: Seq<EventView>)
    requires
        import_inv(r, w0, w),
        truthful(r, w, events),
        !(a is Abort || a is Finish),
    ensures
        ({
            let (r2, w2, a2) = replay(r, w, a, events);
            &&& import_settled(w0, w2, a2, r.names)
            &&& (a2 is Abort || a2 is Finish) == (r2.phase == ImportPhase::Finished)
        }),
    decreases events.len(),
{
    if events.len() > 0 {
        let e = events[0];
        let (r2, a2) = step_spec(r, e);
        let w2 = outcome(r, w, e);
        lemma_import_step_atomic(r, w0, w, e);
        if !(a2 is Abort || a2 is Finish) {
            assert(import_inv(r2, w0, w2));
            lemma_replay(r2, w0, w2, a2, events.drop_first());
        } else {
            assert(r2.phase == ImportPhase::Finished);
            assert(r2.names == r.names);
            assert(replay(r2, w2, a2, events.drop_first()) == (r2, w2, a2));
            assert(replay(r, w, a, events) == replay(r2, w2, a2, events.drop_first()));
        }
    }
}

/// Import atomicity over a whole run. Start an import of the nonempty manifest `names`
/// on the stores `w0` with a fresh transaction, and give it any outcomes that report
/// the stores truthfully. If the run aborts, then once its files are deleted and its
/// transaction rolled back, the project folder holds exactly what it held before and
/// no row was added. If it finishes, every listed file is in the folder with a
/// committed row. Otherwise it is still running.
pub proof fn lemma_import_atomic(names: Seq<Seq<char>>, w0: World, events: Seq<EventView>)
    requires
        names.len() > 0,
        w0.pending.len() == 0,
        truthful(start_spec(names).0, w0, events),
    ensures
        ({
            let (r, w, a) = replay(start_spec(names).0, w0, start_spec(names).1, events);
            &&& import_settled(w0, w, a, names)
            &&& (a is Abort || a is Finish) == (r.phase == ImportPhase::Finished)
        }),
{
    lemma_import_start(names, w0);
    lemma_replay(start_spec(names).0, w0, w0, start_spec(names).1, events);
}

// ---------------------------------------------------------------- the coordinator

fn reversed(v: &Vec<String>) -> (r: Vec<String>)
    ensures
        views(r@) == views(v@).reverse(),
{
    let n: usize = v.len();
    let mut out: Vec<String> = Vec::new();
    let mut i: usize = n;
    while i > 0
        invariant
            n == v@.len(),
            i <= n,
            out@.len() == n - i,
            forall|k: int| 0 <= k < out@.len() ==> #[trigger] out@[k]@ == v@[n - 1 - k]@,
        decreases i,
    {
        i = i - 1;
        out.push(v[i].clone());
    }
    assert(views(out@) =~= views(v@).reverse());
    out
}

/// The two rows hold the same values.
pub open spec fn same_row(a: ProjectAssetRow, b: ProjectAssetRow) -> bool {
    a.id@ == b.id@ && a.file_path@ == b.file_path@ && a.kind@ == b.kind@ && a.size_bytes == b.size_bytes
}

/// The row reports the manifest entry `f`: its path, kind and size.
pub open spec fn row_of_entry(r: ProjectAssetRow, f: FileMeta) -> bool {
    r.file_path@ == f.name@ && r.kind@ == f.kind@ && r.size_bytes == f.size
}

fn copy_rows(rows: &Vec<ProjectAssetRow>) -> (r: Vec<ProjectAssetRow>)
    ensures
        paths(r@) == paths(rows@),
        r@.len() == rows@.len(),
        forall|k: int| 0 <= k < rows@.len() ==> same_row(#[trigger] r@[k], rows@[k]),
{
    let mut out: Vec<ProjectAssetRow> = Vec::new();
    let mut i: usize = 0;
    while i < rows.len()
        invariant
            i <= rows@.len(),
            out@.len() == i,
            forall|k: int| 0 <= k < i ==> same_row(#[trigger] out@[k], rows@[k]),
        decreases rows@.len() - i,
    {
        let row = &rows[i];
        out.push(
            ProjectAssetRow {
                id: row.id.clone(),
                file_path: row.file_path.clone(),
                kind: row.kind.clone(),
                size_bytes: row.size_bytes,
            },
        );
        i = i + 1;
    }
    assert(paths(out@) =~= paths(rows@));
    out
}

pub open spec fn opt_view(s: Option<String>) -> Option<Seq<char>> {
    match s {
        Some(x) => Some(x@),
        None => None,
    }
}

/// `asset` is the row of the manifest entry `f`, imported into `project` by a bundle
/// uploaded at `at`.
pub open spec fn upsert_of(asset: AssetUpsert, f: FileMeta, project: Seq<char>, at: Seq<char>) -> bool {
    &&& asset.id@.len() == 36
    &&& asset.project_id@ == project
    &&& asset.file_path@ == f.name@
    &&& asset.kind@ == f.kind@
    &&& asset.size_bytes == f.size
    &&& asset.mtime@ == match f.mtime {
        Some(m) => m@,
        None => Seq::<char>::empty(),
    }
    &&& asset.mime@ == f.mime@
    &&& opt_view(asset.file_hash) == opt_view(f.checksum)
    &&& asset.created_at@ == at
    &&& asset.updated_at@ == at
}

impl ImportRun {
    /// The manifest entries of the run.
    pub closed spec fn entries(&self) -> Seq<FileMeta> {
        self.files@
    }

    /// The project imported into.
    pub closed spec fn project(&self) -> Seq<char> {
        self.project_id@
    }

    /// When the bundle was uploaded.
    pub closed spec fn uploaded(&self) -> Seq<char> {
        self.uploaded_at@
    }

    /// The run is between steps, in a shape that `step` accepts.
    pub closed spec fn inv(&self) -> bool {
        &&& run_wf(self@)
        &&& self.phase != ImportPhase::Finished
        &&& self.phase == ImportPhase::Upsert ==> (self.current matches Some(row) && row_of_entry(
            row,
            self.files@[self.index as int],
        ))
        &&& self.imported@.len() <= self.files@.len()
        &&& forall|k: int| 0 <= k < self.imported@.len() ==> row_of_entry(#[trigger] self.imported@[k], self.files@[k])
    }

    /// The rows reported so far, one for each file whose row was written.
    pub closed spec fn rows(&self) -> Seq<ProjectAssetRow> {
        self.imported@
    }

    /// The id of the row being written, while one is.
    pub closed spec fn pending_id(&self) -> Seq<char> {
        match self.current {
            Some(row) => row.id@,
            None => Seq::empty(),
        }
    }

    pub closed spec fn finished(&self) -> bool {
        self.phase == ImportPhase::Finished
    }

    /// Starts importing the files of `meta` into the project `project_id`: the run, and
    /// the first action (finishing at once when the manifest lists no file).
    pub fn begin(project_id: String, meta: BundleMeta) -> (r: (ImportRun, ImportAction))
        ensures
            r.0@ == start_spec(manifest_names(meta.files@)).0,
            r.1.view() == start_spec(manifest_names(meta.files@)).1,
            r.0.inv() || r.0.finished(),
            r.0.entries() == meta.files@ && r.0.project() == project_id@ && r.0.uploaded() == meta.uploaded_at@,
            r.0.rows() == Seq::<ProjectAssetRow>::empty(),
    {
        let ghost names = manifest_names(meta.files@);
        let empty = meta.files.len() == 0;
        let first = if empty { None } else { Some(meta.files[0].name.clone()) };
        let mut run = ImportRun {
            current: None,
            project_id,
            uploaded_at: meta.uploaded_at,
            files: meta.files,
            index: 0,
            phase: ImportPhase::Probe,
            moved: Vec::new(),
            imported: Vec::new(),
        };
        assert(views(run.moved@) =~= Seq::<Seq<char>>::empty());
        assert(paths(run.imported@) =~= Seq::<Seq<char>>::empty());
        assert(names.subrange(0, 0) =~= Seq::<Seq<char>>::empty());
        match first {
            None => {
                run.phase = ImportPhase::Finished;
                let imported: Vec<ProjectAssetRow> = Vec::new();
                assert(paths(imported@) =~= Seq::<Seq<char>>::empty());
                (run, ImportAction::Finish { imported })
            },
            Some(name) => (run, ImportAction::Probe { name }),
        }
    }

    fn abort(&mut self, error: ImportFromBundleError) -> (a: ImportAction)
        ensures
            final(self)@ == ended(old(self)@),
            final(self).finished(),
            a.view() == ActionView::Abort(old(self)@.moved.reverse(), failure_view(error)),
            final(self).entries() == old(self).entries() && final(self).project() == old(self).project()
                && final(self).uploaded() == old(self).uploaded(),
            final(self).rows() == old(self).rows(),
    {
        self.phase = ImportPhase::Finished;
        let undo = reversed(&self.moved);
        ImportAction::Abort { undo, error }
    }

    /// Takes the outcome of the last action and returns the next one.
    pub fn step(&mut self, event: ImportEvent) -> (a: ImportAction)
        requires
            old(self).inv(),
        ensures
            final(self)@ == step_spec(old(self)@, event.view()).0,
            a.view() == step_spec(old(self)@, event.view()).1,
            final(self).inv() || final(self).finished(),
            final(self).entries() == old(self).entries() && final(self).project() == old(self).project()
                && final(self).uploaded() == old(self).uploaded(),
            a matches ImportAction::Upsert { asset } ==> upsert_of(
                asset,
                old(self).entries()[old(self)@.index as int],
                old(self).project(),
                old(self).uploaded(),
            ) && final(self).pending_id() == asset.id@,
            old(self)@.phase == ImportPhase::Upsert && event is Succeeded ==> final(self).rows().len() == old(
                self,
            ).rows().len() + 1 && final(self).rows().last().id@ == old(self).pending_id() && forall|k: int|
                0 <= k < old(self).rows().len() ==> same_row(#[trigger] final(self).rows()[k], old(self).rows()[k]),
            !(old(self)@.phase == ImportPhase::Upsert && event is Succeeded) ==> final(self).rows() == old(
                self,
            ).rows(),
            a matches ImportAction::Finish { imported } ==> imported@.len() == old(self).entries().len()
                && forall|k: int| 0 <= k < imported@.len() ==> row_of_entry(#[trigger] imported@[k], old(self).entries()[k])
                && same_row(imported@[k], old(self).rows()[k]),
    {
        let i = self.index;
        let n: usize = self.files.len();
        let ghost name = self@.names[i as int];
        match self.phase {
            ImportPhase::Probe => match event {
                ImportEvent::Probed { source_exists, destination_exists } => {
                    if !source_exists {
                        let name = self.files[i].name.clone();
                        return self.abort(ImportFromBundleError::MissingFile { name });
                    }
                    if destination_exists {
                        let name = self.files[i].name.clone();
                        return self.abort(ImportFromBundleError::Conflict { name });
                    }
                    self.phase = ImportPhase::Move;
                    ImportAction::Move { name: self.files[i].name.clone() }
                },
                ImportEvent::Failed { message } => self.abort(ImportFromBundleError::FileSystemError(message)),
                ImportEvent::Succeeded => self.abort(
                    ImportFromBundleError::FileSystemError("no probe result".to_owned()),
                ),
            },
            ImportPhase::Move => match event {
                ImportEvent::Succeeded => {
                    let f = &self.files[i];
                    let mtime = match &f.mtime {
                        Some(m) => m.clone(),
                        None => String::new(),
                    };
                    let file_hash = match &f.checksum {
                        Some(c) => Some(c.clone()),
                        None => None,
                    };
                    let asset = AssetUpsert {
                        id: new_id(),
                        project_id: self.project_id.clone(),
                        file_path: f.name.clone(),
                        kind: f.kind.clone(),
                        size_bytes: f.size,
                        mtime,
                        mime: f.mime.clone(),
                        file_hash,
                        created_at: self.uploaded_at.clone(),
                        updated_at: self.uploaded_at.clone(),
                    };
                    self.current = Some(
                        ProjectAssetRow {
                            id: asset.id.clone(),
                            file_path: f.name.clone(),
                            kind: f.kind.clone(),
                            size_bytes: f.size,
                        },
                    );
                    self.moved.push(f.name.clone());
                    self.phase = ImportPhase::Upsert;
                    assert(views(self.moved@) =~= views(old(self).moved@).push(name));
                    assert(name == self.files@[i as int].name@);
                    assert(self@.names.subrange(0, i + 1 as int) =~= self@.names.subrange(0, i as int).push(name));
                    ImportAction::Upsert { asset }
                },
                ImportEvent::Failed { message } => self.abort(ImportFromBundleError::FileSystemError(message)),
                ImportEvent::Probed { .. } => self.abort(
                    ImportFromBundleError::FileSystemError("no move result".to_owned()),
                ),
            },
            ImportPhase::Upsert => match event {
                ImportEvent::Succeeded => {
                    let row = match self.current.take() {
                        Some(row) => row,
                        None => ProjectAssetRow {
                            id: String::new(),
                            file_path: String::new(),
                            kind: String::new(),
                            size_bytes: 0,
                        },
                    };
                    self.imported.push(row);
                    assert(paths(self.imported@) =~= paths(old(self).imported@).push(name));
                    assert(self@.names.subrange(0, i + 1 as int) =~= self@.names.subrange(0, i as int).push(name));
                    self.index = i + 1;
                    if self.index == n {
                        self.phase = ImportPhase::Commit;
                        assert(self@.names.subrange(0, n as int) =~= self@.names);
                                ImportAction::Commit
                    } else {
                        self.phase = ImportPhase::Probe;
                                ImportAction::Probe { name: self.files[i + 1].name.clone() }
                    }
                },
                ImportEvent::Failed { message } => self.abort(ImportFromBundleError::DatabaseError(message)),
                ImportEvent::Probed { .. } => self.abort(
                    ImportFromBundleError::DatabaseError("no upsert result".to_owned()),
                ),
            },
            ImportPhase::Commit => match event {
                ImportEvent::Succeeded => {
                    self.phase = ImportPhase::Finished;
                    let imported = copy_rows(&self.imported);
                    ImportAction::Finish { imported }
                },
                ImportEvent::Failed { message } => self.abort(ImportFromBundleError::DatabaseError(message)),
                ImportEvent::Probed { .. } => self.abort(
                    ImportFromBundleError::DatabaseError("no commit result".to_owned()),
                ),
            },
            ImportPhase::Finished => {
                let imported: Vec<ProjectAssetRow> = Vec::new();
                ImportAction::Finish { imported }
            },
        }
    }
}

} // verus!
