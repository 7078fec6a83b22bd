//! Requests and responses of the project operations, and the decisions taken on them
//! before and after the stores are touched.

use vstd::prelude::*;
use crate::models::{ProjectAssetRow, ProjectDetailRow, ProjectTagRow};
use crate::naming::{slugify_string, slug_of, strip_both, trim_white};
use crate::ids::new_id;

verus! {

/// A request to create a project.
#[derive(Debug, Clone, PartialEq, Eq)]
pub struct CreateProjectRequest {
    pub name: String,
    pub description: Option<String>,
    pub tags: Option<Vec<String>>,
}

/// What creating a project reports.
#[derive(Debug, Clone, PartialEq, Eq)]
pub struct CreateProjectResponse {
    pub id: String,
    pub folder_path: String,
}

/// Why a request was refused before the stores were touched.
#[derive(Debug, Clone, Copy, PartialEq, Eq, Structural)]
pub enum RequestError {
    EmptyName,
    MissingFields,
    InvalidMainImage,
}

/// A project about to be created: its id, trimmed name, folder slug, description
/// and tag names.
#[derive(Debug)]
pub struct NewProject {
    pub id: String,
    pub name: String,
    pub folder_path: String,
    pub description: String,
    pub tags: Vec<String>,
}

/// Prepares a project: the name is trimmed and must not be empty; the folder is the
/// slug of the name; description and tags default to empty.
pub fn plan_new_project(req: CreateProjectRequest) -> (r: Result<NewProject, RequestError>)
    ensures
        r is Err <==> strip_both(req.name@, true).len() == 0,
        r matches Err(e) ==> e == RequestError::EmptyName,
        r matches Ok(p) ==> p.name@ == strip_both(req.name@, true) && p.folder_path@ == slug_of(p.name@)
            && p.id@.len() == 36 && p.description@ == match req.description {
                Some(d) => d@,
                None => Seq::<char>::empty(),
            } && p.tags@ == match req.tags {
                Some(t) => t@,
                None => Seq::<String>::empty(),
            },
{
    let name = trim_white(req.name.as_str());
    if name.as_str().is_empty() {
        return Err(RequestError::EmptyName);
    }
    let folder_path = slugify_string(name.as_str());
    let description = match req.description {
        Some(d) => d,
        None => String::new(),
    };
    let tags = match req.tags {
        Some(t) => t,
        None => Vec::new(),
    };
    Ok(NewProject { id: new_id(), name, folder_path, description, tags })
}

/// A partial update of a project.
#[derive(Debug, Clone, PartialEq, Eq)]
pub struct PatchProjectRequest {
    pub name: Option<String>,
    pub description: Option<String>,
    pub main_image_id: Option<String>,
}

impl PatchProjectRequest {
    /// An update must carry at least one field.
    pub fn check(&self) -> (r: Result<(), RequestError>)
        ensures
            r is Ok <==> (self.name is Some || self.description is Some || self.main_image_id is Some),
            r matches Err(e) ==> e == RequestError::MissingFields,
    {
        if self.name.is_none() && self.description.is_none() && self.main_image_id.is_none() {
            Err(RequestError::MissingFields)
        } else {
            Ok(())
        }
    }
}

/// A request to import a bundle into a project.
#[derive(Debug, Clone, PartialEq, Eq)]
pub struct ImportProjectRequest {
    pub bundle_id: String,
    pub new_main_image: Option<String>,
}

impl ImportProjectRequest {
    /// The bundle id must not be empty.
    pub fn check(&self) -> (r: Result<(), RequestError>)
        ensures
            r is Ok <==> self.bundle_id@.len() > 0,
            r matches Err(e) ==> e == RequestError::MissingFields,
    {
        if self.bundle_id.as_str().is_empty() {
            Err(RequestError::MissingFields)
        } else {
            Ok(())
        }
    }
}

pub open spec fn is_image_kind(k: Seq<char>) -> bool {
    k == seq!['i', 'm', 'a', 'g', 'e']
}

pub open spec fn is_first(rows: Seq<ProjectAssetRow>, p: spec_fn(ProjectAssetRow) -> bool, i: int) -> bool {
    0 <= i < rows.len() && p(rows[i]) && forall|j: int| 0 <= j < i ==> !p(#[trigger] rows[j])
}

pub open spec fn none_where(rows: Seq<ProjectAssetRow>, p: spec_fn(ProjectAssetRow) -> bool) -> bool {
    forall|j: int| 0 <= j < rows.len() ==> !p(#[trigger] rows[j])
}

pub open spec fn image_row() -> spec_fn(ProjectAssetRow) -> bool {
    |r: ProjectAssetRow| is_image_kind(r.kind@)
}

pub open spec fn row_at(path: Seq<char>) -> spec_fn(ProjectAssetRow) -> bool {
    |r: ProjectAssetRow| r.file_path@ == path
}

fn first_image(rows: &Vec<ProjectAssetRow>) -> (r: Option<usize>)
    ensures
        r matches Some(i) ==> is_first(rows@, image_row(), i as int),
        r is None ==> none_where(rows@, image_row()),
{
    proof { reveal_strlit("image"); }
    let image = "image".to_owned();
    assert(image@ == seq!['i', 'm', 'a', 'g', 'e']);
    let mut i: usize = 0;
    while i < rows.len()
        invariant
            i <= rows@.len(),
            image@ == seq!['i', 'm', 'a', 'g', 'e'],
            forall|j: int| 0 <= j < i ==> !image_row()(#[trigger] rows@[j]),
        decreases rows@.len() - i,
    {
        if rows[i].kind == image {
            return Some(i);
        }
        i = i + 1;
    }
    None
}

/// The position of the first row stored at `path`, if any.
pub fn find_path(rows: &Vec<ProjectAssetRow>, path: &String) -> (r: Option<usize>)
    ensures
        r matches Some(i) ==> is_first(rows@, row_at(path@), i as int),
        r is None ==> none_where(rows@, row_at(path@)),
{
    let mut i: usize = 0;
    while i < rows.len()
        invariant
            i <= rows@.len(),
            forall|j: int| 0 <= j < i ==> !row_at(path@)(#[trigger] rows@[j]),
        decreases rows@.len() - i,
    {
        if rows[i].file_path == *path {
            return Some(i);
        }
        i = i + 1;
    }
    None
}

/// Which imported asset becomes the project's main image. A project without one
/// takes the first imported image, if any. A project with one changes it only when
/// asked, to the imported asset at the requested path, which must exist.
pub fn choose_main_image(
    has_main_image: bool,
    imported: &Vec<ProjectAssetRow>,
    requested: &Option<String>,
) -> (r: Result<Option<usize>, RequestError>)
    ensures
        !has_main_image ==> match r {
            Ok(Some(i)) => is_first(imported@, image_row(), i as int),
            Ok(None) => none_where(imported@, image_row()),
            Err(_) => false,
        },
        has_main_image && requested is None ==> r matches Ok(None),
        has_main_image ==> (requested matches Some(p) ==> match r {
            Ok(Some(i)) => is_first(imported@, row_at(p@), i as int),
            Ok(None) => false,
            Err(e) => e == RequestError::InvalidMainImage && none_where(imported@, row_at(p@)),
        }),
{
    if !has_main_image {
        return Ok(first_image(imported));
    }
    match requested {
        None => Ok(None),
        Some(p) => match find_path(imported, p) {
            Some(i) => Ok(Some(i)),
            None => Err(RequestError::InvalidMainImage),
        },
    }
}

/// An asset added by an upload.
#[derive(Debug, Clone, PartialEq, Eq)]
pub struct UploadedAsset {
    pub id: String,
    pub file_path: String,
    pub kind: String,
}

/// What an upload of assets reports.
#[derive(Debug, Clone, PartialEq, Eq)]
pub struct UploadAssetsResponse {
    pub project_id: String,
    pub added: usize,
    pub assets: Vec<UploadedAsset>,
}

/// The position of the first uploaded asset stored at `path`, if any: the asset that
/// becomes the project's main image when the upload names it.
pub fn uploaded_at_path(assets: &Vec<UploadedAsset>, path: &String) -> (r: Option<usize>)
    ensures
        r matches Some(i) ==> i < assets@.len() && assets@[i as int].file_path@ == path@ && forall|j: int|
            0 <= j < i ==> (#[trigger] assets@[j]).file_path@ != path@,
        r is None ==> forall|j: int| 0 <= j < assets@.len() ==> (#[trigger] assets@[j]).file_path@ != path@,
{
    let mut i: usize = 0;
    while i < assets.len()
        invariant
            i <= assets@.len(),
            forall|j: int| 0 <= j < i ==> (#[trigger] assets@[j]).file_path@ != path@,
        decreases assets@.len() - i,
    {
        if assets[i].file_path == *path {
            return Some(i);
        }
        i = i + 1;
    }
    None
}

/// What an upload of `assets` into `project_id` reports.
pub fn upload_response(project_id: String, assets: Vec<UploadedAsset>) -> (r: UploadAssetsResponse)
    ensures
        r.project_id == project_id,
        r.added == assets@.len(),
        r.assets@ == assets@,
{
    UploadAssetsResponse { project_id, added: assets.len(), assets }
}

/// An asset as the detail of a project shows it.
#[derive(Debug, Clone, PartialEq, Eq)]
pub struct ProjectAssetResponse {
    pub id: String,
    pub file_path: String,
    pub kind: String,
    pub size_bytes: i64,
}

/// A tag as the detail of a project shows it.
#[derive(Debug, Clone, PartialEq, Eq)]
pub struct ProjectTagResponse {
    pub id: String,
    pub name: String,
    pub color: String,
}

/// The detail of a project: its row, its assets and its tags.
#[derive(Debug, Clone, PartialEq, Eq)]
pub struct ProjectDetailResponse {
    pub id: String,
    pub name: String,
    pub description: String,
    pub folder_path: String,
    pub main_image_id: Option<String>,
    pub created_at: String,
    pub updated_at: String,
    pub last_scanned_at: Option<String>,
    pub assets: Vec<ProjectAssetResponse>,
    pub tags: Vec<ProjectTagResponse>,
}

/// The asset rows as the detail shows them, in order.
pub fn map_assets(rows: Vec<ProjectAssetRow>) -> (r: Vec<ProjectAssetResponse>)
    ensures
        r@.len() == rows@.len(),
        forall|i: int| 0 <= i < rows@.len() ==> (#[trigger] r@[i]).id@ == rows@[i].id@ && r@[i].file_path@
            == rows@[i].file_path@ && r@[i].kind@ == rows@[i].kind@ && r@[i].size_bytes == rows@[i].size_bytes,
{
    let mut out: Vec<ProjectAssetResponse> = Vec::new();
    let mut i: usize = 0;
    while i < rows.len()
        invariant
            i <= rows@.len(),
            out@.len() == i,
            forall|k: int| 0 <= k < i ==> (#[trigger] out@[k]).id@ == rows@[k].id@ && out@[k].file_path@
                == rows@[k].file_path@ && out@[k].kind@ == rows@[k].kind@ && out@[k].size_bytes
                == rows@[k].size_bytes,
        decreases rows@.len() - i,
    {
        let a = &rows[i];
        out.push(
            ProjectAssetResponse {
                id: a.id.clone(),
                file_path: a.file_path.clone(),
                kind: a.kind.clone(),
                size_bytes: a.size_bytes,
            },
        );
        i = i + 1;
    }
    out
}

/// The tag rows as the detail shows them, in order.
pub fn map_tags(rows: Vec<ProjectTagRow>) -> (r: Vec<ProjectTagResponse>)
    ensures
        r@.len() == rows@.len(),
        forall|i: int| 0 <= i < rows@.len() ==> (#[trigger] r@[i]).id@ == rows@[i].id@ && r@[i].name@
            == rows@[i].name@ && r@[i].color@ == rows@[i].color@,
{
    let mut out: Vec<ProjectTagResponse> = Vec::new();
    let mut i: usize = 0;
    while i < rows.len()
        invariant
            i <= rows@.len(),
            out@.len() == i,
            forall|k: int| 0 <= k < i ==> (#[trigger] out@[k]).id@ == rows@[k].id@ && out@[k].name@
                == rows@[k].name@ && out@[k].color@ == rows@[k].color@,
        decreases rows@.len() - i,
    {
        let t = &rows[i];
        out.push(ProjectTagResponse { id: t.id.clone(), name: t.name.clone(), color: t.color.clone() });
        i = i + 1;
    }
    out
}

/// The detail of `project` with its assets and tags.
pub fn project_detail(
    project: ProjectDetailRow,
    assets: Vec<ProjectAssetRow>,
    tags: Vec<ProjectTagRow>,
) -> (r: ProjectDetailResponse)
    ensures
        r.id == project.id && r.name == project.name && r.folder_path == project.folder_path,
        r.description == project.description && r.main_image_id == project.main_image_id,
        r.created_at == project.created_at && r.updated_at == project.updated_at,
        r.last_scanned_at == project.last_scanned_at,
        r.assets@.len() == assets@.len(),
        forall|i: int| 0 <= i < assets@.len() ==> (#[trigger] r.assets@[i]).id@ == assets@[i].id@
            && r.assets@[i].file_path@ == assets@[i].file_path@ && r.assets@[i].kind@ == assets@[i].kind@
            && r.assets@[i].size_bytes == assets@[i].size_bytes,
        r.tags@.len() == tags@.len(),
        forall|i: int| 0 <= i < tags@.len() ==> (#[trigger] r.tags@[i]).id@ == tags@[i].id@
            && r.tags@[i].name@ == tags@[i].name@ && r.tags@[i].color@ == tags@[i].color@,
{
    ProjectDetailResponse {
        id: project.id,
        name: project.name,
        description: project.description,
        folder_path: project.folder_path,
        main_image_id: project.main_image_id,
        created_at: project.created_at,
        updated_at: project.updated_at,
        last_scanned_at: project.last_scanned_at,
        assets: map_assets(assets),
        tags: map_tags(tags),
    }
}

} // verus!
