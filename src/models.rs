//! Rows of the relational store and records of the staging area, as plain values.

use vstd::prelude::*;

verus! {

/// A project row.
#[derive(Debug, Clone, PartialEq, Eq)]
pub struct ProjectRow {
    pub id: String,
    pub folder_path: String,
    pub name: String,
    pub description: String,
    pub main_image_id: Option<String>,
    pub created_at: String,
    pub updated_at: String,
    pub last_scanned_at: Option<String>,
}

/// A project row as the detail view reads it.
#[derive(Debug, Clone, PartialEq, Eq)]
pub struct ProjectDetailRow {
    pub id: String,
    pub folder_path: String,
    pub name: String,
    pub description: String,
    pub main_image_id: Option<String>,
    pub created_at: String,
    pub updated_at: String,
    pub last_scanned_at: Option<String>,
}

/// An asset of a project, as listings and imports report it.
#[derive(Debug, Clone, PartialEq, Eq)]
pub struct ProjectAssetRow {
    pub id: String,
    pub file_path: String,
    pub kind: String,
    pub size_bytes: i64,
}

/// A tag of a project.
#[derive(Debug, Clone, PartialEq, Eq)]
pub struct ProjectTagRow {
    pub id: String,
    pub name: String,
    pub color: String,
}

/// A tag row.
#[derive(Debug, Clone, PartialEq, Eq)]
pub struct TagRow {
    pub id: String,
    pub name: String,
    pub color: String,
    pub created_at: String,
    pub updated_at: String,
}

/// What inserting an asset row reports.
#[derive(Debug, Clone, PartialEq, Eq)]
pub struct InsertedAsset {
    pub id: String,
    pub file_path: String,
    pub kind: String,
}

/// What creating a project reports.
#[derive(Debug, Clone, PartialEq, Eq)]
pub struct CreatedProject {
    pub id: String,
    pub folder_path: String,
}

/// One staged file, as the manifest of a bundle records it.
#[derive(Debug, Clone, PartialEq, Eq)]
pub struct FileMeta {
    pub name: String,
    pub size: i64,
    pub mtime: Option<String>,
    pub mime: String,
    pub kind: String,
    pub checksum: Option<String>,
}

/// The manifest of a bundle.
#[derive(Debug, Clone, PartialEq, Eq)]
pub struct BundleMeta {
    pub uploaded_at: String,
    pub files: Vec<FileMeta>,
}

/// The file names that a manifest lists, in order.
pub open spec fn manifest_names(files: Seq<FileMeta>) -> Seq<Seq<char>> {
    files.map_values(|f: FileMeta| f.name@)
}

} // verus!
