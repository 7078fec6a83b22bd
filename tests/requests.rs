use lima::models::{ProjectAssetRow, ProjectDetailRow, ProjectTagRow};
use lima::requests::{
    choose_main_image, plan_new_project, project_detail, CreateProjectRequest, ImportProjectRequest,
    PatchProjectRequest, RequestError,
};

#[test]
fn new_project_trims_and_slugs() {
    let req = CreateProjectRequest {
        name: "  Dragon Bust v2 ".to_string(),
        description: None,
        tags: Some(vec!["fantasy".to_string()]),
    };
    let p = plan_new_project(req).unwrap();
    assert_eq!(p.name, "Dragon Bust v2");
    assert_eq!(p.folder_path, "dragon-bust-v2");
    assert_eq!(p.description, "");
    assert_eq!(p.tags, vec!["fantasy".to_string()]);
    assert_eq!(p.id.len(), 36);
}

#[test]
fn new_project_needs_a_name() {
    let req = CreateProjectRequest { name: " \t ".to_string(), description: None, tags: None };
    assert_eq!(plan_new_project(req).unwrap_err(), RequestError::EmptyName);
}

#[test]
fn patch_needs_a_field() {
    let empty = PatchProjectRequest { name: None, description: None, main_image_id: None };
    assert_eq!(empty.check(), Err(RequestError::MissingFields));
    let named = PatchProjectRequest { name: Some("n".to_string()), description: None, main_image_id: None };
    assert_eq!(named.check(), Ok(()));
}

#[test]
fn import_needs_a_bundle() {
    let r = ImportProjectRequest { bundle_id: String::new(), new_main_image: None };
    assert_eq!(r.check(), Err(RequestError::MissingFields));
    let r = ImportProjectRequest { bundle_id: "b".to_string(), new_main_image: None };
    assert_eq!(r.check(), Ok(()));
}

fn asset(path: &str, kind: &str) -> ProjectAssetRow {
    ProjectAssetRow { id: format!("id-{}", path), file_path: path.to_string(), kind: kind.to_string(), size_bytes: 1 }
}

#[test]
fn main_image_choice() {
    let rows = vec![asset("a.stl", "model"), asset("b.png", "image"), asset("c.png", "image")];
    assert_eq!(choose_main_image(false, &rows, &None), Ok(Some(1)));
    assert_eq!(choose_main_image(false, &vec![asset("a.stl", "model")], &None), Ok(None));
    assert_eq!(choose_main_image(true, &rows, &None), Ok(None));
    assert_eq!(choose_main_image(true, &rows, &Some("c.png".to_string())), Ok(Some(2)));
    assert_eq!(choose_main_image(true, &rows, &Some("z.png".to_string())), Err(RequestError::InvalidMainImage));
}

#[test]
fn detail_keeps_rows() {
    let project = ProjectDetailRow {
        id: "p".to_string(),
        folder_path: "f".to_string(),
        name: "n".to_string(),
        description: "d".to_string(),
        main_image_id: None,
        created_at: "c".to_string(),
        updated_at: "u".to_string(),
        last_scanned_at: None,
    };
    let tags = vec![ProjectTagRow { id: "t".to_string(), name: "x".to_string(), color: "#000000".to_string() }];
    let d = project_detail(project, vec![asset("a.png", "image")], tags);
    assert_eq!(d.assets[0].file_path, "a.png");
    assert_eq!(d.tags[0].name, "x");
    assert_eq!(d.folder_path, "f");
    assert_eq!(d.description, "d");
    assert_eq!((d.created_at.as_str(), d.updated_at.as_str()), ("c", "u"));
    assert_eq!(d.assets[0].size_bytes, 1);
    assert_eq!(d.tags[0].color, "#000000");
}
