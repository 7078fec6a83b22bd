use lima::naming::{extract_kind, sanitize_filename, slugify_string, asset_kind, AssetKind, trim_white, slug_from_lowered};
use lima::tags::string_to_hex_color;

#[test]
fn sanitize_accepts_plain_names() {
    assert_eq!(sanitize_filename("ok.png"), Some("ok.png".to_string()));
    assert_eq!(sanitize_filename("a.b.c"), Some("a.b.c".to_string()));
    assert_eq!(sanitize_filename(".hidden"), Some(".hidden".to_string()));
}

#[test]
fn sanitize_rejects_empty_traversal_and_separators() {
    assert_eq!(sanitize_filename(""), None);
    assert_eq!(sanitize_filename(".."), None);
    assert_eq!(sanitize_filename("a..b"), None);
    assert_eq!(sanitize_filename("dir/file"), None);
    assert_eq!(sanitize_filename("dir\\file"), None);
    assert_eq!(sanitize_filename("nul\0byte"), None);
}

#[test]
fn kind_follows_extension_without_case() {
    assert_eq!(extract_kind("photo.PNG"), "image");
    assert_eq!(extract_kind("photo.jpeg"), "image");
    assert_eq!(extract_kind("photo.WebP"), "image");
    assert_eq!(extract_kind("part.stl"), "model");
    assert_eq!(extract_kind("scene.GlTf"), "model");
    assert_eq!(extract_kind("part.3MF"), "model");
    assert_eq!(extract_kind("notes.txt"), "other");
    assert_eq!(extract_kind("png"), "other");
    assert_eq!(asset_kind("a.obj"), AssetKind::Model);
}

#[test]
fn slug_replaces_separators_and_trims_hyphens() {
    assert_eq!(slugify_string("  My Project.v2/final  "), "my-project-v2-final");
    assert_eq!(slugify_string("..Hidden.."), "hidden");
    assert_eq!(slugify_string("a\\b\0c"), "a-b-c");
    assert_eq!(slugify_string("---"), "");
    assert_eq!(slugify_string(""), "");
}

#[test]
fn slug_lowercases_unicode() {
    assert_eq!(slugify_string("ÜBER Straße"), "über-straße");
}

#[test]
fn trim_and_slug_parts() {
    assert_eq!(trim_white("\t a b \n"), "a b");
    assert_eq!(slug_from_lowered("-a b-"), "a-b");
}

#[test]
fn colour_is_the_rolling_hash_of_the_name() {
    assert_eq!(string_to_hex_color("red"), "#01B891");
    assert_eq!(string_to_hex_color("Red"), "#014071");
    assert_eq!(string_to_hex_color(""), "#000000");
    assert_eq!(string_to_hex_color("project"), "#904B19");
    assert_eq!(string_to_hex_color("é"), "#001846");
    assert_eq!(string_to_hex_color("red"), string_to_hex_color("red"));
}
