use mbl2::pack::{loaded_resource, pack_file_path, pack_path_from_matches, path_join_into, strip_path_prefix};

#[test]
fn hbui_assets_come_from_pack() {
    assert_eq!(pack_file_path("assets/gui/dist/hbui/index.html").as_deref(), Some("hbui/index.html"));
    assert_eq!(pack_file_path("gui/dist/hbui/fonts/a.woff").as_deref(), Some("hbui/fonts/a.woff"));
}

#[test]
fn each_folder_maps_to_its_pack_folder() {
    assert_eq!(pack_file_path("assets/skin_packs/persona/x.json").as_deref(), Some("persona/x.json"));
    assert_eq!(pack_file_path("renderer/materials/Sky.material.bin").as_deref(), Some("renderer/materials/Sky.material.bin"));
    assert_eq!(pack_file_path("assets/resource_packs/vanilla/cameras/first_person.json").as_deref(), Some("vanilla_cameras/first_person.json"));
}

#[test]
fn other_assets_are_not_replaced() {
    assert_eq!(pack_file_path("assets/textures/blocks/dirt.png"), None);
    assert_eq!(pack_file_path("gui/dist/hbuiX/a.js"), None);
    assert_eq!(pack_file_path("/assets/gui/dist/hbui/a.js"), None);
    assert_eq!(pack_file_path(""), None);
}

#[test]
fn folder_itself_gives_pack_folder() {
    assert_eq!(pack_file_path("renderer").as_deref(), Some("renderer/"));
}

#[test]
fn strip_path_prefix_is_component_wise() {
    assert_eq!(strip_path_prefix("assets/a/b", "assets/"), Some("a/b"));
    assert_eq!(strip_path_prefix("assets/a/b", "assets"), Some("a/b"));
    assert_eq!(strip_path_prefix("assetsx/a", "assets"), None);
}

#[test]
fn join_appends_segments() {
    let mut out = String::from("x:");
    path_join_into(&mut out, &["hbui/", "index.html"]);
    assert_eq!(out, "x:hbui/index.html");
    let mut empty = String::new();
    path_join_into(&mut empty, &[]);
    assert_eq!(empty, "");
}

#[test]
fn empty_load_is_not_in_pack() {
    assert_eq!(loaded_resource(Vec::new()), None);
    assert_eq!(loaded_resource(b"data".to_vec()), Some(b"data".to_vec()));
}

#[test]
fn first_stripped_rule_wins() {
    assert_eq!(pack_path_from_matches(&[None, Some("a.json"), Some("b.json"), None]).as_deref(), Some("persona/a.json"));
    assert_eq!(pack_path_from_matches(&[Some("x.html"), Some("y"), None, None]).as_deref(), Some("hbui/x.html"));
    assert_eq!(pack_path_from_matches(&[None, None, None, Some("c.json")]).as_deref(), Some("vanilla_cameras/c.json"));
    assert_eq!(pack_path_from_matches(&[None, None, None, None]), None);
    assert_eq!(pack_path_from_matches(&[]), None);
    assert_eq!(pack_path_from_matches(&[None, None, None, None, Some("extra")]), None);
}
