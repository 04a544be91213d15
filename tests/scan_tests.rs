use asset_scanner::asset_path::{join_components, relative_to, split_file_name, virtual_path};
use asset_scanner::category::{classify, AssetCategory};
use asset_scanner::scan::{asset_from_entry, scan_unreal_project, ScanError, UnrealAsset, WalkEntry};
use asset_scanner::text::{find_last, has_prefix, replace_backslashes, same_text};

fn strings(parts: &[&str]) -> Vec<String> {
    parts.iter().map(|p| p.to_string()).collect()
}

fn root() -> Vec<String> {
    strings(&["/", "proj", "Content"])
}

fn entry(rel: &[&str], is_file: bool) -> WalkEntry {
    let mut components = root();
    components.extend(rel.iter().map(|p| p.to_string()));
    let file_path = format!("/proj/Content/{}", rel.join("/"));
    WalkEntry { components, file_path, is_file }
}

fn scan(entries: &[WalkEntry]) -> Vec<UnrealAsset> {
    let listing: Vec<WalkEntry> = entries
        .iter()
        .map(|e| WalkEntry {
            components: e.components.clone(),
            file_path: e.file_path.clone(),
            is_file: e.is_file,
        })
        .collect();
    scan_unreal_project(true, &root(), &listing).unwrap()
}

fn summary(assets: &[UnrealAsset]) -> Vec<(String, String, String, String)> {
    let mut v: Vec<_> = assets
        .iter()
        .map(|a| (a.name.clone(), a.path.clone(), a.file_path.clone(), a.asset_type.label()))
        .collect();
    v.sort();
    v
}

#[test]
fn missing_content_root_fails() {
    let r = scan_unreal_project(false, &root(), &Vec::new());
    assert!(matches!(r, Err(ScanError::ContentRootMissing)));
    let listed = vec![entry(&["BP_Hero.uasset"], true)];
    let r = scan_unreal_project(false, &root(), &listed);
    assert!(matches!(r, Err(ScanError::ContentRootMissing)));
}

#[test]
fn error_message_text() {
    assert_eq!(ScanError::ContentRootMissing.message(), "Content folder not found");
}

#[test]
fn empty_content_root_gives_empty_list() {
    let r = scan_unreal_project(true, &root(), &Vec::new()).unwrap();
    assert!(r.is_empty());
    let only_dirs = scan(&[entry(&[], false), entry(&["Maps"], false), entry(&["Maps", "notes.txt"], true)]);
    assert!(only_dirs.is_empty());
}

#[test]
fn map_files_are_levels() {
    let out = scan(&[
        entry(&["BP_Arena.umap"], true),
        entry(&["Maps", "T_Desert.umap"], true),
        entry(&["Level1.umap"], true),
    ]);
    assert_eq!(out.len(), 3);
    for a in &out {
        assert_eq!(a.asset_type, AssetCategory::Level);
    }
}

#[test]
fn prefix_rules_first_match() {
    assert_eq!(classify(false, "BP_M_Foo"), AssetCategory::Blueprint);
    assert_eq!(classify(false, "BP_Hero"), AssetCategory::Blueprint);
    assert_eq!(classify(false, "M_Skin"), AssetCategory::Material);
    assert_eq!(classify(false, "SM_Rock"), AssetCategory::StaticMesh);
    assert_eq!(classify(false, "T_Grass"), AssetCategory::Texture);
    assert_eq!(classify(false, "Rock"), AssetCategory::Asset);
    assert_eq!(classify(false, "bp_lower"), AssetCategory::Asset);
    assert_eq!(classify(false, "XBP_Foo"), AssetCategory::Asset);
    assert_eq!(classify(false, "BP"), AssetCategory::Asset);
    assert_eq!(classify(true, "BP_Hero"), AssetCategory::Level);
    let out = scan(&[entry(&["BP_M_Foo.uasset"], true)]);
    assert_eq!(out[0].asset_type, AssetCategory::Blueprint);
}

#[test]
fn category_labels() {
    assert_eq!(AssetCategory::Level.label(), "Level");
    assert_eq!(AssetCategory::Blueprint.label(), "Blueprint");
    assert_eq!(AssetCategory::Material.label(), "Material");
    assert_eq!(AssetCategory::StaticMesh.label(), "StaticMesh");
    assert_eq!(AssetCategory::Texture.label(), "Texture");
    assert_eq!(AssetCategory::Asset.label(), "Asset");
}

#[test]
fn other_extensions_excluded() {
    let out = scan(&[
        entry(&["readme.txt"], true),
        entry(&["T_Icon.png"], true),
        entry(&["Makefile"], true),
        entry(&["Foo.UASSET"], true),
        entry(&["Foo.uasset.bak"], true),
        entry(&[".uasset"], true),
        entry(&["Dir.uasset"], false),
    ]);
    assert!(out.is_empty());
}

#[test]
fn virtual_path_of_nested_asset() {
    let out = scan(&[entry(&["Sub", "Foo.uasset"], true)]);
    assert_eq!(out.len(), 1);
    assert_eq!(out[0].path, "/Game/Sub/Foo");
    assert_eq!(out[0].name, "Foo");
    assert_eq!(out[0].file_path, "/proj/Content/Sub/Foo.uasset");
    assert_eq!(out[0].asset_type, AssetCategory::Asset);
}

#[test]
fn virtual_path_backslashes_become_slashes() {
    assert_eq!(virtual_path(&strings(&["Sub\\Deep", "Foo.uasset"])), "/Game/Sub/Deep/Foo");
    assert_eq!(replace_backslashes("a\\b\\c"), "a/b/c");
    assert_eq!(replace_backslashes(""), "");
}

#[test]
fn virtual_path_strips_only_last_extension() {
    assert_eq!(virtual_path(&strings(&["v1.2", "Foo.uasset"])), "/Game/v1.2/Foo");
    assert_eq!(virtual_path(&strings(&["Foo.bar.uasset"])), "/Game/Foo.bar");
    assert_eq!(virtual_path(&strings(&["NoDot"])), "/Game/NoDot");
}

#[test]
fn scanning_twice_gives_same_records() {
    let tree = vec![
        entry(&["Characters", "BP_Hero.uasset"], true),
        entry(&["Maps", "Level1.umap"], true),
        entry(&["Props", "SM_Crate.uasset"], true),
    ];
    let first = summary(&scan(&tree));
    let second = summary(&scan(&tree));
    assert_eq!(first, second);
    let reversed: Vec<WalkEntry> = tree
        .iter()
        .rev()
        .map(|e| WalkEntry { components: e.components.clone(), file_path: e.file_path.clone(), is_file: e.is_file })
        .collect();
    assert_eq!(summary(&scan(&reversed)), first);
}

#[test]
fn end_to_end_scenario() {
    let out = scan(&[
        entry(&[], false),
        entry(&["Characters"], false),
        entry(&["Characters", "BP_Hero.uasset"], true),
        entry(&["Maps"], false),
        entry(&["Maps", "Level1.umap"], true),
        entry(&["Materials"], false),
        entry(&["Materials", "M_Skin.uasset"], true),
        entry(&["readme.txt"], true),
    ]);
    assert_eq!(out.len(), 3);
    let got: Vec<(String, AssetCategory)> = out.iter().map(|a| (a.path.clone(), a.asset_type)).collect();
    assert_eq!(
        got,
        vec![
            ("/Game/Characters/BP_Hero".to_string(), AssetCategory::Blueprint),
            ("/Game/Maps/Level1".to_string(), AssetCategory::Level),
            ("/Game/Materials/M_Skin".to_string(), AssetCategory::Material),
        ]
    );
    assert!(out.iter().all(|a| !a.file_path.ends_with("readme.txt")));
}

#[test]
fn entry_outside_root_is_skipped() {
    let stray = WalkEntry {
        components: strings(&["/", "elsewhere", "BP_Hero.uasset"]),
        file_path: "/elsewhere/BP_Hero.uasset".to_string(),
        is_file: true,
    };
    assert!(asset_from_entry(&root(), &stray).is_none());
    let r = scan_unreal_project(true, &root(), &vec![stray]).unwrap();
    assert!(r.is_empty());
}

#[test]
fn file_name_splitting() {
    assert_eq!(split_file_name("Foo.uasset"), Some(("Foo".to_string(), "uasset".to_string())));
    assert_eq!(split_file_name("a.b.umap"), Some(("a.b".to_string(), "umap".to_string())));
    assert_eq!(split_file_name("trailing."), Some(("trailing".to_string(), "".to_string())));
    assert_eq!(split_file_name(".hidden"), None);
    assert_eq!(split_file_name("plain"), None);
}

#[test]
fn relative_paths() {
    assert_eq!(relative_to(&root(), &strings(&["/", "proj", "Content", "A", "b.umap"])), Some(strings(&["A", "b.umap"])));
    assert_eq!(relative_to(&root(), &strings(&["/", "proj"])), None);
    assert_eq!(relative_to(&root(), &strings(&["/", "proj", "Other", "x"])), None);
    assert_eq!(join_components(&strings(&["A", "B", "c.umap"])), "A/B/c.umap");
    assert_eq!(join_components(&Vec::new()), "");
}

#[test]
fn text_helpers() {
    assert!(has_prefix("SM_Rock", "SM_"));
    assert!(!has_prefix("S", "SM_"));
    assert!(same_text("umap", "umap"));
    assert!(!same_text("umap", "uma"));
    assert_eq!(find_last("a.b.c", '.'), Some(3));
    assert_eq!(find_last("abc", '.'), None);
}
