use gdeditor::filesystem::{EditorFileSystem, FileIcon, FileSystemDock, ResourceUid};

#[test]
fn file_icon_from_extension() {
    assert_eq!(FileIcon::from_extension("tscn"), FileIcon::Scene);
    assert_eq!(FileIcon::from_extension("gd"), FileIcon::Script);
    assert_eq!(FileIcon::from_extension("tres"), FileIcon::Resource);
    assert_eq!(FileIcon::from_extension("png"), FileIcon::Texture);
    assert_eq!(FileIcon::from_extension("wav"), FileIcon::Audio);
    assert_eq!(FileIcon::from_extension("gdshader"), FileIcon::Shader);
    assert_eq!(FileIcon::from_extension("ttf"), FileIcon::Font);
    assert_eq!(FileIcon::from_extension("godot"), FileIcon::Config);
    assert_eq!(FileIcon::from_extension("xyz"), FileIcon::Unknown);
}

#[test]
fn file_icon_case_insensitive() {
    assert_eq!(FileIcon::from_extension("TSCN"), FileIcon::Scene);
    assert_eq!(FileIcon::from_extension("PNG"), FileIcon::Texture);
    assert_eq!(FileIcon::from_extension("Gd"), FileIcon::Script);
}

/// The files a scan of the sample project yields (relative paths, sorted).
fn project_files() -> Vec<String> {
    vec![
        "icon.png".to_string(),
        "project.godot".to_string(),
        "scenes/main.tscn".to_string(),
        "scenes/player.tscn".to_string(),
        "scripts/main.gd".to_string(),
    ]
}

fn make_dock() -> FileSystemDock {
    FileSystemDock::new()
}

#[test]
fn dock_refresh_populates_entries() {
    let mut dock = make_dock();
    let count = dock.refresh(project_files());
    assert!(count >= 4);
    assert!(!dock.entries().is_empty());
}

#[test]
fn dock_entries_include_directories() {
    let mut dock = make_dock();
    dock.refresh(project_files());
    let dirs: Vec<_> = dock.entries().iter().filter(|e| e.is_directory).collect();
    assert!(dirs.len() >= 2); // scenes, scripts
}

#[test]
fn dock_entries_have_correct_icons() {
    let mut dock = make_dock();
    dock.refresh(project_files());
    // Expand all dirs to see files.
    dock.expand_dir("scenes");
    dock.expand_dir("scripts");

    let scenes = dock.entries_by_type(FileIcon::Scene);
    assert!(scenes.len() >= 2); // main.tscn, player.tscn

    let scripts = dock.entries_by_type(FileIcon::Script);
    assert!(scripts.len() >= 1); // main.gd
}

#[test]
fn dock_filter() {
    let mut dock = make_dock();
    dock.refresh(project_files());
    dock.expand_dir("scenes");
    dock.expand_dir("scripts");

    let total = dock.entries().len();
    dock.set_filter("main");
    assert!(dock.entries().len() < total);
    // Should find main.tscn and main.gd.
    let names: Vec<&str> = dock
        .entries()
        .iter()
        .filter(|e| !e.is_directory)
        .map(|e| e.name.as_str())
        .collect();
    assert!(names.contains(&"main.tscn") || names.contains(&"main.gd"));

    dock.clear_filter();
    assert_eq!(dock.filter(), "");
}

#[test]
fn dock_favorites() {
    let mut dock = make_dock();
    dock.refresh(project_files());

    assert!(!dock.is_favorite("res://scenes/main.tscn"));
    assert!(dock.add_favorite("res://scenes/main.tscn"));
    assert!(dock.is_favorite("res://scenes/main.tscn"));
    assert_eq!(dock.favorites().len(), 1);

    // Adding again returns false.
    assert!(!dock.add_favorite("res://scenes/main.tscn"));

    assert!(dock.remove_favorite("res://scenes/main.tscn"));
    assert!(!dock.is_favorite("res://scenes/main.tscn"));
    assert!(dock.favorites().is_empty());
}

#[test]
fn dock_select_and_deselect() {
    let mut dock = make_dock();
    dock.refresh(project_files());

    assert!(dock.selected_index().is_none());
    assert!(dock.select(0));
    assert_eq!(dock.selected_index(), Some(0));
    assert!(dock.selected_entry().is_some());

    dock.deselect();
    assert!(dock.selected_index().is_none());

    assert!(!dock.select(9999));
}

#[test]
fn dock_expand_collapse() {
    let mut dock = make_dock();
    dock.refresh(project_files());

    let entries_before = dock.entries().len();
    dock.expand_dir("scenes");
    let entries_after = dock.entries().len();
    assert!(entries_after > entries_before);

    dock.collapse_dir("scenes");
    let entries_collapsed = dock.entries().len();
    assert!(entries_collapsed < entries_after);
}

#[test]
fn dock_navigate_to_expands_parents() {
    let mut dock = make_dock();
    dock.refresh(project_files());

    dock.navigate_to("res://scenes/main.tscn");
    // The scenes dir should now be expanded.
    let entry = dock.selected_entry();
    assert!(entry.is_some());
    if let Some(e) = entry {
        assert_eq!(e.name, "main.tscn");
    }
}

#[test]
fn dock_find_entry() {
    let mut dock = make_dock();
    dock.refresh(project_files());
    dock.expand_dir("scenes");

    let idx = dock.find_entry("res://scenes/main.tscn");
    assert!(idx.is_some());
}

#[test]
fn dock_directory_entry_child_count() {
    let mut dock = make_dock();
    dock.refresh(project_files());

    let scenes_dir = dock
        .entries()
        .iter()
        .find(|e| e.is_directory && e.name == "scenes");
    assert!(scenes_dir.is_some());
    if let Some(d) = scenes_dir {
        assert_eq!(d.child_count, 2); // main.tscn, player.tscn
    }
}

#[test]
fn dock_file_entry_has_res_path() {
    let mut dock = make_dock();
    dock.refresh(project_files());
    dock.expand_dir("scenes");

    let main = dock
        .entries()
        .iter()
        .find(|e| e.name == "main.tscn");
    assert!(main.is_some());
    assert_eq!(main.unwrap().res_path, "res://scenes/main.tscn");
}

fn make_project() -> EditorFileSystem {
    let mut fs = EditorFileSystem::new("/projects/demo");
    fs.record_scan(project_files());
    fs
}

#[test]
fn files_by_extension() {
    let fs = make_project();
    let tscn_files = fs.files_by_extension("tscn");
    assert_eq!(tscn_files.len(), 2);
}

#[test]
fn uid_assign_and_lookup() {
    let mut fs = make_project();
    let uid = fs.assign_uid("res://scenes/main.tscn");
    assert!(uid.is_valid());
    let uid2 = fs.assign_uid("res://scenes/main.tscn");
    assert_eq!(uid, uid2);
    assert_eq!(fs.get_uid("res://scenes/main.tscn"), Some(uid));
    assert_eq!(fs.get_path_for_uid(uid), Some("res://scenes/main.tscn"));
}

#[test]
fn uid_count() {
    let mut fs = make_project();
    assert_eq!(fs.uid_count(), 0);
    fs.assign_uid("res://a.tscn");
    fs.assign_uid("res://b.tres");
    assert_eq!(fs.uid_count(), 2);
}

#[test]
fn unknown_uid_returns_none() {
    let fs = make_project();
    assert!(fs.get_uid("res://nope").is_none());
    assert!(fs.get_path_for_uid(ResourceUid::new(999)).is_none());
}

#[test]
fn uids_are_numbered_in_order_and_name_one_path() {
    let mut fs = EditorFileSystem::new("/projects/demo");
    assert_eq!(fs.project_root(), "/projects/demo");
    let a = fs.assign_uid("res://a.tscn");
    let b = fs.assign_uid("res://b.tscn");
    assert_eq!((a.id(), b.id()), (1, 2));
    assert_ne!(a, b);
    assert_eq!(fs.get_path_for_uid(b), Some("res://b.tscn"));
    assert!(!ResourceUid::new(-1).is_valid());
    assert_eq!(fs.record_scan(vec!["x.gd".to_string()]), 1);
    assert_eq!(fs.files(), &["x.gd".to_string()]);
    assert_eq!(fs.uid_count(), 2);
}
