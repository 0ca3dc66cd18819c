use gdeditor::fs_file_ops::VirtualFs;

/// Acceptance (pat-luft1): renaming/moving a resource updates references in
/// dependent scenes/resources, and delete/duplicate/new-folder affect the
/// filesystem correctly.
#[test]
fn fs_dock_file_ops_remap_dependencies() {
    let mut fs = VirtualFs::new();
    fs.add_file("res://art/old.png", "PNGDATA");
    fs.add_file(
        "res://scenes/level.tscn",
        "[ext_resource path=\"res://art/old.png\" type=\"Texture2D\" id=\"1\"]\n[node name=\"Sprite\"]",
    );
    fs.add_file("res://scenes/menu.tscn", "no refs here");

    // New folder.
    assert!(fs.new_folder("res://textures"));
    assert!(fs.path_exists("res://textures"));
    // Can't create a folder where something already exists.
    assert!(!fs.new_folder("res://textures"));

    // Move/rename the resource into the new folder.
    assert!(fs.rename("res://art/old.png", "res://textures/new.png"));
    assert!(!fs.path_exists("res://art/old.png"));
    assert!(fs.path_exists("res://textures/new.png"));

    // Dependent scene's reference is remapped to the new path.
    let level = fs.read("res://scenes/level.tscn").unwrap();
    assert!(level.contains("res://textures/new.png"));
    assert!(!level.contains("res://art/old.png"));

    // Unrelated file is untouched.
    assert_eq!(fs.read("res://scenes/menu.tscn"), Some("no refs here"));

    // Renaming a missing file, or onto an existing one, fails.
    assert!(!fs.rename("res://art/old.png", "res://x.png"));
    assert!(!fs.rename("res://textures/new.png", "res://scenes/level.tscn"));

    // Duplicate the resource.
    assert!(fs.duplicate("res://textures/new.png", "res://textures/new_copy.png"));
    assert_eq!(fs.read("res://textures/new_copy.png"), Some("PNGDATA"));
    // Duplicating onto an existing path fails.
    assert!(!fs.duplicate("res://textures/new.png", "res://textures/new_copy.png"));

    // Delete.
    assert!(fs.delete("res://textures/new_copy.png"));
    assert!(!fs.path_exists("res://textures/new_copy.png"));
    assert!(!fs.delete("res://does/not/exist"));

    // Deleting the new folder removes it.
    assert!(fs.delete("res://textures"));
    assert!(!fs.path_exists("res://textures"));
}

/// `move_file` behaves like rename, remapping every dependent reference.
#[test]
fn move_remaps_multiple_dependents() {
    let mut fs = VirtualFs::new();
    fs.add_file("res://a.tres", "data");
    fs.add_file("res://one.tscn", "uses res://a.tres here");
    fs.add_file("res://two.tscn", "also res://a.tres twice: res://a.tres");

    assert!(fs.move_file("res://a.tres", "res://sub/a.tres"));
    assert_eq!(fs.read("res://one.tscn"), Some("uses res://sub/a.tres here"));
    assert_eq!(
        fs.read("res://two.tscn"),
        Some("also res://sub/a.tres twice: res://sub/a.tres")
    );
}

#[test]
fn rename_and_duplicate_refuse_a_folder_destination() {
    let mut fs = VirtualFs::new();
    fs.add_file("res://a.tres", "data");
    assert!(fs.new_folder("res://textures"));
    assert!(!fs.rename("res://a.tres", "res://textures"));
    assert!(!fs.duplicate("res://a.tres", "res://textures"));
    assert_eq!(fs.read("res://a.tres"), Some("data"));
    assert_eq!(fs.read("res://textures"), None);
    assert!(fs.duplicate("res://a.tres", "res://b.tres"));
}
