use gdeditor::export_presets::ExportPresets;
use std::collections::BTreeMap;

/// Acceptance (pat-2nng7): creating a preset and exporting produces a target
/// artifact and the preset persists in `export_presets.cfg`.
#[test]
fn systems_export_presets_create_and_export() {
    let mut presets = ExportPresets::new();

    // Create and configure a Windows preset.
    let win = presets.create("Windows Desktop", "windows");
    assert_eq!(presets.len(), 1);
    assert!(presets.set_export_path(win, "build/game.exe"));
    assert!(presets.add_feature(win, "64"));
    assert!(presets.add_resource(win, "res://main.tscn"));

    // Exporting produces a target artifact containing the preset's settings.
    let mut fs = BTreeMap::new();
    let artifact = presets.export(win, &mut fs).expect("exported");
    assert_eq!(artifact, "build/game.exe");
    let content = &fs["build/game.exe"];
    assert!(content.contains("platform=windows"));
    assert!(content.contains("feature=64"));
    assert!(content.contains("resource=res://main.tscn"));

    // The preset keeps its settings for persisting to export_presets.cfg.
    assert_eq!(presets.len(), 1);
    let p = presets.get(0).unwrap();
    assert_eq!(p.platform, "windows");
    assert_eq!(p.export_path, "build/game.exe");

    // Edit (rename, retarget platform) and delete operate on the list.
    let lin = presets.create("Linux", "linux");
    assert_eq!(presets.len(), 2);
    assert!(presets.rename(lin, "Linux/X11"));
    assert!(presets.set_platform(lin, "linuxbsd"));
    assert_eq!(presets.get(lin).unwrap().name, "Linux/X11");
    assert_eq!(presets.get(lin).unwrap().platform, "linuxbsd");
    assert!(presets.remove(lin));
    assert_eq!(presets.len(), 1);

    // A preset with no export path can't be exported.
    let web = presets.create("Web", "web");
    assert!(presets.export(web, &mut fs).is_none());
    // …and operations on a missing index return false.
    assert!(!presets.rename(99, "x"));
    assert!(!presets.remove(99));
}

#[test]
fn export_entry_gives_path_and_manifest() {
    let mut presets = ExportPresets::new();
    let win = presets.create("Windows Desktop", "windows");
    assert!(presets.export_entry(win).is_none());
    assert!(presets.set_export_path(win, "build/game.exe"));
    let (path, manifest) = presets.export_entry(win).unwrap();
    assert_eq!(path, "build/game.exe");
    assert_eq!(manifest, "platform=windows\nname=Windows Desktop\n");
    assert!(presets.export_entry(7).is_none());
}
