use gdeditor::fs_import_pipeline::{ImportPipeline, ImportStatus};

/// Acceptance (pat-3b8zp): changing an imported asset triggers a re-import
/// and the dock reflects import status; import settings are editable per
/// asset.
#[test]
fn fs_dock_import_hooks_reimport_on_change() {
    let mut pipe = ImportPipeline::new();

    // Register an importable texture — initially not imported.
    pipe.register("art/hero.png", 1);
    assert_eq!(pipe.status("art/hero.png"), Some(ImportStatus::NotImported));
    assert!(pipe.is_stale("art/hero.png"));

    // Processing stale imports imports it; the dock now shows Imported.
    assert_eq!(pipe.process_stale(), 1);
    assert_eq!(pipe.status("art/hero.png"), Some(ImportStatus::Imported));
    assert_eq!(pipe.asset("art/hero.png").unwrap().imported_version, Some(1));
    assert_eq!(pipe.reimport_count(), 1);
    assert!(!pipe.is_stale("art/hero.png"));

    // Import settings are editable per asset, and editing them marks the
    // asset stale (re-import required).
    assert!(pipe.set_setting("art/hero.png", "filter", "nearest"));
    assert_eq!(pipe.setting("art/hero.png", "filter"), Some("nearest"));
    assert_eq!(pipe.status("art/hero.png"), Some(ImportStatus::Stale));

    // Re-processing clears it back to Imported.
    assert_eq!(pipe.process_stale(), 1);
    assert_eq!(pipe.status("art/hero.png"), Some(ImportStatus::Imported));
    assert_eq!(pipe.reimport_count(), 2);

    // Changing the source file triggers a re-import: status goes Stale.
    assert!(pipe.source_changed("art/hero.png", 2));
    assert_eq!(pipe.status("art/hero.png"), Some(ImportStatus::Stale));
    assert!(pipe.is_stale("art/hero.png"));

    // After processing, it's imported at the new version.
    assert_eq!(pipe.process_stale(), 1);
    assert_eq!(pipe.status("art/hero.png"), Some(ImportStatus::Imported));
    assert_eq!(pipe.asset("art/hero.png").unwrap().imported_version, Some(2));
    assert_eq!(pipe.reimport_count(), 3);

    // A no-op source change (same version already imported) is not stale.
    assert!(!pipe.source_changed("art/hero.png", 2));
    assert!(!pipe.is_stale("art/hero.png"));

    // Unregistered assets report nothing.
    assert_eq!(pipe.status("art/missing.png"), None);
    assert!(!pipe.set_setting("art/missing.png", "k", "v"));
    assert!(!pipe.source_changed("art/missing.png", 9));
}

/// `process_stale` re-imports every pending asset and reports the count.
#[test]
fn process_stale_imports_all_pending() {
    let mut pipe = ImportPipeline::new();
    pipe.register("a.png", 1);
    pipe.register("b.wav", 1);
    pipe.register("c.png", 1);
    // All three are pending initial import.
    assert_eq!(pipe.process_stale(), 3);
    assert_eq!(pipe.reimport_count(), 3);
    // Nothing stale now → a second pass is a no-op.
    assert_eq!(pipe.process_stale(), 0);

    // Touch two of them; only those re-import.
    pipe.source_changed("a.png", 2);
    pipe.set_setting("c.png", "mono", "true");
    assert_eq!(pipe.process_stale(), 2);
    assert_eq!(pipe.reimport_count(), 5);
}
