use gdeditor::editor_mode::{viewport_backend, EditorMode, PlayState, RunControls, RunTarget};
use gdeditor::filesystem::{files_by_extension, res_relative, FileIcon, FileSystemDock};
use gdeditor::find_replace::{FindReplace, FindReplaceConfig, FindReplaceError};
use gdeditor::fs_import_pipeline::{ImportPipeline, ImportStatus};
use gdeditor::import::{FbxSceneImporter, GltfSceneImporter, ObjSceneImporter, TresImporter, TscnImporter};
use gdeditor::import_settings::ImportResourceType;
use gdeditor::inspector::{InspectorVisibility, LinkedValues, PropertyCategory, PropertyUsage};
use gdeditor::main_screen::{MainPane, MainScreenSwitcher, MainView};
use gdeditor::menu_enablement::{is_enabled, EditorMenuState, MenuItem};
use gdeditor::menu_shortcuts::{KeyShortcut, ShortcutMenu};
use gdeditor::mode_placeholder::PaneContent;
use gdeditor::multi_caret::MultiCaret;
use gdeditor::multi_document::{CloseOutcome, DocumentKind, MultiDocModel, OpenDocument, SavePromptChoice};
use gdeditor::new_scene::SceneWorkspace;
use gdeditor::open_recent::OpenRecent;
use gdeditor::open_scripts_panel::OpenScriptsPanel;

#[test]
fn default_build_uses_gpu_viewport() {
    assert_eq!(viewport_backend(), "wgpu");
}

#[test]
fn mode_keys_parse_back_and_differ() {
    let modes = EditorMode::all();
    for m in modes {
        assert_eq!(EditorMode::from_str_key(m.key()), Some(m));
    }
    for (i, a) in modes.iter().enumerate() {
        for b in &modes[i + 1..] {
            assert_ne!(a.key(), b.key());
        }
    }
    assert_eq!(EditorMode::from_str_key("2D"), None);
    assert_eq!(EditorMode::from_str_key(""), None);
}

#[test]
fn toggling_pause_twice_restores_state() {
    let mut rc = RunControls::new();
    rc.toggle_pause();
    rc.toggle_pause();
    assert_eq!(rc.state, PlayState::Stopped);
    rc.play(RunTarget::CurrentScene);
    rc.toggle_pause();
    assert_eq!(rc.state, PlayState::Paused);
    rc.toggle_pause();
    assert_eq!(rc.state, PlayState::Playing);
    rc.pause();
    rc.resume();
    assert_eq!(rc.state, PlayState::Playing);
    assert!(rc.last_ran_current);
}

#[test]
fn stopped_controls_stay_stopped() {
    let mut rc = RunControls::new();
    rc.pause();
    rc.resume();
    rc.toggle_pause();
    assert_eq!(rc.state, PlayState::Stopped);
    assert_eq!(rc.running_scene("res://a.tscn", "res://b.tscn"), None);
    rc.play(RunTarget::CustomScene("res://c.tscn".to_string()));
    rc.stop();
    assert!(!rc.is_running());
}

#[test]
fn exactly_one_main_screen_button_is_pressed() {
    let mut s = MainScreenSwitcher::new();
    for m in MainScreenSwitcher::MODES {
        s.select(m);
        let pressed: Vec<_> = s.button_states().into_iter().filter(|b| b.active).collect();
        assert_eq!(pressed.len(), 1);
        assert_eq!(pressed[0].mode, m);
    }
    // The Game mode has no main-screen button: selecting it changes
    // nothing, so one button stays pressed.
    assert!(!s.select(EditorMode::Game));
    assert_eq!(s.button_states().iter().filter(|b| b.active).count(), 1);
    assert_eq!(s.main_view(), MainView::AssetLibBrowser);
}

#[test]
fn placeholder_message_names_the_view() {
    match MainView::GamePreview.pane_content() {
        PaneContent::Placeholder(p) => assert_eq!(p.message, "Game view is not available yet"),
        PaneContent::View(_) => panic!("the game view is a placeholder"),
    }
    let mut pane = MainPane::new();
    pane.route_to(EditorMode::AssetLib);
    match pane.pane_content() {
        PaneContent::Placeholder(p) => assert_eq!(p.message, "AssetLib browser is not available yet"),
        PaneContent::View(_) => panic!("AssetLib is a placeholder"),
    }
}

#[test]
fn accelerator_text_lists_modifiers_in_order() {
    assert_eq!(KeyShortcut::new(true, true, true, 'a').accelerator_text(), "Ctrl+Shift+Alt+A");
    assert_eq!(KeyShortcut::new(false, false, true, '1').accelerator_text(), "Alt+1");
    assert_eq!(KeyShortcut::new(false, false, false, 'é').accelerator_text(), "é");
    let mut menu: ShortcutMenu<u8> = ShortcutMenu::new();
    menu.bind(1, "First", KeyShortcut::ctrl('k'));
    menu.bind(2, "Second", KeyShortcut::ctrl('k'));
    // The first binding of a shortcut wins.
    assert_eq!(menu.fire(KeyShortcut::ctrl('k')), Some(1));
    assert_eq!(menu.item_label(&2).as_deref(), Some("Second\tCtrl+K"));
    assert_eq!(menu.accelerator_for(&3), None);
}

#[test]
fn typing_at_carets_lands_after_each_insertion() {
    let mut mc = MultiCaret::new("ab");
    assert!(mc.add_caret(1));
    assert!(mc.add_caret(2));
    assert!(!mc.add_caret(99)); // clamps to 2, already a caret
    mc.insert("é");
    assert_eq!(mc.text(), "éaébé");
    assert_eq!(mc.carets(), &[2, 5, 8]);
    for &c in mc.carets() {
        assert_eq!(&mc.text().as_bytes()[c - 2..c], "é".as_bytes());
    }
    assert!(!mc.select_next_occurrence(""));
    mc.collapse();
    assert_eq!(mc.carets(), &[2]);
}

#[test]
fn untitled_scene_titles_are_distinct() {
    let mut ws = SceneWorkspace::new();
    let mut titles = Vec::new();
    for _ in 0..12 {
        ws.new_scene();
        titles.push(ws.active_title().unwrap().to_string());
    }
    assert_eq!(titles[0], "untitled");
    assert_eq!(titles[9], "untitled (10)");
    for (i, a) in titles.iter().enumerate() {
        for b in &titles[i + 1..] {
            assert_ne!(a, b);
        }
    }
}

#[test]
fn open_recent_is_bounded_deduplicated_and_idempotent() {
    let mut r = OpenRecent::new(3);
    for p in ["a", "b", "c", "d", "b"] {
        r.record_open(p);
    }
    assert_eq!(r.entries(), &["b".to_string(), "d".to_string(), "c".to_string()]);
    let before = r.entries().to_vec();
    r.record_open("b");
    assert_eq!(r.entries(), before.as_slice());
    assert_eq!(OpenRecent::new(0).max_entries(), 1);
    assert_eq!(OpenRecent::default().max_entries(), 20);
    r.clear();
    assert!(r.is_empty());
}

#[test]
fn opening_a_script_twice_focuses_it() {
    let mut p = OpenScriptsPanel::new();
    p.open("a.gd");
    p.open("b.gd");
    assert_eq!(p.open("a.gd"), 0);
    assert_eq!(p.len(), 2);
    // Closing an entry after the active one leaves the selection alone.
    assert!(p.close(1));
    assert_eq!(p.active_path(), Some("a.gd"));
}

#[test]
fn toggling_a_link_twice_restores_it() {
    let mut l = LinkedValues::new();
    l.link("size");
    assert!(l.toggle("scale"));
    assert!(!l.toggle("scale"));
    assert!(!l.is_linked("scale"));
    assert!(l.is_linked("size"));
    l.link("size");
    l.unlink("size");
    assert!(!l.is_linked("size"));
}

#[test]
fn usage_flags_decide_visibility() {
    let empty = PropertyUsage::empty();
    assert_eq!(empty.with(PropertyUsage::EDITOR).inspector_visibility(), InspectorVisibility::Editable);
    let locked = empty.with(PropertyUsage::EDITOR).with(PropertyUsage::READ_ONLY);
    assert_eq!(locked.inspector_visibility(), InspectorVisibility::ReadOnly);
    assert!(locked.contains(PropertyUsage::READ_ONLY));
    // Read-only without the editor flag is still hidden.
    assert_eq!(PropertyUsage::new(PropertyUsage::READ_ONLY).inspector_visibility(), InspectorVisibility::Hidden);
    assert_eq!(PropertyUsage::default().inspector_visibility(), InspectorVisibility::Hidden);
    assert_eq!(PropertyCategory::categorize("metadata/notes"), PropertyCategory::Script);
    assert_eq!(PropertyCategory::categorize("script"), PropertyCategory::Misc);
}

#[test]
fn find_replace_errors_and_literal_patterns() {
    let fr = FindReplace::new();
    assert_eq!(fr.find_all("x", &FindReplaceConfig::new("")), Err(FindReplaceError::EmptyPattern));
    assert!(matches!(
        fr.count_matches("x", &FindReplaceConfig::new("(").with_regex()),
        Err(FindReplaceError::InvalidRegex(_))
    ));
    assert_eq!(
        fr.replace_at("aaa", &FindReplaceConfig::new("a"), 3),
        Err(FindReplaceError::MatchIndexOutOfBounds(3))
    );
    assert_eq!(FindReplaceError::MatchIndexOutOfBounds(42).to_string(), "match index 42 out of bounds");
    // A plain-text pattern is taken literally: '.' matches only a dot.
    let cfg = FindReplaceConfig::new("a.b");
    let m = fr.find_all("axb a.b", &cfg).unwrap();
    assert_eq!(m.len(), 1);
    assert_eq!(m[0].start, 4);
    assert_eq!(fr.count_matches("axb a.b", &cfg).unwrap(), m.len());
    // The next regex match after an offset.
    let re = FindReplaceConfig::new(r"\d+").with_regex();
    let next = fr.find_next("a 10 b 100", &re, 5).unwrap().unwrap();
    assert_eq!(next.text, "100");
    assert_eq!(next.start, 7);
}

#[test]
fn extensions_are_matched_case_insensitively() {
    assert_eq!(ImportResourceType::from_extension("PNG"), Some(ImportResourceType::Texture));
    assert_eq!(ImportResourceType::from_extension("Ogg"), Some(ImportResourceType::Audio));
    assert_eq!(FileIcon::from_extension("GDSHADER"), FileIcon::Shader);
    assert_eq!(FileIcon::from_extension(""), FileIcon::Unknown);
    assert!(TresImporter.can_import("Tres"));
    assert!(!TscnImporter.can_import("tscn2"));
    assert_eq!(GltfSceneImporter.get_extensions(), vec!["gltf", "glb"]);
    assert_eq!(ObjSceneImporter.get_extensions(), vec!["obj"]);
    assert_eq!(FbxSceneImporter.get_extensions(), vec!["fbx"]);
}

#[test]
fn import_pipeline_register_keeps_existing_asset() {
    let mut pipe = ImportPipeline::new();
    pipe.register("a.png", 1);
    pipe.process_stale();
    pipe.register("a.png", 7);
    assert_eq!(pipe.asset("a.png").unwrap().source_version, 1);
    assert_eq!(pipe.status("a.png"), Some(ImportStatus::Imported));
    assert!(!pipe.reimport("missing.png"));
    assert!(pipe.set_setting("a.png", "filter", "linear"));
    assert!(pipe.set_setting("a.png", "filter", "nearest"));
    assert_eq!(pipe.setting("a.png", "filter"), Some("nearest"));
    assert_eq!(pipe.asset("a.png").unwrap().settings.len(), 1);
    assert_eq!(pipe.process_stale(), 1);
    assert_eq!(pipe.process_stale(), 0);
    assert_eq!(pipe.reimport_count(), 2);
}

#[derive(Debug, Clone, Default, PartialEq)]
struct Framing(i32);

#[test]
fn new_untitled_document_skips_taken_titles() {
    let mut docs: MultiDocModel<Framing> = MultiDocModel::new();
    docs.open(OpenDocument::new("Untitled", None, DocumentKind::Scene));
    docs.open(OpenDocument::new("Untitled 2", None, DocumentKind::Scene));
    docs.open(OpenDocument::new("Untitled 4", None, DocumentKind::Script));
    let i = docs.new_scene();
    assert_eq!(docs.get(i).unwrap().title, "Untitled 3");
    let j = docs.new_scene();
    assert_eq!(docs.get(j).unwrap().title, "Untitled 5");
    // Closing an earlier tab shifts the active one down.
    docs.switch_to(3);
    docs.close(0);
    assert_eq!(docs.active_index(), Some(2));
    // A dirty document asks before closing; cancelling keeps it.
    docs.set_dirty(2, true);
    assert_eq!(docs.request_close(2), CloseOutcome::NeedsSavePrompt);
    assert!(!docs.resolve_close(2, SavePromptChoice::Cancel));
    assert!(docs.resolve_close(2, SavePromptChoice::Discard));
    assert_eq!(docs.len(), 3);
    // Edits to the active state stay with that document.
    docs.switch_to(0);
    docs.active_state_mut().unwrap().viewport = Framing(7);
    assert_eq!(docs.get(0).unwrap().state.viewport, Framing(7));
    assert_eq!(docs.get(1).unwrap().state.viewport, Framing(0));
}

#[test]
fn dock_lists_sorted_with_depths_and_counts() {
    let mut dock = FileSystemDock::new();
    dock.refresh(vec!["b.png".to_string(), "a/y.gd".to_string(), "a/x.gd".to_string(), "a/sub/z.tres".to_string()]);
    let rel: Vec<&str> = dock.entries().iter().map(|e| e.relative_path.as_str()).collect();
    assert_eq!(rel, vec!["a", "b.png"]);
    dock.expand_dir("a");
    let rel: Vec<&str> = dock.entries().iter().map(|e| e.relative_path.as_str()).collect();
    assert_eq!(rel, vec!["a", "a/sub", "a/x.gd", "a/y.gd", "b.png"]);
    let a = &dock.entries()[0];
    assert!(a.is_directory && a.expanded);
    assert_eq!((a.depth, a.child_count, a.res_path.as_str()), (1, 2, "res://a/"));
    let x = &dock.entries()[2];
    assert_eq!((x.depth, x.icon, x.name.as_str()), (2, FileIcon::Script, "x.gd"));
    // The filter ignores ASCII case.
    dock.set_filter("Z.TRES");
    let rel: Vec<&str> = dock.entries().iter().map(|e| e.relative_path.as_str()).collect();
    assert_eq!(rel, vec!["a", "a/sub", "a/sub/z.tres"]);
    dock.clear_filter();
    dock.navigate_to("res://a/sub/z.tres");
    assert_eq!(dock.selected_entry().unwrap().name, "z.tres");
    // Collapsing "a" hides what lies directly in it; a file whose own
    // directory is still expanded stays listed.
    dock.toggle_expand(0);
    let rel: Vec<&str> = dock.entries().iter().map(|e| e.relative_path.as_str()).collect();
    assert_eq!(rel, vec!["a", "a/sub/z.tres", "b.png"]);
    let tres = files_by_extension(dock.files(), "TRES");
    assert_eq!(tres, vec!["a/sub/z.tres"]);
    assert_eq!(res_relative("res://a/x.gd").as_deref(), Some("a/x.gd"));
    assert_eq!(res_relative("user://a"), None);
}

#[test]
fn save_needs_changes_and_revert_needs_a_file() {
    let mut state = EditorMenuState::default();
    for item in [MenuItem::Save, MenuItem::SaveAs, MenuItem::SaveAll, MenuItem::Revert, MenuItem::CloseScene] {
        assert!(!is_enabled(item, &state));
    }
    state.has_active_scene = true;
    state.active_scene_has_path = true;
    assert!(is_enabled(MenuItem::Revert, &state));
    assert!(is_enabled(MenuItem::SaveAll, &state));
    assert!(!is_enabled(MenuItem::Save, &state));
}
