use gdeditor::editor_mode::EditorMode;
use gdeditor::main_screen::{MainPane, MainView};
use gdeditor::mode_placeholder::PaneContent;

/// Acceptance (pat-p9k6o.3): the main pane renders a labelled placeholder
/// for partially-implemented modes, and the real view component for
/// implemented modes.
#[test]
fn editor_mode_pane_placeholder_renders() {
    // Implemented views mount their real component.
    for view in [
        MainView::Canvas2D,
        MainView::Spatial3D,
        MainView::ScriptEditor,
    ] {
        assert!(view.is_implemented());
        match view.pane_content() {
            PaneContent::View(c) => assert_eq!(c.view, view),
            PaneContent::Placeholder(_) => {
                panic!("{} should mount a real view", view.display_name())
            }
        }
    }

    // Partial views render a labelled placeholder instead.
    for view in [MainView::GamePreview, MainView::AssetLibBrowser] {
        assert!(!view.is_implemented());
        let content = view.pane_content();
        assert!(content.is_placeholder());
        match content {
            PaneContent::Placeholder(p) => {
                assert_eq!(p.view, view);
                assert!(!p.message.is_empty(), "placeholder carries a message");
                assert!(p.message.contains(view.display_name()));
            }
            PaneContent::View(_) => panic!("{} should be a placeholder", view.display_name()),
        }
    }

    // Through the main pane: routing to an implemented mode mounts the real
    // view; routing to a partial mode (AssetLib) shows the placeholder.
    let mut pane = MainPane::new();
    assert!(!pane.pane_content().is_placeholder(), "2D default is a real view");

    assert!(pane.route_to(EditorMode::Spatial3D));
    match pane.pane_content() {
        PaneContent::View(c) => assert_eq!(c.component_id, "spatial_editor"),
        PaneContent::Placeholder(_) => panic!("3D should be a real view"),
    }

    assert!(pane.route_to(EditorMode::AssetLib));
    let content = pane.pane_content();
    assert!(content.is_placeholder(), "AssetLib renders a placeholder pane");
    if let PaneContent::Placeholder(p) = content {
        assert_eq!(p.view, MainView::AssetLibBrowser);
    }
}
