use gdeditor::inspector::{
    CustomPropertyEditor, InspectorVisibility, LayerType, LinkedValues, PropertyCategory, PropertyHint, PropertyUsage,
};

#[test]
fn property_categories() {
    assert_eq!(
        PropertyCategory::categorize("position"),
        PropertyCategory::Transform
    );
    assert_eq!(
        PropertyCategory::categorize("visible"),
        PropertyCategory::Rendering
    );
    assert_eq!(
        PropertyCategory::categorize("velocity"),
        PropertyCategory::Physics
    );
    assert_eq!(
        PropertyCategory::categorize("script_var"),
        PropertyCategory::Script
    );
    assert_eq!(
        PropertyCategory::categorize("custom"),
        PropertyCategory::Misc
    );
}

#[test]
fn custom_property_editor_builder() {
    let editor = CustomPropertyEditor::new("color")
        .with_label("Tint Color")
        .with_hint(PropertyHint::ColorNoAlpha)
        .read_only()
        .with_tooltip("The node's tint color");

    assert_eq!(editor.property_name, "color");
    assert_eq!(editor.label, Some("Tint Color".to_string()));
    assert_eq!(editor.hint, PropertyHint::ColorNoAlpha);
    assert!(editor.read_only);
    assert_eq!(editor.tooltip, Some("The node's tint color".to_string()));
}

#[test]
fn property_hint_enum() {
    let hint = PropertyHint::Enum(vec!["Option A".into(), "Option B".into()]);
    assert!(matches!(hint, PropertyHint::Enum(opts) if opts.len() == 2));
}

#[test]
fn property_hint_flags() {
    let hint = PropertyHint::Flags(vec!["Collision".into(), "Trigger".into()]);
    assert!(matches!(hint, PropertyHint::Flags(f) if f.len() == 2));
}

#[test]
fn property_hint_layers() {
    let hint = PropertyHint::Layers {
        layer_type: LayerType::Physics2D,
    };
    assert!(matches!(
        hint,
        PropertyHint::Layers {
            layer_type: LayerType::Physics2D
        }
    ));
}

#[test]
fn property_hint_exp_range() {
    let hint = PropertyHint::ExpRange {
        min: 0,
        max: 1000,
        step: 1,
    };
    assert!(matches!(
        hint,
        PropertyHint::ExpRange {
            min: 0,
            max: 1000,
            step: 1
        }
    ));
}

#[test]
fn property_hint_dir_and_global_file() {
    let _dir = PropertyHint::Dir;
    let _gf = PropertyHint::GlobalFile("*.png".into());
    let _ph = PropertyHint::PlaceholderText("Enter name...".into());
    let _ee = PropertyHint::ExpEasing;
    let _np = PropertyHint::NodePathValidTypes(vec!["Node2D".into()]);
    let _rt = PropertyHint::ResourceType("Texture2D".into());
}

#[test]
fn inspector_usage_flags_control_visibility() {
    // A normal export (storage + editor) is shown and editable.
    let normal = PropertyUsage::default_usage();
    assert_eq!(normal.inspector_visibility(), InspectorVisibility::Editable);
    assert!(normal.is_editor_visible());

    // A read-only-flagged export is shown but disabled.
    let read_only = PropertyUsage::default_usage().with(PropertyUsage::READ_ONLY);
    assert_eq!(
        read_only.inspector_visibility(),
        InspectorVisibility::ReadOnly
    );
    assert!(read_only.is_editor_visible());
    assert!(read_only.is_read_only());

    // A no-editor-flagged property (storage but no editor) is hidden.
    let no_editor = PropertyUsage::empty().with(PropertyUsage::STORAGE);
    assert_eq!(no_editor.inspector_visibility(), InspectorVisibility::Hidden);
    assert!(!no_editor.is_editor_visible());

    // A storage-only property does not appear in the inspector.
    let storage_only = PropertyUsage::new(PropertyUsage::STORAGE);
    assert_eq!(
        storage_only.inspector_visibility(),
        InspectorVisibility::Hidden
    );

    // A property with neither flag is also hidden.
    assert_eq!(
        PropertyUsage::empty().inspector_visibility(),
        InspectorVisibility::Hidden
    );
}

#[test]
fn linked_values_toggle() {
    let mut linked = LinkedValues::new();
    assert!(!linked.is_linked("scale"));

    assert!(linked.toggle("scale")); // now linked
    assert!(linked.is_linked("scale"));

    assert!(!linked.toggle("scale")); // now unlinked
    assert!(!linked.is_linked("scale"));
}

#[test]
fn linked_values_link_unlink() {
    let mut linked = LinkedValues::new();
    linked.link("scale");
    linked.link("size");
    assert!(linked.is_linked("scale"));
    assert!(linked.is_linked("size"));

    linked.unlink("scale");
    assert!(!linked.is_linked("scale"));
    assert!(linked.is_linked("size"));
}

#[test]
fn file_filters_split_trim_and_drop_empty() {
    assert_eq!(
        gdeditor::inspector::file_filters(" *.png , ,*.jpg"),
        vec!["*.png".to_string(), "*.jpg".to_string()]
    );
}

#[test]
fn file_filters_of_empty_text_is_empty() {
    assert!(gdeditor::inspector::file_filters("").is_empty());
    assert!(gdeditor::inspector::file_filters(" , ").is_empty());
}
