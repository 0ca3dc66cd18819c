use gdeditor::inspector::{CustomPropertyEditor, PropertyCategory};
use gdeditor::inspector_sections::{InspectorSection, PropertyEntry, SectionedInspector};

fn entry(name: &str, value: i64) -> PropertyEntry<i64> {
    PropertyEntry {
        name: name.to_string(),
        value,
        category: PropertyCategory::categorize(name),
    }
}

#[test]
fn inspector_section_builder() {
    let section: InspectorSection<i64> = InspectorSection::new_custom("Physics Overrides")
        .with_property(CustomPropertyEditor::new("custom_gravity"))
        .with_property(CustomPropertyEditor::new("custom_damping"));

    assert_eq!(section.name, "Physics Overrides");
    assert_eq!(section.properties.len(), 2);
    assert_eq!(section.properties[0].property_name, "custom_gravity");
}

#[test]
fn sections_follow_first_appearance_of_categories() {
    let entries = vec![
        entry("visible", 1),
        entry("position", 2),
        entry("custom_thing", 3),
        entry("rotation", 4),
        entry("modulate", 5),
    ];
    let s = SectionedInspector::from_entries(entries);
    assert_eq!(s.section_count(), 3);
    let names: Vec<&str> = s.sections().iter().map(|x| x.name.as_str()).collect();
    assert_eq!(names, vec!["Rendering", "Transform", "Misc"]);
    let transform: Vec<i64> = s.sections()[1].entries().iter().map(|e| e.value).collect();
    assert_eq!(transform, vec![2, 4]);
    let rendering: Vec<&str> = s.sections()[0].entries().iter().map(|e| e.name.as_str()).collect();
    assert_eq!(rendering, vec!["visible", "modulate"]);
    assert_eq!(s.total_property_count(), 5);
    assert_eq!(s.visible_property_count(), 5);
}

#[test]
fn sections_collapse_and_expand_all() {
    let entries = vec![entry("position", 1), entry("mass", 2), entry("velocity", 3)];
    let mut s = SectionedInspector::from_entries(entries);
    s.collapse_all();
    assert_eq!(s.visible_property_count(), 0);
    assert_eq!(s.total_property_count(), 3);
    s.expand_all();
    assert_eq!(s.visible_property_count(), 3);
}

#[test]
fn sections_lookup_by_category() {
    let entries = vec![entry("position", 1), entry("mass", 2), entry("script_speed", 3)];
    let mut s = SectionedInspector::from_entries(entries);
    let physics = s.section_by_category(&PropertyCategory::Physics).unwrap();
    assert_eq!(physics.property_count(), 1);
    assert!(s.section_by_category(&PropertyCategory::Rendering).is_none());
    s.section_by_category_mut(&PropertyCategory::Transform).unwrap().toggle();
    assert!(!s.section_by_category(&PropertyCategory::Transform).unwrap().is_expanded());
    assert_eq!(s.visible_property_count(), 2);
}

#[test]
fn sections_of_nothing_are_empty() {
    let s: SectionedInspector<i64> = SectionedInspector::from_entries(Vec::new());
    assert_eq!(s.section_count(), 0);
    assert_eq!(s.total_property_count(), 0);
}

#[test]
fn section_toggle_and_entries() {
    let mut section: InspectorSection<i64> = InspectorSection::new("Transform", PropertyCategory::Transform);
    assert!(section.is_expanded());
    assert!(section.is_empty());
    section.toggle();
    assert!(!section.is_expanded());
    section.set_expanded(true);
    assert!(section.is_expanded());
    let section = section.with_entries(vec![entry("position", 7)]);
    assert_eq!(section.property_count(), 1);
    assert_eq!(section.entries()[0].value, 7);
}
