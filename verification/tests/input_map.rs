use std::collections::HashMap;

use gdeditor::input_map::{InputEvent, InputMap};

/// Saves the map as JSON (action, deadzone and events, with each event as
/// its kind, key name and button index) and loads it back.
fn json_round_trip(map: &InputMap<f32>) -> InputMap<f32> {
    let mut rows: Vec<(String, f32, Vec<(u8, String, u32)>)> = Vec::new();
    for name in map.actions() {
        let events = map
            .events(name)
            .unwrap()
            .iter()
            .map(|e| match e {
                InputEvent::Key(k) => (0u8, k.clone(), 0u32),
                InputEvent::MouseButton(b) => (1u8, String::new(), *b),
                InputEvent::JoyButton(b) => (2u8, String::new(), *b),
            })
            .collect();
        rows.push((name.to_string(), map.deadzone(name).unwrap(), events));
    }
    let json = serde_json::to_string_pretty(&rows).expect("serializes");
    let rows: Vec<(String, f32, Vec<(u8, String, u32)>)> = serde_json::from_str(&json).expect("loads");
    let mut loaded = InputMap::new(0.5);
    for (name, deadzone, events) in rows {
        loaded.add_action(&name);
        loaded.set_deadzone(&name, deadzone);
        for (kind, key, button) in events {
            let event = match kind {
                0 => InputEvent::Key(key),
                1 => InputEvent::MouseButton(button),
                _ => InputEvent::JoyButton(button),
            };
            loaded.bind(&name, event);
        }
    }
    loaded
}

fn runtime_rows(runtime: &HashMap<String, Vec<String>>) -> Vec<(String, Vec<String>)> {
    runtime.iter().map(|(k, v)| (k.clone(), v.clone())).collect()
}

fn runtime_table(rows: Vec<(String, Vec<String>)>) -> HashMap<String, Vec<String>> {
    rows.into_iter().collect()
}

/// Acceptance: adding an action and binding an input event persists to the
/// input map and the action resolves at runtime.
#[test]
fn systems_input_map_actions_persist() {
    let mut map = InputMap::new(0.5);

    // Add an action (with default deadzone); duplicates are rejected.
    assert!(map.add_action("jump"));
    assert!(!map.add_action("jump"));
    assert!(map.has_action("jump"));
    assert_eq!(map.deadzone("jump"), Some(0.5));

    // Bind key and joypad events.
    assert!(map.bind("jump", InputEvent::Key("Space".to_string())));
    assert!(map.bind("jump", InputEvent::JoyButton(0)));
    // Duplicate binds are ignored.
    assert!(map.bind("jump", InputEvent::Key("Space".to_string())));
    assert_eq!(map.events("jump").unwrap().len(), 2);

    // Set a custom deadzone.
    assert!(map.set_deadzone("jump", 0.2));
    assert_eq!(map.deadzone("jump"), Some(0.2));

    // The action resolves at runtime for its bound event.
    assert!(map.action_has("jump", &InputEvent::Key("Space".to_string())));
    assert_eq!(
        map.actions_for_event(&InputEvent::Key("Space".to_string())),
        vec!["jump"]
    );
    assert!(map
        .actions_for_event(&InputEvent::Key("Escape".to_string()))
        .is_empty());

    // Persist to project settings and reload — everything round-trips.
    let loaded = json_round_trip(&map);
    assert!(loaded.has_action("jump"));
    assert_eq!(loaded.deadzone("jump"), Some(0.2));
    assert!(loaded.action_has("jump", &InputEvent::JoyButton(0)));
    assert_eq!(loaded, map);

    // Unbinding and removing.
    assert!(map.unbind("jump", &InputEvent::JoyButton(0)));
    assert_eq!(map.events("jump").unwrap().len(), 1);
    assert!(!map.unbind("jump", &InputEvent::JoyButton(0))); // already gone
    assert!(map.remove_action("jump"));
    assert!(!map.has_action("jump"));
    assert!(!map.remove_action("jump"));
}

/// Multiple actions can resolve from one event; binds/deadzone reject
/// missing actions.
#[test]
fn multiple_actions_and_missing() {
    let mut map = InputMap::new(0.5);
    map.add_action("ui_accept");
    map.add_action("attack");
    map.bind("ui_accept", InputEvent::Key("Enter".to_string()));
    map.bind("attack", InputEvent::Key("Enter".to_string()));
    map.bind("attack", InputEvent::MouseButton(1));

    // One event triggers both actions (sorted by name).
    assert_eq!(
        map.actions_for_event(&InputEvent::Key("Enter".to_string())),
        vec!["attack", "ui_accept"]
    );
    assert_eq!(
        map.actions_for_event(&InputEvent::MouseButton(1)),
        vec!["attack"]
    );

    // Operations on a missing action return false.
    assert!(!map.bind("ghost", InputEvent::Key("X".to_string())));
    assert!(!map.set_deadzone("ghost", 0.1));
    assert!(map.deadzone("ghost").is_none());
}

/// The runtime <-> model projection round-trips Key bindings, which is the
/// bridge the live editor server uses to edit the runtime input table.
#[test]
fn runtime_map_round_trips_key_bindings() {
    let mut runtime: HashMap<String, Vec<String>> = HashMap::new();
    runtime.insert("jump".to_string(), vec!["Space".to_string()]);
    runtime.insert(
        "move_left".to_string(),
        vec!["a".to_string(), "ArrowLeft".to_string()],
    );

    // Runtime map -> model: each key name becomes a bound Key event.
    let model = InputMap::from_runtime_map(&runtime_rows(&runtime), 0.5);
    assert!(model.has_action("jump"));
    assert!(model.action_has("jump", &InputEvent::Key("Space".to_string())));
    assert!(model.action_has("move_left", &InputEvent::Key("ArrowLeft".to_string())));

    // Model -> runtime map: Key events project back to key names.
    let back = runtime_table(model.to_runtime_map());
    assert_eq!(back.get("jump"), Some(&vec!["Space".to_string()]));
    let mut left = back.get("move_left").cloned().unwrap();
    left.sort();
    assert_eq!(left, vec!["ArrowLeft".to_string(), "a".to_string()]);

    // Non-key events are dropped from the runtime projection.
    let mut model2 = InputMap::new(0.5);
    model2.add_action("fire");
    model2.bind("fire", InputEvent::Key("Ctrl".to_string()));
    model2.bind("fire", InputEvent::JoyButton(0));
    model2.bind("fire", InputEvent::MouseButton(1));
    assert_eq!(
        runtime_table(model2.to_runtime_map()).get("fire"),
        Some(&vec!["Ctrl".to_string()])
    );
}
