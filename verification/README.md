# gdeditor

Headless models of a game editor's panels and tools, written in Verus: each
function states what it does in `requires`/`ensures` over mathematical
models (sequences, sets and maps of plain values), and Verus proves the
code against those contracts. Properties that relate several operations
(undoing, round trips, invariants kept by every operation) are stated and
proved as `law_*` proof functions beside the code they speak of.

## Layout

- `src/` — the verified library.
  - Text and scripting: `text` (character and byte helpers), `find_replace`
    (plain and regex search and replace; the regex engine is called through a
    few trusted wrappers), `find_in_files`, `gdscript_highlight`,
    `goto_line`, `goto_definition`, `auto_indent`, `indent_block`,
    `line_ops`, `multi_caret`, `numeric_expression` (tokenizer and parser of
    inline arithmetic for numeric fields).
  - Scenes and documents: `editor` (the selection, the pinned inspector
    and the undo/redo history), `editor_mode` (main-screen modes and run controls),
    `main_screen`, `mode_placeholder`, `multi_document`, `new_scene`,
    `open_recent`, `open_scripts_panel`.
  - Menus: `menu_enablement`, `menu_shortcuts`, `help_menu_commands`.
  - Inspector: `inspector` (categories, usage flags, hints, linked values),
    `inspector_sections` (properties grouped into collapsible sections),
    `inspector_history` (back/forward history and breadcrumbs),
    `inspector_panel` (favorites, export groups, sections).
  - File system and import: `paths`, `table`, `filesystem` (the file-system
    dock listing), `fs_file_ops`, `fs_thumbnails`, `fs_import_pipeline`,
    `import` (import pipeline, scene importers), `import_settings`, `import_settings_panel`, `export_presets`.
  - Viewport and project settings: `guides`, `grid_display`,
    `monitors_panel`, `input_map`, `group_dialog`.
- `tests/` — scenario tests and tests of the laws on concrete values.
- `app/` — plain Rust around the library: directory scanning, reading files
  to import, the scene-importer registry, JSON and `export_presets.cfg`
  persistence, and the floating-point parts (viewport framing, grid lines,
  property editor widgets, import settings values, guide snapping, monitor
  samples, expression evaluation).

## Scene commands

The commands that change a scene tree (adding, deleting, moving nodes,
setting properties, painting tiles) work on the engine's scene and node
types, which are not part of this library. They reach the library only
through the `SceneCommand` trait of `editor`: a command takes the tree and
gives it back changed, with its outcome, and reverses itself the same way.
`Editor` keeps the scene and the undo/redo history around such commands;
its contracts state that the scene after `execute`, `undo`, `redo` or a
merge is exactly what the command's own method gave back, and
`law_undo_restores_scene` states that undoing right after a successful
execute restores the scene whenever the command's undo reverses its
execute.
