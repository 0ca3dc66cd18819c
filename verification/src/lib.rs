//! Headless editor models: text editing, navigation, menus, file-system dock
//! and import bookkeeping, each with its behaviour stated and proved.

pub mod text;
pub mod gdscript_highlight;
pub mod find_in_files;
pub mod find_replace;
pub mod table;
pub mod fs_thumbnails;
pub mod help_menu_commands;
pub mod fs_file_ops;
pub mod auto_indent;
pub mod indent_block;
pub mod line_ops;
pub mod goto_definition;
pub mod goto_line;
pub mod import_settings;
pub mod import_settings_panel;
pub mod editor;
pub mod editor_mode;
pub mod main_screen;
pub mod mode_placeholder;
pub mod menu_enablement;
pub mod menu_shortcuts;
pub mod multi_caret;
pub mod new_scene;
pub mod numeric_expression;
pub mod open_scripts_panel;
pub mod open_recent;
pub mod export_presets;
pub mod inspector;
pub mod inspector_history;
pub mod inspector_panel;
pub mod inspector_sections;
pub mod filesystem;
pub mod fs_import_pipeline;
pub mod import;
pub mod group_dialog;
pub mod grid_display;
pub mod guides;
pub mod input_map;
pub mod monitors_panel;
pub mod multi_document;
pub mod paths;
