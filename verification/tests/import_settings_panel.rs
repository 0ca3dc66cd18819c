use gdeditor::import_settings::{
    AudioFormatMode, FontImportSettings, ImportResourceType, TextureCompression, TextureFilter,
};
use gdeditor::import_settings_panel::ImportSettingsPanel;

/// Import settings for textures.
#[derive(Debug, Clone, PartialEq)]
pub struct TextureImportSettings {
    pub compression: TextureCompression,
    pub lossy_quality: f32,
    pub filter: TextureFilter,
    pub mipmaps: bool,
    pub srgb: bool,
    pub max_size: u32,
    pub normal_map: bool,
}

impl Default for TextureImportSettings {
    fn default() -> Self {
        Self {
            compression: TextureCompression::VRAM,
            lossy_quality: 0.7,
            filter: TextureFilter::Linear,
            mipmaps: true,
            srgb: true,
            max_size: 0,
            normal_map: false,
        }
    }
}

/// Import settings for audio.
#[derive(Debug, Clone, PartialEq)]
pub struct AudioImportSettings {
    pub format: AudioFormatMode,
    pub quality: f32,
    pub loop_enabled: bool,
    pub loop_offset: f64,
    pub force_mono: bool,
    pub max_sample_rate: u32,
}

impl Default for AudioImportSettings {
    fn default() -> Self {
        Self {
            format: AudioFormatMode::Original,
            quality: 0.5,
            loop_enabled: false,
            loop_offset: 0.0,
            force_mono: false,
            max_sample_rate: 44100,
        }
    }
}

/// Import settings for scenes.
#[derive(Debug, Clone, PartialEq)]
pub struct SceneImportSettings {
    pub import_animations: bool,
    pub scale_factor: f64,
    pub root_type: String,
}

/// Import settings for meshes.
#[derive(Debug, Clone, PartialEq)]
pub struct MeshImportSettings {
    pub generate_lods: bool,
    pub lod_count: u8,
    pub lod_distance_ratio: f32,
}

/// Settings for any resource type.
#[derive(Debug, Clone, PartialEq)]
pub enum ImportSettings {
    Texture(TextureImportSettings),
    Audio(AudioImportSettings),
    Scene(SceneImportSettings),
    Mesh(MeshImportSettings),
    Font(FontImportSettings),
}

/// A panel with the factory defaults for the configurable resource types.
fn new_panel() -> ImportSettingsPanel<ImportSettings> {
    ImportSettingsPanel::new(vec![
        (ImportResourceType::Texture, ImportSettings::Texture(TextureImportSettings::default())),
        (ImportResourceType::Audio, ImportSettings::Audio(AudioImportSettings::default())),
        (
            ImportResourceType::Scene,
            ImportSettings::Scene(SceneImportSettings {
                import_animations: true,
                scale_factor: 1.0,
                root_type: "Node3D".to_string(),
            }),
        ),
        (
            ImportResourceType::Mesh,
            ImportSettings::Mesh(MeshImportSettings {
                generate_lods: true,
                lod_count: 3,
                lod_distance_ratio: 2.0,
            }),
        ),
        (ImportResourceType::Font, ImportSettings::Font(FontImportSettings::default())),
    ])
}


#[test]
fn panel_new_has_defaults() {
    let panel = new_panel();
    assert!(!panel.is_visible());
    assert!(panel.selected_path().is_none());
    // Should have defaults for 5 types (Texture, Audio, Scene, Mesh, Font)
    assert!(panel
        .default_settings(ImportResourceType::Texture)
        .is_some());
    assert!(panel.default_settings(ImportResourceType::Audio).is_some());
}

#[test]
fn panel_open_close() {
    let mut panel = new_panel();
    panel.open();
    assert!(panel.is_visible());
    panel.close();
    assert!(!panel.is_visible());
}

#[test]
fn select_resource_and_infer_type() {
    let mut panel = new_panel();
    panel.select_resource("res://textures/hero.png");
    assert_eq!(panel.selected_path(), Some("res://textures/hero.png"));
    assert_eq!(
        panel.selected_resource_type(),
        Some(ImportResourceType::Texture)
    );
}

#[test]
fn effective_settings_returns_default() {
    let mut panel = new_panel();
    panel.select_resource("res://audio/music.ogg");
    let settings = panel.effective_settings().unwrap();
    assert!(matches!(settings, ImportSettings::Audio(_)));
}

#[test]
fn set_override_and_retrieve() {
    let mut panel = new_panel();
    let mut tex = TextureImportSettings::default();
    tex.compression = TextureCompression::Lossless;
    panel.select_resource("res://icon.png");
    panel.set_pending(ImportSettings::Texture(tex.clone()));
    assert!(panel.has_pending_changes());
    panel.apply();
    assert!(!panel.has_pending_changes());
    assert!(panel.has_override("res://icon.png"));

    // effective_settings should return override
    let s = panel.effective_settings().unwrap();
    if let ImportSettings::Texture(t) = s {
        assert_eq!(t.compression, TextureCompression::Lossless);
    } else {
        panic!("Expected texture settings");
    }
}

#[test]
fn remove_override_reverts_to_default() {
    let mut panel = new_panel();
    let tex = TextureImportSettings {
        compression: TextureCompression::Uncompressed,
        ..Default::default()
    };
    panel.select_resource("res://tex.png");
    panel.set_pending(ImportSettings::Texture(tex));
    panel.apply();
    assert!(panel.has_override("res://tex.png"));

    panel.remove_override("res://tex.png");
    assert!(!panel.has_override("res://tex.png"));

    let s = panel.effective_settings().unwrap();
    if let ImportSettings::Texture(t) = s {
        assert_eq!(t.compression, TextureCompression::VRAM); // back to default
    } else {
        panic!("Expected texture settings");
    }
}

#[test]
fn discard_pending() {
    let mut panel = new_panel();
    panel.select_resource("res://sound.wav");
    panel.set_pending(ImportSettings::Audio(AudioImportSettings {
        force_mono: true,
        ..Default::default()
    }));
    assert!(panel.has_pending_changes());
    panel.discard();
    assert!(!panel.has_pending_changes());
}

#[test]
fn close_discards_pending() {
    let mut panel = new_panel();
    panel.open();
    panel.select_resource("res://a.png");
    panel.set_pending(ImportSettings::Texture(TextureImportSettings::default()));
    panel.close();
    assert!(!panel.has_pending_changes());
}

#[test]
fn override_count() {
    let mut panel = new_panel();
    assert_eq!(panel.override_count(), 0);

    panel.select_resource("res://a.png");
    panel.set_pending(ImportSettings::Texture(TextureImportSettings::default()));
    panel.apply();

    panel.select_resource("res://b.wav");
    panel.set_pending(ImportSettings::Audio(AudioImportSettings::default()));
    panel.apply();

    assert_eq!(panel.override_count(), 2);
}

#[test]
fn clear_all_overrides() {
    let mut panel = new_panel();
    panel.select_resource("res://a.png");
    panel.set_pending(ImportSettings::Texture(TextureImportSettings::default()));
    panel.apply();
    panel.clear_all_overrides();
    assert_eq!(panel.override_count(), 0);
}

#[test]
fn batch_apply_settings() {
    let mut panel = new_panel();
    let tex = ImportSettings::Texture(TextureImportSettings {
        compression: TextureCompression::Lossy,
        ..Default::default()
    });
    let count = panel.batch_apply(&["res://a.png", "res://b.png", "res://c.png"], &tex);
    assert_eq!(count, 3);
    assert_eq!(panel.override_count(), 3);
    assert!(panel.has_override("res://b.png"));
}

#[test]
fn update_default_settings() {
    let mut panel = new_panel();
    let tex = ImportSettings::Texture(TextureImportSettings {
        compression: TextureCompression::Lossless,
        ..Default::default()
    });
    panel.set_default_settings(ImportResourceType::Texture, tex);

    panel.select_resource("res://new_texture.png");
    let s = panel.effective_settings().unwrap();
    if let ImportSettings::Texture(t) = s {
        assert_eq!(t.compression, TextureCompression::Lossless);
    } else {
        panic!("Expected texture settings");
    }
}

#[test]
fn reset_defaults_to_factory() {
    let mut panel = new_panel();
    panel.set_default_settings(
        ImportResourceType::Texture,
        ImportSettings::Texture(TextureImportSettings {
            compression: TextureCompression::Uncompressed,
            ..Default::default()
        }),
    );
    panel.reset_defaults(ImportResourceType::Texture);

    let s = panel.default_settings(ImportResourceType::Texture).unwrap();
    if let ImportSettings::Texture(t) = s {
        assert_eq!(t.compression, TextureCompression::VRAM);
    } else {
        panic!("Expected texture");
    }
}

#[test]
fn no_effective_settings_for_script() {
    let mut panel = new_panel();
    panel.select_resource("res://main.gd");
    assert!(panel.effective_settings().is_none());
}

#[test]
fn no_effective_settings_for_unknown() {
    let mut panel = new_panel();
    panel.select_resource("res://readme.txt");
    assert!(panel.effective_settings().is_none());
}

#[test]
fn pending_takes_priority_over_override() {
    let mut panel = new_panel();
    // Set an override
    panel.select_resource("res://tex.png");
    panel.set_pending(ImportSettings::Texture(TextureImportSettings {
        compression: TextureCompression::Lossy,
        ..Default::default()
    }));
    panel.apply();

    // Now set a pending change
    panel.select_resource("res://tex.png");
    panel.set_pending(ImportSettings::Texture(TextureImportSettings {
        compression: TextureCompression::Lossless,
        ..Default::default()
    }));

    let s = panel.effective_settings().unwrap();
    if let ImportSettings::Texture(t) = s {
        assert_eq!(t.compression, TextureCompression::Lossless); // pending wins
    } else {
        panic!("Expected texture settings");
    }
}
