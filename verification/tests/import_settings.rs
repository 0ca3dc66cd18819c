use gdeditor::import_settings::{
    AudioFormatMode, FontHinting, FontImportSettings, ImportResourceType, TextureCompression, TextureFilter,
};

#[test]
fn resource_type_roundtrip() {
    for rt in ImportResourceType::all().iter() {
        let id = rt.id();
        let parsed = ImportResourceType::from_id(id).unwrap();
        assert_eq!(*rt, parsed);
    }
}

#[test]
fn resource_type_from_extension() {
    assert_eq!(
        ImportResourceType::from_extension("png"),
        Some(ImportResourceType::Texture)
    );
    assert_eq!(
        ImportResourceType::from_extension("wav"),
        Some(ImportResourceType::Audio)
    );
    assert_eq!(
        ImportResourceType::from_extension("tscn"),
        Some(ImportResourceType::Scene)
    );
    assert_eq!(
        ImportResourceType::from_extension("ttf"),
        Some(ImportResourceType::Font)
    );
    assert_eq!(
        ImportResourceType::from_extension("gd"),
        Some(ImportResourceType::Script)
    );
    assert_eq!(ImportResourceType::from_extension("xyz"), None);
}

#[test]
fn resource_type_extensions_nonempty() {
    for rt in ImportResourceType::all().iter() {
        assert!(!rt.extensions().is_empty());
    }
}

#[test]
fn resource_type_labels_nonempty() {
    for rt in ImportResourceType::all().iter() {
        assert!(!rt.label().is_empty());
    }
}

#[test]
fn font_defaults() {
    let s = FontImportSettings::default();
    assert_eq!(s.default_size, 16);
    assert!(s.antialiased);
    assert_eq!(s.hinting, FontHinting::Light);
}

#[test]
fn texture_compression_labels() {
    for c in TextureCompression::all().iter() {
        assert!(!c.label().is_empty());
    }
}

#[test]
fn audio_format_labels() {
    assert!(!AudioFormatMode::Original.label().is_empty());
    assert!(!AudioFormatMode::OggVorbis.label().is_empty());
    assert!(!AudioFormatMode::Wav.label().is_empty());
}

#[test]
fn font_hinting_labels() {
    assert!(!FontHinting::NoHinting.label().is_empty());
    assert!(!FontHinting::Light.label().is_empty());
    assert!(!FontHinting::Normal.label().is_empty());
}

#[test]
fn texture_filter_labels() {
    assert!(!TextureFilter::Nearest.label().is_empty());
    assert!(!TextureFilter::Linear.label().is_empty());
    assert!(!TextureFilter::NearestMipmap.label().is_empty());
    assert!(!TextureFilter::LinearMipmap.label().is_empty());
}
