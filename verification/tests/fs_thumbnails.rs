use gdeditor::fs_thumbnails::{FileKind, ThumbnailCache};

/// Acceptance (pat-y6e8m): texture and scene files show generated
/// thumbnails and editing a source file refreshes its thumbnail.
#[test]
fn fs_dock_thumbnails_render_and_refresh() {
    let mut cache = ThumbnailCache::new((64, 64));
    assert!(cache.is_empty());

    // A texture renders a thumbnail.
    let tex = cache
        .thumbnail("icon.png", FileKind::Texture, b"\x89PNG-v1", 1)
        .expect("texture is previewable");
    assert_eq!(tex.kind, FileKind::Texture);
    assert_eq!(tex.size, (64, 64));
    assert_eq!(tex.source_version, 1);
    let tex_sig_v1 = tex.signature;
    assert_eq!(cache.generation_count(), 1);

    // A scene renders too.
    let scene = cache
        .thumbnail("level.tscn", FileKind::Scene, b"[gd_scene]", 1)
        .expect("scene is previewable");
    assert_eq!(scene.kind, FileKind::Scene);
    assert_eq!(cache.generation_count(), 2);
    assert_eq!(cache.len(), 2);

    // A non-previewable file gets no thumbnail and isn't cached.
    assert!(cache
        .thumbnail("readme.md", FileKind::Other, b"# hi", 1)
        .is_none());
    assert_eq!(cache.len(), 2);
    assert_eq!(cache.generation_count(), 2);

    // Re-requesting an up-to-date thumbnail returns the cache without
    // regenerating.
    let again = cache
        .thumbnail("icon.png", FileKind::Texture, b"\x89PNG-v1", 1)
        .unwrap();
    assert_eq!(again.signature, tex_sig_v1);
    assert_eq!(cache.generation_count(), 2);

    // Editing the source (new content + bumped version) refreshes the
    // thumbnail: the signature changes and a new generation is counted.
    let refreshed = cache
        .thumbnail("icon.png", FileKind::Texture, b"\x89PNG-v2-edited", 2)
        .unwrap();
    assert_eq!(refreshed.source_version, 2);
    assert_ne!(refreshed.signature, tex_sig_v1, "edit refreshes the thumbnail");
    assert_eq!(cache.generation_count(), 3);

    // The dock reads the refreshed thumbnail back.
    assert_eq!(cache.get("icon.png").unwrap().source_version, 2);
}

/// Non-previewable kinds never cache; invalidation drops an entry.
#[test]
fn previewable_and_invalidate() {
    assert!(FileKind::Texture.previewable());
    assert!(FileKind::Scene.previewable());
    assert!(FileKind::Resource.previewable());
    assert!(!FileKind::Other.previewable());

    let mut cache = ThumbnailCache::new((32, 32));
    cache.thumbnail("a.tres", FileKind::Resource, b"data", 1);
    assert_eq!(cache.len(), 1);
    assert!(cache.invalidate("a.tres"));
    assert!(!cache.invalidate("a.tres"));
    assert!(cache.get("a.tres").is_none());
}
