//! Import settings for the asset browser: the resource types that have
//! import settings, their labels, ids and file extensions, and the option
//! enums (texture compression and filter, audio format, font hinting) with
//! their display labels.

use vstd::prelude::*;
use crate::text::{chars_of, in_list, literal_views, str_eq, to_lowercase, unicode_lowercase};

verus! {

broadcast use vstd::string::group_string_axioms;

/// Resource types that have configurable import settings.
#[derive(Debug, Clone, Copy, PartialEq, Eq, Hash, Structural)]
pub enum ImportResourceType {
    Texture,
    Audio,
    Scene,
    Mesh,
    Font,
    Shader,
    Script,
}

/// The display label of a resource type.
pub open spec fn resource_label(t: ImportResourceType) -> Seq<char> {
    match t {
        ImportResourceType::Texture => "Texture"@,
        ImportResourceType::Audio => "Audio"@,
        ImportResourceType::Scene => "Scene"@,
        ImportResourceType::Mesh => "Mesh"@,
        ImportResourceType::Font => "Font"@,
        ImportResourceType::Shader => "Shader"@,
        ImportResourceType::Script => "Script"@,
    }
}

/// The id of a resource type.
pub open spec fn resource_id(t: ImportResourceType) -> Seq<char> {
    match t {
        ImportResourceType::Texture => "texture"@,
        ImportResourceType::Audio => "audio"@,
        ImportResourceType::Scene => "scene"@,
        ImportResourceType::Mesh => "mesh"@,
        ImportResourceType::Font => "font"@,
        ImportResourceType::Shader => "shader"@,
        ImportResourceType::Script => "script"@,
    }
}

/// The resource type with a given id.
pub open spec fn resource_from_id(s: Seq<char>) -> Option<ImportResourceType> {
    if s == "texture"@ {
        Some(ImportResourceType::Texture)
    } else if s == "audio"@ {
        Some(ImportResourceType::Audio)
    } else if s == "scene"@ {
        Some(ImportResourceType::Scene)
    } else if s == "mesh"@ {
        Some(ImportResourceType::Mesh)
    } else if s == "font"@ {
        Some(ImportResourceType::Font)
    } else if s == "shader"@ {
        Some(ImportResourceType::Shader)
    } else if s == "script"@ {
        Some(ImportResourceType::Script)
    } else {
        None
    }
}

/// Extensions (lowercase) recognised as textures.
pub open spec fn texture_exts() -> Seq<Seq<char>> {
    seq!["png"@, "jpg"@, "jpeg"@, "bmp"@, "tga"@, "webp"@, "svg"@, "exr"@, "hdr"@]
}

/// Extensions (lowercase) recognised as audio.
pub open spec fn audio_exts() -> Seq<Seq<char>> {
    seq!["wav"@, "ogg"@, "mp3"@, "flac"@, "aiff"@]
}

/// Extensions (lowercase) recognised as scenes.
pub open spec fn scene_exts() -> Seq<Seq<char>> {
    seq!["tscn"@, "scn"@, "glb"@, "gltf"@, "dae"@, "fbx"@, "obj"@]
}

/// Extensions (lowercase) recognised as meshes.
pub open spec fn mesh_exts() -> Seq<Seq<char>> {
    seq!["mesh"@, "res"@]
}

/// Extensions (lowercase) recognised as fonts.
pub open spec fn font_exts() -> Seq<Seq<char>> {
    seq!["ttf"@, "otf"@, "woff"@, "woff2"@, "fnt"@]
}

/// Extensions (lowercase) recognised as shaders.
pub open spec fn shader_exts() -> Seq<Seq<char>> {
    seq!["gdshader"@, "shader"@, "glsl"@]
}

/// Extensions (lowercase) recognised as scripts.
pub open spec fn script_exts() -> Seq<Seq<char>> {
    seq!["gd"@, "gdscript"@, "cs"@]
}

/// The resource type of a lowercased extension.
pub open spec fn type_of_lower_ext(e: Seq<char>) -> Option<ImportResourceType> {
    if texture_exts().contains(e) {
        Some(ImportResourceType::Texture)
    } else if audio_exts().contains(e) {
        Some(ImportResourceType::Audio)
    } else if scene_exts().contains(e) {
        Some(ImportResourceType::Scene)
    } else if mesh_exts().contains(e) {
        Some(ImportResourceType::Mesh)
    } else if font_exts().contains(e) {
        Some(ImportResourceType::Font)
    } else if shader_exts().contains(e) {
        Some(ImportResourceType::Shader)
    } else if script_exts().contains(e) {
        Some(ImportResourceType::Script)
    } else {
        None
    }
}

/// The file extension patterns listed for a resource type.
pub open spec fn listed_exts(t: ImportResourceType) -> Seq<Seq<char>> {
    match t {
        ImportResourceType::Texture => seq!["png"@, "jpg"@, "jpeg"@, "bmp"@, "tga"@, "webp"@, "svg"@, "exr"@, "hdr"@],
        ImportResourceType::Audio => seq!["wav"@, "ogg"@, "mp3"@, "flac"@],
        ImportResourceType::Scene => seq!["tscn"@, "scn"@, "glb"@, "gltf"@],
        ImportResourceType::Mesh => seq!["mesh"@, "obj"@],
        ImportResourceType::Font => seq!["ttf"@, "otf"@, "woff"@, "woff2"@],
        ImportResourceType::Shader => seq!["gdshader"@, "shader"@],
        ImportResourceType::Script => seq!["gd"@, "cs"@],
    }
}

/// Every resource type, in display order.
pub open spec fn all_resource_types() -> Seq<ImportResourceType> {
    seq![
        ImportResourceType::Texture,
        ImportResourceType::Audio,
        ImportResourceType::Scene,
        ImportResourceType::Mesh,
        ImportResourceType::Font,
        ImportResourceType::Shader,
        ImportResourceType::Script,
    ]
}

impl ImportResourceType {
    /// Every resource type, in display order.
    pub fn all() -> (r: Vec<ImportResourceType>)
        ensures
            r@ == all_resource_types(),
    {
        vec![
            ImportResourceType::Texture,
            ImportResourceType::Audio,
            ImportResourceType::Scene,
            ImportResourceType::Mesh,
            ImportResourceType::Font,
            ImportResourceType::Shader,
            ImportResourceType::Script,
        ]
    }

    /// The display label.
    pub fn label(&self) -> (r: &'static str)
        ensures
            r@ == resource_label(*self),
    {
        match self {
            ImportResourceType::Texture => "Texture",
            ImportResourceType::Audio => "Audio",
            ImportResourceType::Scene => "Scene",
            ImportResourceType::Mesh => "Mesh",
            ImportResourceType::Font => "Font",
            ImportResourceType::Shader => "Shader",
            ImportResourceType::Script => "Script",
        }
    }

    /// The id used to refer to the type.
    pub fn id(&self) -> (r: &'static str)
        ensures
            r@ == resource_id(*self),
    {
        match self {
            ImportResourceType::Texture => "texture",
            ImportResourceType::Audio => "audio",
            ImportResourceType::Scene => "scene",
            ImportResourceType::Mesh => "mesh",
            ImportResourceType::Font => "font",
            ImportResourceType::Shader => "shader",
            ImportResourceType::Script => "script",
        }
    }

    /// The resource type with the given id.
    pub fn from_id(s: &str) -> (r: Option<Self>)
        ensures
            r == resource_from_id(s@),
    {
        if str_eq(s, "texture") {
            Some(ImportResourceType::Texture)
        } else if str_eq(s, "audio") {
            Some(ImportResourceType::Audio)
        } else if str_eq(s, "scene") {
            Some(ImportResourceType::Scene)
        } else if str_eq(s, "mesh") {
            Some(ImportResourceType::Mesh)
        } else if str_eq(s, "font") {
            Some(ImportResourceType::Font)
        } else if str_eq(s, "shader") {
            Some(ImportResourceType::Shader)
        } else if str_eq(s, "script") {
            Some(ImportResourceType::Script)
        } else {
            None
        }
    }

    /// Infers the resource type from a file extension (compared after
    /// Unicode lowercasing).
    pub fn from_extension(ext: &str) -> (r: Option<Self>)
        ensures
            r == type_of_lower_ext(unicode_lowercase(ext@)),
    {
        let lower = to_lowercase(ext);
        let e = chars_of(lower.as_str());
        let tex = vec!["png", "jpg", "jpeg", "bmp", "tga", "webp", "svg", "exr", "hdr"];
        assert(literal_views(tex@) =~= texture_exts());
        if in_list(e.as_slice(), &tex) {
            return Some(ImportResourceType::Texture);
        }
        let aud = vec!["wav", "ogg", "mp3", "flac", "aiff"];
        assert(literal_views(aud@) =~= audio_exts());
        if in_list(e.as_slice(), &aud) {
            return Some(ImportResourceType::Audio);
        }
        let scn = vec!["tscn", "scn", "glb", "gltf", "dae", "fbx", "obj"];
        assert(literal_views(scn@) =~= scene_exts());
        if in_list(e.as_slice(), &scn) {
            return Some(ImportResourceType::Scene);
        }
        let msh = vec!["mesh", "res"];
        assert(literal_views(msh@) =~= mesh_exts());
        if in_list(e.as_slice(), &msh) {
            return Some(ImportResourceType::Mesh);
        }
        let fnt = vec!["ttf", "otf", "woff", "woff2", "fnt"];
        assert(literal_views(fnt@) =~= font_exts());
        if in_list(e.as_slice(), &fnt) {
            return Some(ImportResourceType::Font);
        }
        let shd = vec!["gdshader", "shader", "glsl"];
        assert(literal_views(shd@) =~= shader_exts());
        if in_list(e.as_slice(), &shd) {
            return Some(ImportResourceType::Shader);
        }
        let scr = vec!["gd", "gdscript", "cs"];
        assert(literal_views(scr@) =~= script_exts());
        if in_list(e.as_slice(), &scr) {
            return Some(ImportResourceType::Script);
        }
        None
    }

    /// File extension patterns for this resource type.
    pub fn extensions(&self) -> (r: Vec<&'static str>)
        ensures
            literal_views(r@) == listed_exts(*self),
    {
        let r = match self {
            ImportResourceType::Texture => vec!["png", "jpg", "jpeg", "bmp", "tga", "webp", "svg", "exr", "hdr"],
            ImportResourceType::Audio => vec!["wav", "ogg", "mp3", "flac"],
            ImportResourceType::Scene => vec!["tscn", "scn", "glb", "gltf"],
            ImportResourceType::Mesh => vec!["mesh", "obj"],
            ImportResourceType::Font => vec!["ttf", "otf", "woff", "woff2"],
            ImportResourceType::Shader => vec!["gdshader", "shader"],
            ImportResourceType::Script => vec!["gd", "cs"],
        };
        assert(literal_views(r@) =~= listed_exts(*self));
        r
    }
}

/// A resource type's id parses back to the type.
pub proof fn law_resource_id_roundtrip(t: ImportResourceType)
    ensures
        resource_from_id(resource_id(t)) == Some(t),
{
    reveal_strlit("texture");
    reveal_strlit("audio");
    reveal_strlit("scene");
    reveal_strlit("mesh");
    reveal_strlit("font");
    reveal_strlit("shader");
    reveal_strlit("script");
    let ids = seq!["texture"@, "audio"@, "scene"@, "mesh"@, "font"@, "shader"@, "script"@];
    assert(ids[0].len() == 7 && ids[1].len() == 5 && ids[2].len() == 5 && ids[3].len() == 4);
    assert(ids[4].len() == 4 && ids[5].len() == 6 && ids[6].len() == 6);
    assert(ids[1][0] != ids[2][0]);
    assert(ids[3][0] != ids[4][0]);
    assert(ids[5][1] != ids[6][1]);
    assert(ids[1] != ids[2]);
    assert(ids[3] != ids[4]);
    assert(ids[5] != ids[6]);
}

/// Every resource type lists at least one extension and has a non-empty
/// label.
pub proof fn law_resource_types_described(t: ImportResourceType)
    ensures
        listed_exts(t).len() > 0,
        resource_label(t).len() > 0,
{
    reveal_strlit("Texture");
    reveal_strlit("Audio");
    reveal_strlit("Scene");
    reveal_strlit("Mesh");
    reveal_strlit("Font");
    reveal_strlit("Shader");
    reveal_strlit("Script");
}

/// Texture compression mode.
#[derive(Debug, Clone, Copy, PartialEq, Eq, Structural)]
pub enum TextureCompression {
    Lossless,
    Lossy,
    VRAM,
    Uncompressed,
}

/// The label of a texture compression mode.
pub open spec fn compression_label(c: TextureCompression) -> Seq<char> {
    match c {
        TextureCompression::Lossless => "Lossless"@,
        TextureCompression::Lossy => "Lossy"@,
        TextureCompression::VRAM => "VRAM Compressed"@,
        TextureCompression::Uncompressed => "Uncompressed"@,
    }
}

impl TextureCompression {
    /// The display label.
    pub fn label(&self) -> (r: &'static str)
        ensures
            r@ == compression_label(*self),
    {
        match self {
            TextureCompression::Lossless => "Lossless",
            TextureCompression::Lossy => "Lossy",
            TextureCompression::VRAM => "VRAM Compressed",
            TextureCompression::Uncompressed => "Uncompressed",
        }
    }

    /// Every compression mode, in display order.
    pub fn all() -> (r: Vec<TextureCompression>)
        ensures
            r@ == seq![TextureCompression::Lossless, TextureCompression::Lossy, TextureCompression::VRAM, TextureCompression::Uncompressed],
    {
        vec![TextureCompression::Lossless, TextureCompression::Lossy, TextureCompression::VRAM, TextureCompression::Uncompressed]
    }
}

/// Texture filter mode.
#[derive(Debug, Clone, Copy, PartialEq, Eq, Structural)]
pub enum TextureFilter {
    Nearest,
    Linear,
    NearestMipmap,
    LinearMipmap,
}

/// The label of a texture filter.
pub open spec fn filter_label(f: TextureFilter) -> Seq<char> {
    match f {
        TextureFilter::Nearest => "Nearest"@,
        TextureFilter::Linear => "Linear"@,
        TextureFilter::NearestMipmap => "Nearest (Mipmap)"@,
        TextureFilter::LinearMipmap => "Linear (Mipmap)"@,
    }
}

impl TextureFilter {
    /// The display label.
    pub fn label(&self) -> (r: &'static str)
        ensures
            r@ == filter_label(*self),
    {
        match self {
            TextureFilter::Nearest => "Nearest",
            TextureFilter::Linear => "Linear",
            TextureFilter::NearestMipmap => "Nearest (Mipmap)",
            TextureFilter::LinearMipmap => "Linear (Mipmap)",
        }
    }
}

/// Audio sample rate conversion mode.
#[derive(Debug, Clone, Copy, PartialEq, Eq, Structural)]
pub enum AudioFormatMode {
    /// Keep original format.
    Original,
    /// Convert to Ogg Vorbis.
    OggVorbis,
    /// Convert to WAV (PCM).
    Wav,
}

/// The label of an audio format mode.
pub open spec fn audio_format_label(a: AudioFormatMode) -> Seq<char> {
    match a {
        AudioFormatMode::Original => "Keep Original"@,
        AudioFormatMode::OggVorbis => "Ogg Vorbis"@,
        AudioFormatMode::Wav => "WAV (PCM)"@,
    }
}

impl AudioFormatMode {
    /// The display label.
    pub fn label(&self) -> (r: &'static str)
        ensures
            r@ == audio_format_label(*self),
    {
        match self {
            AudioFormatMode::Original => "Keep Original",
            AudioFormatMode::OggVorbis => "Ogg Vorbis",
            AudioFormatMode::Wav => "WAV (PCM)",
        }
    }
}

/// Font hinting mode.
#[derive(Debug, Clone, Copy, PartialEq, Eq, Structural)]
pub enum FontHinting {
    NoHinting,
    Light,
    Normal,
}

/// The label of a font hinting mode.
pub open spec fn hinting_label(h: FontHinting) -> Seq<char> {
    match h {
        FontHinting::NoHinting => "None"@,
        FontHinting::Light => "Light"@,
        FontHinting::Normal => "Normal"@,
    }
}

impl FontHinting {
    /// The display label.
    pub fn label(&self) -> (r: &'static str)
        ensures
            r@ == hinting_label(*self),
    {
        match self {
            FontHinting::NoHinting => "None",
            FontHinting::Light => "Light",
            FontHinting::Normal => "Normal",
        }
    }
}

/// Import settings for fonts.
#[derive(Debug, Clone, PartialEq)]
pub struct FontImportSettings {
    pub default_size: u32,
    pub antialiased: bool,
    pub hinting: FontHinting,
    pub subpixel_positioning: bool,
    pub preload_sizes: Vec<u32>,
}

impl Default for FontImportSettings {
    fn default() -> (r: Self)
        ensures
            r.default_size == 16,
            r.antialiased,
            r.hinting == FontHinting::Light,
            r.subpixel_positioning,
            r.preload_sizes@ == Seq::<u32>::empty(),
    {
        FontImportSettings {
            default_size: 16,
            antialiased: true,
            hinting: FontHinting::Light,
            subpixel_positioning: true,
            preload_sizes: Vec::new(),
        }
    }
}

/// Every option label is non-empty.
pub proof fn law_option_labels_nonempty(c: TextureCompression, f: TextureFilter, a: AudioFormatMode, h: FontHinting)
    ensures
        compression_label(c).len() > 0,
        filter_label(f).len() > 0,
        audio_format_label(a).len() > 0,
        hinting_label(h).len() > 0,
{
    reveal_strlit("Lossless");
    reveal_strlit("Lossy");
    reveal_strlit("VRAM Compressed");
    reveal_strlit("Uncompressed");
    reveal_strlit("Nearest");
    reveal_strlit("Linear");
    reveal_strlit("Nearest (Mipmap)");
    reveal_strlit("Linear (Mipmap)");
    reveal_strlit("Keep Original");
    reveal_strlit("Ogg Vorbis");
    reveal_strlit("WAV (PCM)");
    reveal_strlit("None");
    reveal_strlit("Light");
    reveal_strlit("Normal");
}

} // verus!
