//! The file-system dock's entries and the icon each file gets from its
//! extension.

use vstd::prelude::*;
use crate::paths::{containing_dirs, count_slashes, ext_chars, ext_of, name_chars, name_of, parent_chars, parent_of, path_less,
    path_lt, slash_count};
use crate::table::{has_key, keys_unique, lemma_string_set_push, lemma_string_set_remove, lemma_table_lookup, lemma_table_push,
    string_find, string_set, string_views, strings_unique, table_find, table_view};
use crate::text::{ascii_lower_seq, ascii_upper, ascii_lowercase, char_ascii_lower, chars_eq, chars_of, find_from,
    first_match, in_list, literal_views, owned, push_chars, push_str, string_from_chars};

verus! {

/// The icon of a file or directory in the file-system dock.
#[derive(Debug, Clone, Copy, PartialEq, Eq, Structural)]
pub enum FileIcon {
    Directory,
    Scene,
    Script,
    Resource,
    Texture,
    Audio,
    Shader,
    Font,
    Config,
    Unknown,
}

/// Extensions shown with the scene icon.
pub open spec fn scene_icon_exts() -> Seq<Seq<char>> {
    seq!["tscn"@, "scn"@]
}

/// Extensions shown with the script icon.
pub open spec fn script_icon_exts() -> Seq<Seq<char>> {
    seq!["gd"@, "gdscript"@]
}

/// Extensions shown with the resource icon.
pub open spec fn resource_icon_exts() -> Seq<Seq<char>> {
    seq!["tres"@, "res"@]
}

/// Extensions shown with the texture icon.
pub open spec fn texture_icon_exts() -> Seq<Seq<char>> {
    seq!["png"@, "jpg"@, "jpeg"@, "bmp"@, "svg"@, "webp"@, "tga"@, "exr"@, "hdr"@]
}

/// Extensions shown with the audio icon.
pub open spec fn audio_icon_exts() -> Seq<Seq<char>> {
    seq!["wav"@, "ogg"@, "mp3"@, "opus"@, "flac"@]
}

/// Extensions shown with the shader icon.
pub open spec fn shader_icon_exts() -> Seq<Seq<char>> {
    seq!["gdshader"@, "shader"@, "glsl"@]
}

/// Extensions shown with the font icon.
pub open spec fn font_icon_exts() -> Seq<Seq<char>> {
    seq!["ttf"@, "otf"@, "woff"@, "woff2"@, "fnt"@]
}

/// Extensions shown with the configuration icon.
pub open spec fn config_icon_exts() -> Seq<Seq<char>> {
    seq!["cfg"@, "godot"@, "import"@, "json"@, "toml"@, "yaml"@, "yml"@]
}

/// The icon of an extension already in ASCII lowercase.
pub open spec fn icon_of_lower(e: Seq<char>) -> FileIcon {
    if scene_icon_exts().contains(e) {
        FileIcon::Scene
    } else if script_icon_exts().contains(e) {
        FileIcon::Script
    } else if resource_icon_exts().contains(e) {
        FileIcon::Resource
    } else if texture_icon_exts().contains(e) {
        FileIcon::Texture
    } else if audio_icon_exts().contains(e) {
        FileIcon::Audio
    } else if shader_icon_exts().contains(e) {
        FileIcon::Shader
    } else if font_icon_exts().contains(e) {
        FileIcon::Font
    } else if config_icon_exts().contains(e) {
        FileIcon::Config
    } else {
        FileIcon::Unknown
    }
}

impl FileIcon {
    /// The icon of a file with extension `ext`, compared case-insensitively
    /// (ASCII).
    pub fn from_extension(ext: &str) -> (r: Self)
        ensures
            r == icon_of_lower(ascii_lower_seq(ext@)),
    {
        let e = ascii_lowercase(ext);
        let l = vec!["tscn", "scn"];
        assert(literal_views(l@) =~= scene_icon_exts());
        if in_list(e.as_slice(), &l) {
            return FileIcon::Scene;
        }
        let l = vec!["gd", "gdscript"];
        assert(literal_views(l@) =~= script_icon_exts());
        if in_list(e.as_slice(), &l) {
            return FileIcon::Script;
        }
        let l = vec!["tres", "res"];
        assert(literal_views(l@) =~= resource_icon_exts());
        if in_list(e.as_slice(), &l) {
            return FileIcon::Resource;
        }
        let l = vec!["png", "jpg", "jpeg", "bmp", "svg", "webp", "tga", "exr", "hdr"];
        assert(literal_views(l@) =~= texture_icon_exts());
        if in_list(e.as_slice(), &l) {
            return FileIcon::Texture;
        }
        let l = vec!["wav", "ogg", "mp3", "opus", "flac"];
        assert(literal_views(l@) =~= audio_icon_exts());
        if in_list(e.as_slice(), &l) {
            return FileIcon::Audio;
        }
        let l = vec!["gdshader", "shader", "glsl"];
        assert(literal_views(l@) =~= shader_icon_exts());
        if in_list(e.as_slice(), &l) {
            return FileIcon::Shader;
        }
        let l = vec!["ttf", "otf", "woff", "woff2", "fnt"];
        assert(literal_views(l@) =~= font_icon_exts());
        if in_list(e.as_slice(), &l) {
            return FileIcon::Font;
        }
        let l = vec!["cfg", "godot", "import", "json", "toml", "yaml", "yml"];
        assert(literal_views(l@) =~= config_icon_exts());
        if in_list(e.as_slice(), &l) {
            return FileIcon::Config;
        }
        FileIcon::Unknown
    }
}

/// The icon ignores ASCII case: an extension written in capitals gets the
/// icon of the same extension in lowercase.
pub proof fn law_icon_ignores_case(ext: Seq<char>)
    ensures
        icon_of_lower(ascii_lower_seq(ext.map_values(|c: char| ascii_upper(c)))) == icon_of_lower(ascii_lower_seq(ext)),
{
    let up = ext.map_values(|c: char| ascii_upper(c));
    assert(ascii_lower_seq(up) =~= ascii_lower_seq(ext));
}

/// An entry of the file-system dock tree.
#[derive(Debug, Clone)]
pub struct FileSystemEntry {
    /// File or directory name.
    pub name: String,
    /// Path relative to the project root (such as `scenes/main.tscn`).
    pub relative_path: String,
    /// The matching `res://` path.
    pub res_path: String,
    /// Whether this is a directory.
    pub is_directory: bool,
    /// The entry's icon.
    pub icon: FileIcon,
    /// Nesting depth (0 at the top level).
    pub depth: usize,
    /// Whether the entry is expanded (directories only).
    pub expanded: bool,
    /// Number of children (directories only).
    pub child_count: usize,
}

/// What an entry shows: name, relative path, `res://` path, whether it is
/// a directory, icon, depth, whether it is expanded, number of children.
pub type EntryView = (Seq<char>, Seq<char>, Seq<char>, bool, FileIcon, nat, bool, nat);

impl View for FileSystemEntry {
    type V = EntryView;

    open spec fn view(&self) -> EntryView {
        (self.name@, self.relative_path@, self.res_path@, self.is_directory, self.icon, self.depth as nat, self.expanded,
            self.child_count as nat)
    }
}

/// What a list of entries shows, in order.
pub open spec fn entry_views(s: Seq<FileSystemEntry>) -> Seq<EntryView> {
    s.map_values(|e: FileSystemEntry| e@)
}

/// The characters of each character vector, in order.
pub open spec fn char_views(s: Seq<Vec<char>>) -> Seq<Seq<char>> {
    s.map_values(|v: Vec<char>| v@)
}

/// Whether path `f` matches the lowercased filter `fl`: an empty filter
/// matches everything, otherwise the ASCII-lowercased path must contain it.
pub open spec fn passes_filter(f: Seq<char>, fl: Seq<char>) -> bool {
    fl.len() == 0 || first_match(ascii_lower_seq(f), fl, 0) is Some
}

/// The directories that contain some file matching the filter.
pub open spec fn listed_dirs(files: Seq<Seq<char>>, fl: Seq<char>) -> Set<Seq<char>> {
    Set::new(
        |d: Seq<char>|
            exists|i: int| 0 <= i < files.len() && passes_filter(files[i], fl) && #[trigger] containing_dirs(files[i]).contains(d),
    )
}

/// The depth of a directory: its number of segments.
pub open spec fn dir_depth(d: Seq<char>) -> nat {
    slash_count(d) + if d.len() == 0 { 0nat } else { 1nat }
}

/// Whether a listed directory is shown: at the top level, or inside an
/// expanded directory.
pub open spec fn dir_shown(d: Seq<char>, expanded: Set<Seq<char>>) -> bool {
    dir_depth(d) == 0 || expanded.contains(parent_of(d))
}

/// How many of `files` lie directly in directory `d`.
pub open spec fn children_in(files: Seq<Seq<char>>, d: Seq<char>) -> nat
    decreases files.len(),
{
    if files.len() == 0 {
        0
    } else {
        children_in(files.drop_last(), d) + if parent_of(files.last()) == d { 1nat } else { 0nat }
    }
}

/// The entry of directory `d`.
pub open spec fn dir_entry_view(d: Seq<char>, expanded: Set<Seq<char>>, files: Seq<Seq<char>>) -> EntryView {
    (name_of(d), d, "res://"@ + d + "/"@, true, FileIcon::Directory, dir_depth(d), expanded.contains(d), children_in(files, d))
}

/// Whether file `f` is shown: it matches the filter, and the filter is set
/// or its directory is expanded.
pub open spec fn file_shown(f: Seq<char>, fl: Seq<char>, expanded: Set<Seq<char>>) -> bool {
    passes_filter(f, fl) && (fl.len() > 0 || expanded.contains(parent_of(f)))
}

/// The depth of a file: its number of `/`, plus one when it is not at the
/// top level.
pub open spec fn file_depth(f: Seq<char>) -> nat {
    slash_count(f) + if parent_of(f).len() == 0 { 0nat } else { 1nat }
}

/// The entry of file `f`.
pub open spec fn file_entry_view(f: Seq<char>) -> EntryView {
    (name_of(f), f, "res://"@ + f, false, icon_of_lower(ascii_lower_seq(ext_of(name_of(f)))), file_depth(f), false, 0)
}

/// The entries of the shown directories.
pub open spec fn shown_dir_views(files: Seq<Seq<char>>, fl: Seq<char>, expanded: Set<Seq<char>>) -> Set<EntryView> {
    Set::new(
        |v: EntryView|
            exists|d: Seq<char>| #[trigger] listed_dirs(files, fl).contains(d) && dir_shown(d, expanded) && v == dir_entry_view(d, expanded, files),
    )
}

/// The entries of the shown files, in the files' order.
pub open spec fn shown_file_views(files: Seq<Seq<char>>, fl: Seq<char>, expanded: Set<Seq<char>>) -> Seq<EntryView>
    decreases files.len(),
{
    if files.len() == 0 {
        Seq::empty()
    } else {
        let rest = shown_file_views(files.drop_last(), fl, expanded);
        if file_shown(files.last(), fl, expanded) {
            rest.push(file_entry_view(files.last()))
        } else {
            rest
        }
    }
}

/// Entries ordered by relative path.
pub open spec fn sorted_by_path(s: Seq<EntryView>) -> bool {
    forall|i: int, j: int| 0 <= i < j < s.len() ==> !path_lt((#[trigger] s[j]).1, (#[trigger] s[i]).1)
}

/// Of a directory and a file with the same relative path, the directory
/// comes first.
pub open spec fn dirs_first_on_ties(s: Seq<EntryView>) -> bool {
    forall|i: int, j: int|
        0 <= i < j < s.len() && (#[trigger] s[i]).1 == (#[trigger] s[j]).1 ==> !(!s[i].3 && s[j].3)
}

/// The dock's listing: the shown directories' and files' entries, ordered
/// by relative path, a directory before a file of the same path.
pub open spec fn correct_listing(entries: Seq<EntryView>, files: Seq<Seq<char>>, fl: Seq<char>, expanded: Set<Seq<char>>) -> bool {
    &&& sorted_by_path(entries)
    &&& dirs_first_on_ties(entries)
    &&& exists|ds: Seq<EntryView>|
        #![trigger ds.to_set()]
        ds.no_duplicates() && ds.to_set() == shown_dir_views(files, fl, expanded) && entries.to_multiset()
            == ds.to_multiset().add(shown_file_views(files, fl, expanded).to_multiset())
}

/// The characters of `s`, ASCII-lowercased.
fn lower_chars(s: &[char]) -> (r: Vec<char>)
    ensures
        r@ == ascii_lower_seq(s@),
{
    let mut r: Vec<char> = Vec::new();
    let mut i: usize = 0;
    while i < s.len()
        invariant
            i <= s@.len(),
            r@ == ascii_lower_seq(s@.take(i as int)),
        decreases s@.len() - i,
    {
        r.push(char_ascii_lower(s[i]));
        i += 1;
        assert(r@ =~= ascii_lower_seq(s@.take(i as int)));
    }
    assert(s@.take(s@.len() as int) =~= s@);
    r
}

/// Whether path `f` matches the lowercased filter `fl`.
fn matches_filter(f: &[char], fl: &[char]) -> (r: bool)
    ensures
        r == passes_filter(f@, fl@),
{
    if fl.len() == 0 {
        return true;
    }
    let low = lower_chars(f);
    find_from(low.as_slice(), fl, 0).is_some()
}

/// The entry of directory `d`, given all files and the expanded
/// directories.
fn dir_entry(d: &[char], files: &Vec<Vec<char>>, expanded: &Vec<String>) -> (e: FileSystemEntry)
    requires
        d@.len() < usize::MAX,
    ensures
        e@ == dir_entry_view(d@, string_set(expanded@), char_views(files@)),
{
    let name = string_from_chars(name_chars(d).as_slice());
    let rel = string_from_chars(d);
    let mut res = owned("res://");
    push_chars(&mut res, d);
    push_str(&mut res, "/");
    let slashes = count_slashes(d);
    proof {
        lemma_slash_count_bound(d@);
    }
    let depth = if d.len() == 0 { slashes } else { slashes + 1 };
    let is_expanded = string_find(expanded, rel.as_str()).is_some();
    let mut count: usize = 0;
    let mut i: usize = 0;
    while i < files.len()
        invariant
            i <= files@.len(),
            count == children_in(char_views(files@).take(i as int), d@),
            count <= i,
        decreases files@.len() - i,
    {
        let p = parent_chars(files[i].as_slice());
        let hit = chars_eq(p.as_slice(), d);
        proof {
            let fs = char_views(files@);
            assert(fs.take(i + 1).drop_last() =~= fs.take(i as int));
            assert(fs.take(i + 1).last() == files@[i as int]@);
        }
        if hit {
            count += 1;
        }
        i += 1;
    }
    assert(char_views(files@).take(files@.len() as int) =~= char_views(files@));
    FileSystemEntry {
        name,
        relative_path: rel,
        res_path: res,
        is_directory: true,
        icon: FileIcon::Directory,
        depth,
        expanded: is_expanded,
        child_count: count,
    }
}

/// The entry of file `f`.
fn file_entry(f: &[char]) -> (e: FileSystemEntry)
    requires
        f@.len() < usize::MAX,
    ensures
        e@ == file_entry_view(f@),
{
    let name_v = name_chars(f);
    let ext = ext_chars(name_v.as_slice());
    let ext_s = string_from_chars(ext.as_slice());
    let icon = FileIcon::from_extension(ext_s.as_str());
    let name = string_from_chars(name_v.as_slice());
    let rel = string_from_chars(f);
    let mut res = owned("res://");
    push_chars(&mut res, f);
    let slashes = count_slashes(f);
    let parent = parent_chars(f);
    proof {
        lemma_slash_count_bound(f@);
    }
    let depth = if parent.len() == 0 { slashes } else { slashes + 1 };
    FileSystemEntry {
        name,
        relative_path: rel,
        res_path: res,
        is_directory: false,
        icon,
        depth,
        expanded: false,
        child_count: 0,
    }
}

/// A path has at most as many `/` as characters.
proof fn lemma_slash_count_bound(s: Seq<char>)
    ensures
        slash_count(s) <= s.len(),
    decreases s.len(),
{
    if s.len() > 0 {
        lemma_slash_count_bound(s.drop_last());
    }
}

/// The directories containing one of the first `n` files, where those
/// files match the filter.
pub open spec fn listed_dirs_upto(files: Seq<Seq<char>>, fl: Seq<char>, n: int) -> Set<Seq<char>> {
    Set::new(
        |d: Seq<char>|
            exists|i: int| 0 <= i < n && passes_filter(files[i], fl) && #[trigger] containing_dirs(files[i]).contains(d),
    )
}

/// The directories of `f` that end before position `k`.
pub open spec fn containing_dirs_upto(f: Seq<char>, k: int) -> Set<Seq<char>> {
    Set::new(|d: Seq<char>| exists|j: int| 0 <= j < k && f[j] == '/' && d == #[trigger] f.subrange(0, j))
}

/// Whether `x` is one of the character vectors of `list`.
fn contains_chars(list: &Vec<Vec<char>>, x: &[char]) -> (r: bool)
    ensures
        r == char_views(list@).contains(x@),
{
    let mut i: usize = 0;
    while i < list.len()
        invariant
            i <= list@.len(),
            forall|j: int| 0 <= j < i ==> list@[j]@ != x@,
        decreases list@.len() - i,
    {
        if chars_eq(list[i].as_slice(), x) {
            assert(char_views(list@)[i as int] == x@);
            return true;
        }
        i += 1;
    }
    assert forall|j: int| 0 <= j < char_views(list@).len() implies char_views(list@)[j] != x@ by {
        assert(char_views(list@)[j] == list@[j]@);
    }
    false
}

/// The directories that contain a file matching the filter, each once.
fn collect_dirs(files: &Vec<Vec<char>>, fl: &[char]) -> (dirs: Vec<Vec<char>>)
    ensures
        char_views(dirs@).no_duplicates(),
        char_views(dirs@).to_set() == listed_dirs(char_views(files@), fl@),
        forall|k: int| 0 <= k < dirs@.len() ==> (#[trigger] dirs@[k])@.len() < usize::MAX,
{
    let ghost fs = char_views(files@);
    let mut dirs: Vec<Vec<char>> = Vec::new();
    let mut i: usize = 0;
    assert(char_views(dirs@).to_set() =~= listed_dirs_upto(fs, fl@, 0));
    while i < files.len()
        invariant
            fs == char_views(files@),
            i <= files@.len(),
            char_views(dirs@).no_duplicates(),
            char_views(dirs@).to_set() == listed_dirs_upto(fs, fl@, i as int),
            forall|k: int| 0 <= k < dirs@.len() ==> (#[trigger] dirs@[k])@.len() < usize::MAX,
        decreases files@.len() - i,
    {
        let f = &files[i];
        assert(f@ == fs[i as int]);
        if matches_filter(f.as_slice(), fl) {
            let mut k: usize = 0;
            assert(containing_dirs_upto(f@, 0) =~= Set::<Seq<char>>::empty());
            while k < f.len()
                invariant
                    fs == char_views(files@),
                    i < files@.len(),
                    f@ == fs[i as int],
                    passes_filter(f@, fl@),
                    k <= f@.len(),
                    char_views(dirs@).no_duplicates(),
                    char_views(dirs@).to_set() == listed_dirs_upto(fs, fl@, i as int).union(containing_dirs_upto(f@, k as int)),
                    forall|q: int| 0 <= q < dirs@.len() ==> (#[trigger] dirs@[q])@.len() < usize::MAX,
                decreases f@.len() - k,
            {
                let ghost before = char_views(dirs@);
                if f[k] == '/' {
                    let mut prefix: Vec<char> = Vec::new();
                    let mut t: usize = 0;
                    while t < k
                        invariant
                            t <= k,
                            k < f@.len(),
                            prefix@ == f@.subrange(0, t as int),
                        decreases k - t,
                    {
                        prefix.push(f[t]);
                        t += 1;
                        assert(prefix@ =~= f@.subrange(0, t as int));
                    }
                    if !contains_chars(&dirs, prefix.as_slice()) {
                        dirs.push(prefix);
                        proof {
                            let after = char_views(dirs@);
                            assert(after =~= before.push(f@.subrange(0, k as int)));
                            assert forall|a: int, b: int| 0 <= a < b < after.len() implies after[a] != after[b] by {
                                if b == after.len() - 1 {
                                    assert(before.contains(before[a]));
                                }
                            }
                            before.lemma_push_to_set_commute(f@.subrange(0, k as int));
                        }
                    }
                    proof {
                        assert forall|d: Seq<char>| #[trigger] containing_dirs_upto(f@, k + 1).contains(d) == (containing_dirs_upto(
                            f@,
                            k as int,
                        ).contains(d) || d == f@.subrange(0, k as int)) by {
                            if containing_dirs_upto(f@, k + 1).contains(d) {
                                let j = choose|j: int| 0 <= j < k + 1 && f@[j] == '/' && d == #[trigger] f@.subrange(0, j);
                                if j < k {
                                    assert(containing_dirs_upto(f@, k as int).contains(d));
                                }
                            }
                            if d == f@.subrange(0, k as int) {
                                assert(containing_dirs_upto(f@, k + 1).contains(d));
                            }
                            if containing_dirs_upto(f@, k as int).contains(d) {
                                let j = choose|j: int| 0 <= j < k && f@[j] == '/' && d == #[trigger] f@.subrange(0, j);
                                assert(containing_dirs_upto(f@, k + 1).contains(d));
                            }
                        }
                        assert(char_views(dirs@).to_set() =~= listed_dirs_upto(fs, fl@, i as int).union(
                            containing_dirs_upto(f@, k + 1),
                        ));
                    }
                } else {
                    proof {
                        assert forall|d: Seq<char>| #[trigger] containing_dirs_upto(f@, k + 1).contains(d) == containing_dirs_upto(
                            f@,
                            k as int,
                        ).contains(d) by {
                            if containing_dirs_upto(f@, k + 1).contains(d) {
                                let j = choose|j: int| 0 <= j < k + 1 && f@[j] == '/' && d == #[trigger] f@.subrange(0, j);
                                assert(j != k);
                                assert(containing_dirs_upto(f@, k as int).contains(d));
                            }
                            if containing_dirs_upto(f@, k as int).contains(d) {
                                let j = choose|j: int| 0 <= j < k && f@[j] == '/' && d == #[trigger] f@.subrange(0, j);
                                assert(containing_dirs_upto(f@, k + 1).contains(d));
                            }
                        }
                        assert(containing_dirs_upto(f@, k + 1) =~= containing_dirs_upto(f@, k as int));
                    }
                }
                k += 1;
            }
            proof {
                assert forall|d: Seq<char>| #[trigger] listed_dirs_upto(fs, fl@, i + 1).contains(d) == (listed_dirs_upto(
                    fs,
                    fl@,
                    i as int,
                ).contains(d) || containing_dirs_upto(f@, f@.len() as int).contains(d)) by {
                    assert(containing_dirs_upto(f@, f@.len() as int).contains(d) == containing_dirs(f@).contains(d));
                    if listed_dirs_upto(fs, fl@, i + 1).contains(d) {
                        let j = choose|j: int| 0 <= j < i + 1 && passes_filter(fs[j], fl@) && #[trigger] containing_dirs(
                            fs[j],
                        ).contains(d);
                        if j < i {
                            assert(listed_dirs_upto(fs, fl@, i as int).contains(d));
                        }
                    }
                    if listed_dirs_upto(fs, fl@, i as int).contains(d) {
                        let j = choose|j: int| 0 <= j < i && passes_filter(fs[j], fl@) && #[trigger] containing_dirs(
                            fs[j],
                        ).contains(d);
                        assert(listed_dirs_upto(fs, fl@, i + 1).contains(d));
                    }
                    if containing_dirs(f@).contains(d) {
                        assert(listed_dirs_upto(fs, fl@, i + 1).contains(d));
                    }
                }
                assert(char_views(dirs@).to_set() =~= listed_dirs_upto(fs, fl@, i + 1));
            }
        } else {
            proof {
                assert forall|d: Seq<char>| #[trigger] listed_dirs_upto(fs, fl@, i + 1).contains(d) == listed_dirs_upto(
                    fs,
                    fl@,
                    i as int,
                ).contains(d) by {
                    if listed_dirs_upto(fs, fl@, i + 1).contains(d) {
                        let j = choose|j: int| 0 <= j < i + 1 && passes_filter(fs[j], fl@) && #[trigger] containing_dirs(
                            fs[j],
                        ).contains(d);
                        assert(j != i);
                        assert(listed_dirs_upto(fs, fl@, i as int).contains(d));
                    }
                    if listed_dirs_upto(fs, fl@, i as int).contains(d) {
                        let j = choose|j: int| 0 <= j < i && passes_filter(fs[j], fl@) && #[trigger] containing_dirs(
                            fs[j],
                        ).contains(d);
                        assert(listed_dirs_upto(fs, fl@, i + 1).contains(d));
                    }
                }
                assert(listed_dirs_upto(fs, fl@, i + 1) =~= listed_dirs_upto(fs, fl@, i as int));
            }
        }
        i += 1;
    }
    assert(listed_dirs_upto(fs, fl@, files@.len() as int) =~= listed_dirs(fs, fl@));
    dirs
}

/// Directories come before files.
pub open spec fn dirs_before_files(s: Seq<EntryView>) -> bool {
    forall|i: int, j: int| 0 <= i < j < s.len() ==> !(!(#[trigger] s[i]).3 && (#[trigger] s[j]).3)
}

/// Inserting `x` at `p`, after every entry whose path does not come after
/// it and before the first that does, keeps the entries ordered.
proof fn lemma_insert_by_path(s: Seq<EntryView>, p: int, x: EntryView)
    requires
        sorted_by_path(s),
        dirs_first_on_ties(s),
        0 <= p <= s.len(),
        forall|i: int| 0 <= i < p ==> !path_lt(x.1, (#[trigger] s[i]).1),
        p < s.len() ==> path_lt(x.1, s[p].1),
        x.3 ==> forall|k: int| 0 <= k < s.len() ==> (#[trigger] s[k]).3,
    ensures
        sorted_by_path(s.insert(p, x)),
        dirs_first_on_ties(s.insert(p, x)),
{
    let t = s.insert(p, x);
    assert forall|i: int, j: int| 0 <= i < j < t.len() implies !path_lt((#[trigger] t[j]).1, (#[trigger] t[i]).1) && (
    t[i].1 == t[j].1 ==> !(!t[i].3 && t[j].3)) by {
        if j < p {
            assert(t[i] == s[i] && t[j] == s[j]);
        } else if j == p {
            assert(t[i] == s[i] && t[j] == x);
        } else if i == p {
            assert(t[i] == x && t[j] == s[j - 1]);
            if path_lt(s[j - 1].1, x.1) {
                crate::paths::lemma_path_lt_trans(s[j - 1].1, x.1, s[p].1);
                crate::paths::lemma_path_lt_asym(s[j - 1].1, s[p].1);
                if j - 1 > p {
                    assert(!path_lt(s[j - 1].1, s[p].1));
                }
            }
            if x.1 == s[j - 1].1 {
                crate::paths::lemma_path_lt_asym(s[p].1, s[p].1);
                if j - 1 > p {
                    assert(!path_lt(s[j - 1].1, s[p].1));
                }
            }
        } else if i < p {
            assert(t[i] == s[i] && t[j] == s[j - 1]);
        } else {
            assert(t[i] == s[i - 1] && t[j] == s[j - 1]);
        }
    }
}

/// Inserts `x` into the ordered entries `r`: after every entry whose path
/// does not come after it.
fn insert_by_path(r: &mut Vec<FileSystemEntry>, x: FileSystemEntry)
    requires
        sorted_by_path(entry_views(old(r)@)),
        dirs_first_on_ties(entry_views(old(r)@)),
        x.is_directory ==> forall|k: int| 0 <= k < old(r)@.len() ==> (#[trigger] old(r)@[k]).is_directory,
    ensures
        sorted_by_path(entry_views(final(r)@)),
        dirs_first_on_ties(entry_views(final(r)@)),
        entry_views(final(r)@).to_multiset() == entry_views(old(r)@).to_multiset().insert(x@),
{
    let ghost s = entry_views(r@);
    let key = chars_of(x.relative_path.as_str());
    let mut p: usize = 0;
    while p < r.len() && !path_less(key.as_slice(), chars_of(r[p].relative_path.as_str()).as_slice())
        invariant
            s == entry_views(r@),
            p <= r@.len(),
            key@ == x@.1,
            forall|i: int| 0 <= i < p ==> !path_lt(x@.1, (#[trigger] s[i]).1),
        decreases r@.len() - p,
    {
        p += 1;
    }
    proof {
        lemma_insert_by_path(s, p as int, x@);
    }
    r.insert(p, x);
    assert(entry_views(r@) =~= s.insert(p as int, x@));
    proof {
        vstd::seq_lib::to_multiset_insert(s, p as int, x@);
    }
}

/// The entries ordered by relative path, directories before files of the
/// same path, files of the same path in their original order.
fn sort_by_path(items: Vec<FileSystemEntry>) -> (r: Vec<FileSystemEntry>)
    requires
        dirs_before_files(entry_views(items@)),
    ensures
        sorted_by_path(entry_views(r@)),
        dirs_first_on_ties(entry_views(r@)),
        entry_views(r@).to_multiset() == entry_views(items@).to_multiset(),
{
    let ghost orig = entry_views(items@);
    let mut rest = items;
    let mut r: Vec<FileSystemEntry> = Vec::new();
    let ghost mut t: int = 0;
    assert(entry_views(rest@) =~= orig.skip(0));
    assert(entry_views(r@).to_multiset() =~= orig.take(0).to_multiset()) by {
        assert(entry_views(r@) =~= orig.take(0));
    }
    while rest.len() > 0
        invariant
            0 <= t <= orig.len(),
            dirs_before_files(orig),
            entry_views(rest@) == orig.skip(t),
            sorted_by_path(entry_views(r@)),
            dirs_first_on_ties(entry_views(r@)),
            entry_views(r@).to_multiset() == orig.take(t).to_multiset(),
        decreases rest@.len(),
    {
        let ghost before = entry_views(rest@);
        assert(before.len() > 0);
        assert(t < orig.len());
        assert(before[0] == orig[t]);
        let ghost r0 = rest@;
        let x = rest.remove(0);
        assert(x == r0[0]);
        assert(x@ == before[0]);
        proof {
            if x.is_directory {
                assert forall|k: int| 0 <= k < r@.len() implies (#[trigger] r@[k]).is_directory by {
                    let v = entry_views(r@)[k];
                    assert(entry_views(r@).contains(v));
                    vstd::seq_lib::to_multiset_contains(entry_views(r@), v);
                    vstd::seq_lib::to_multiset_contains(orig.take(t), v);
                    let m = choose|m: int| 0 <= m < orig.take(t).len() && orig.take(t)[m] == v;
                    assert(orig[m] == v);
                    assert(v.3);
                }
            }
        }
        insert_by_path(&mut r, x);
        proof {
            assert(orig.take(t + 1) =~= orig.take(t).push(orig[t]));
            vstd::seq_lib::to_multiset_build(orig.take(t), orig[t]);
            assert(entry_views(rest@) =~= before.drop_first());
            t = t + 1;
        }
    }
    assert(orig.take(t) =~= orig);
    r
}

/// The entries of the shown directories among the first `k` of `dirs`.
pub open spec fn dir_views_upto(dirs: Seq<Seq<char>>, k: int, expanded: Set<Seq<char>>, files: Seq<Seq<char>>) -> Set<EntryView> {
    Set::new(
        |v: EntryView|
            exists|j: int| 0 <= j < k && dir_shown(#[trigger] dirs[j], expanded) && v == dir_entry_view(dirs[j], expanded, files),
    )
}

/// Whether `x` is in the string set `set`.
fn set_has(set: &Vec<String>, x: &[char]) -> (r: bool)
    ensures
        r == string_set(set@).contains(x@),
{
    let s = string_from_chars(x);
    string_find(set, s.as_str()).is_some()
}

/// The listing of `files` under the lowercased filter `fl` and the
/// expanded directories.
fn build_listing(files: &Vec<String>, fl: &[char], expanded: &Vec<String>) -> (entries: Vec<FileSystemEntry>)
    requires
        forall|k: int| 0 <= k < files@.len() ==> (#[trigger] files@[k])@.len() < usize::MAX,
    ensures
        correct_listing(entry_views(entries@), string_views(files@), fl@, string_set(expanded@)),
{
    let ghost fv = string_views(files@);
    let ghost ex = string_set(expanded@);
    let mut fc: Vec<Vec<char>> = Vec::new();
    let mut i: usize = 0;
    while i < files.len()
        invariant
            fv == string_views(files@),
            i <= files@.len(),
            char_views(fc@) == fv.take(i as int),
            forall|k: int| 0 <= k < fc@.len() ==> (#[trigger] fc@[k])@.len() < usize::MAX,
            forall|k: int| 0 <= k < files@.len() ==> (#[trigger] files@[k])@.len() < usize::MAX,
        decreases files@.len() - i,
    {
        let c = chars_of(files[i].as_str());
        assert(c@ == fv[i as int]);
        let ghost before = fc@;
        fc.push(c);
        assert(char_views(fc@) =~= char_views(before).push(c@));
        i += 1;
        assert(char_views(fc@) =~= fv.take(i as int));
    }
    assert(fv.take(files@.len() as int) =~= fv);
    let dirs = collect_dirs(&fc, fl);
    let ghost dv = char_views(dirs@);
    let mut items: Vec<FileSystemEntry> = Vec::new();
    let mut k: usize = 0;
    assert(entry_views(items@).to_set() =~= dir_views_upto(dv, 0, ex, fv));
    while k < dirs.len()
        invariant
            dv == char_views(dirs@),
            fv == char_views(fc@),
            ex == string_set(expanded@),
            dv.no_duplicates(),
            forall|q: int| 0 <= q < dirs@.len() ==> (#[trigger] dirs@[q])@.len() < usize::MAX,
            k <= dirs@.len(),
            entry_views(items@).no_duplicates(),
            forall|m: int| 0 <= m < items@.len() ==> (#[trigger] items@[m]).is_directory,
            entry_views(items@).to_set() == dir_views_upto(dv, k as int, ex, fv),
        decreases dirs@.len() - k,
    {
        let d = dirs[k].as_slice();
        assert(d@ == dv[k as int]);
        let depth_zero = d.len() == 0;
        let shown = depth_zero || set_has(expanded, parent_chars(d).as_slice());
        proof {
            crate::paths::lemma_slash_count_zero(d@);
        }
        let ghost before = entry_views(items@);
        if shown {
            let e = dir_entry(d, &fc, expanded);
            items.push(e);
            proof {
                let after = entry_views(items@);
                assert(after =~= before.push(e@));
                assert forall|a: int, b: int| 0 <= a < b < after.len() implies after[a] != after[b] by {
                    if b == after.len() - 1 {
                        assert(before.to_set().contains(before[a]));
                        let j = choose|j: int| 0 <= j < k && dir_shown(#[trigger] dv[j], ex) && before[a] == dir_entry_view(dv[j], ex, fv);
                        assert(dv[j] != dv[k as int]);
                    }
                }
                before.lemma_push_to_set_commute(e@);
                assert forall|v: EntryView| #[trigger] dir_views_upto(dv, k + 1, ex, fv).contains(v) == (dir_views_upto(dv, k as int, ex, fv).contains(v) || v == e@) by {
                    if dir_views_upto(dv, k + 1, ex, fv).contains(v) {
                        let j = choose|j: int| 0 <= j < k + 1 && dir_shown(#[trigger] dv[j], ex) && v == dir_entry_view(dv[j], ex, fv);
                        if j < k {
                            assert(dir_views_upto(dv, k as int, ex, fv).contains(v));
                        }
                    }
                    if dir_views_upto(dv, k as int, ex, fv).contains(v) {
                        let j = choose|j: int| 0 <= j < k && dir_shown(#[trigger] dv[j], ex) && v == dir_entry_view(dv[j], ex, fv);
                        assert(dir_views_upto(dv, k + 1, ex, fv).contains(v));
                    }
                    if v == e@ {
                        assert(dir_shown(dv[k as int], ex));
                        assert(dir_views_upto(dv, k + 1, ex, fv).contains(v));
                    }
                }
                assert(after.to_set() =~= dir_views_upto(dv, k + 1, ex, fv));
            }
        } else {
            proof {
                assert forall|v: EntryView| #[trigger] dir_views_upto(dv, k + 1, ex, fv).contains(v) == dir_views_upto(dv, k as int, ex, fv).contains(v) by {
                    if dir_views_upto(dv, k + 1, ex, fv).contains(v) {
                        let j = choose|j: int| 0 <= j < k + 1 && dir_shown(#[trigger] dv[j], ex) && v == dir_entry_view(dv[j], ex, fv);
                        assert(j != k);
                        assert(dir_views_upto(dv, k as int, ex, fv).contains(v));
                    }
                    if dir_views_upto(dv, k as int, ex, fv).contains(v) {
                        let j = choose|j: int| 0 <= j < k && dir_shown(#[trigger] dv[j], ex) && v == dir_entry_view(dv[j], ex, fv);
                        assert(dir_views_upto(dv, k + 1, ex, fv).contains(v));
                    }
                }
                assert(dir_views_upto(dv, k + 1, ex, fv) =~= dir_views_upto(dv, k as int, ex, fv));
            }
        }
        k += 1;
    }
    let ghost ds = entry_views(items@);
    proof {
        assert forall|v: EntryView| #[trigger] dir_views_upto(dv, dv.len() as int, ex, fv).contains(v) == shown_dir_views(fv, fl@, ex).contains(v) by {
            if dir_views_upto(dv, dv.len() as int, ex, fv).contains(v) {
                let j = choose|j: int| 0 <= j < dv.len() && dir_shown(#[trigger] dv[j], ex) && v == dir_entry_view(dv[j], ex, fv);
                assert(dv.to_set().contains(dv[j]));
                assert(listed_dirs(fv, fl@).contains(dv[j]));
            }
            if shown_dir_views(fv, fl@, ex).contains(v) {
                let d = choose|d: Seq<char>| #[trigger] listed_dirs(fv, fl@).contains(d) && dir_shown(d, ex) && v == dir_entry_view(d, ex, fv);
                assert(dv.to_set().contains(d));
                let j = choose|j: int| 0 <= j < dv.len() && dv[j] == d;
                assert(dir_views_upto(dv, dv.len() as int, ex, fv).contains(v));
            }
        }
        assert(ds.to_set() =~= shown_dir_views(fv, fl@, ex));
    }
    let mut i: usize = 0;
    assert(entry_views(items@) =~= ds + shown_file_views(fv.take(0), fl@, ex));
    while i < fc.len()
        invariant
            fv == char_views(fc@),
            ex == string_set(expanded@),
            forall|q: int| 0 <= q < fc@.len() ==> (#[trigger] fc@[q])@.len() < usize::MAX,
            i <= fc@.len(),
            forall|m: int| 0 <= m < ds.len() ==> (#[trigger] ds[m]).3,
            entry_views(items@) == ds + shown_file_views(fv.take(i as int), fl@, ex),
        decreases fc@.len() - i,
    {
        let f = fc[i].as_slice();
        assert(f@ == fv[i as int]);
        let shown = matches_filter(f, fl) && (fl.len() > 0 || set_has(expanded, parent_chars(f).as_slice()));
        let ghost before = entry_views(items@);
        proof {
            assert(fv.take(i + 1).drop_last() =~= fv.take(i as int));
            assert(fv.take(i + 1).last() == fv[i as int]);
        }
        if shown {
            let e = file_entry(f);
            items.push(e);
            assert(entry_views(items@) =~= before.push(e@));
        }
        i += 1;
    }
    assert(fv.take(fc@.len() as int) =~= fv);
    let ghost fs = shown_file_views(fv, fl@, ex);
    proof {
        lemma_shown_files_are_files(fv, fl@, ex);
        let all = entry_views(items@);
        assert forall|a: int, b: int| 0 <= a < b < all.len() implies !(!(#[trigger] all[a]).3 && (#[trigger] all[b]).3) by {
            if a < ds.len() {
                assert(all[a] == ds[a]);
            } else {
                assert(all[a] == fs[a - ds.len()]);
                assert(all[b] == fs[b - ds.len()]);
            }
        }
    }
    let entries = sort_by_path(items);
    proof {
        vstd::seq_lib::lemma_multiset_commutative(ds, fs);
        assert(ds.no_duplicates() && ds.to_set() == shown_dir_views(fv, fl@, ex) && entry_views(entries@).to_multiset()
            == ds.to_multiset().add(fs.to_multiset()));
    }
    entries
}

/// The shown files' entries are file entries.
proof fn lemma_shown_files_are_files(files: Seq<Seq<char>>, fl: Seq<char>, expanded: Set<Seq<char>>)
    ensures
        forall|m: int| 0 <= m < shown_file_views(files, fl, expanded).len() ==> !(#[trigger] shown_file_views(files, fl, expanded)[m]).3,
    decreases files.len(),
{
    if files.len() > 0 {
        lemma_shown_files_are_files(files.drop_last(), fl, expanded);
        let rest = shown_file_views(files.drop_last(), fl, expanded);
        let all = shown_file_views(files, fl, expanded);
        assert forall|m: int| 0 <= m < all.len() implies !(#[trigger] all[m]).3 by {
            if m < rest.len() {
                assert(all[m] == rest[m]);
            }
        }
    }
}

/// The project-relative path of a `res://` path (the path itself when it
/// has no `res://` prefix).
pub open spec fn relative_of(res_path: Seq<char>) -> Seq<char> {
    if "res://"@.is_prefix_of(res_path) {
        res_path.skip(6)
    } else {
        res_path
    }
}

/// Every entry is the entry its relative path gives: the directory entry
/// for a directory, the file entry for a file.
pub open spec fn canonical_entries(e: Seq<EntryView>, files: Seq<Seq<char>>, expanded: Set<Seq<char>>) -> bool {
    forall|i: int|
        0 <= i < e.len() ==> #[trigger] e[i] == (if e[i].3 {
            dir_entry_view(e[i].1, expanded, files)
        } else {
            file_entry_view(e[i].1)
        })
}

/// Two sequences without duplicates that hold the same elements have the
/// same multiset.
proof fn lemma_same_set_same_multiset<A>(a: Seq<A>, b: Seq<A>)
    requires
        a.no_duplicates(),
        b.no_duplicates(),
        a.to_set() == b.to_set(),
    ensures
        a.to_multiset() == b.to_multiset(),
{
    a.lemma_multiset_has_no_duplicates();
    b.lemma_multiset_has_no_duplicates();
    assert forall|x: A| a.to_multiset().count(x) == b.to_multiset().count(x) by {
        vstd::seq_lib::to_multiset_contains(a, x);
        vstd::seq_lib::to_multiset_contains(b, x);
        assert(a.to_set().contains(x) == a.contains(x));
        assert(b.to_set().contains(x) == b.contains(x));
    }
    assert(a.to_multiset() =~= b.to_multiset());
}

/// The elements of a correct listing are the entries their paths give.
proof fn lemma_listing_canonical(e: Seq<EntryView>, files: Seq<Seq<char>>, fl: Seq<char>, expanded: Set<Seq<char>>)
    requires
        correct_listing(e, files, fl, expanded),
    ensures
        canonical_entries(e, files, expanded),
{
    let ds = choose|ds: Seq<EntryView>|
        #![trigger ds.to_set()]
        ds.no_duplicates() && ds.to_set() == shown_dir_views(files, fl, expanded) && e.to_multiset()
            == ds.to_multiset().add(shown_file_views(files, fl, expanded).to_multiset());
    let fs = shown_file_views(files, fl, expanded);
    lemma_shown_files_canonical(files, fl, expanded);
    assert forall|i: int| 0 <= i < e.len() implies #[trigger] e[i] == (if e[i].3 {
        dir_entry_view(e[i].1, expanded, files)
    } else {
        file_entry_view(e[i].1)
    }) by {
        let x = e[i];
        vstd::seq_lib::to_multiset_contains(e, x);
        vstd::seq_lib::to_multiset_contains(ds, x);
        vstd::seq_lib::to_multiset_contains(fs, x);
        if ds.contains(x) {
            assert(ds.to_set().contains(x));
            let d = choose|d: Seq<char>| #[trigger] listed_dirs(files, fl).contains(d) && dir_shown(d, expanded) && x
                == dir_entry_view(d, expanded, files);
        } else {
            let k = choose|k: int| 0 <= k < fs.len() && fs[k] == x;
        }
    }
}

/// The shown files' entries are the file entries of their paths.
proof fn lemma_shown_files_canonical(files: Seq<Seq<char>>, fl: Seq<char>, expanded: Set<Seq<char>>)
    ensures
        forall|k: int| 0 <= k < shown_file_views(files, fl, expanded).len() ==> #[trigger] shown_file_views(files, fl, expanded)[k]
            == file_entry_view(shown_file_views(files, fl, expanded)[k].1),
    decreases files.len(),
{
    if files.len() > 0 {
        lemma_shown_files_canonical(files.drop_last(), fl, expanded);
        let rest = shown_file_views(files.drop_last(), fl, expanded);
        let all = shown_file_views(files, fl, expanded);
        assert forall|k: int| 0 <= k < all.len() implies #[trigger] all[k] == file_entry_view(all[k].1) by {
            if k < rest.len() {
                assert(all[k] == rest[k]);
            }
        }
    }
}

/// Two ordered listings of the same entries, each entry being the one its
/// path gives, are equal.
proof fn lemma_ordered_listing_unique(e1: Seq<EntryView>, e2: Seq<EntryView>, files: Seq<Seq<char>>, expanded: Set<Seq<char>>)
    requires
        e1.to_multiset() == e2.to_multiset(),
        sorted_by_path(e1),
        sorted_by_path(e2),
        dirs_first_on_ties(e1),
        dirs_first_on_ties(e2),
        canonical_entries(e1, files, expanded),
        canonical_entries(e2, files, expanded),
    ensures
        e1 == e2,
    decreases e1.len(),
{
    vstd::seq_lib::to_multiset_len(e1);
    vstd::seq_lib::to_multiset_len(e2);
    if e1.len() == 0 {
        assert(e1 =~= e2);
        return;
    }
    let (m1, m2) = (e1[0], e2[0]);
    vstd::seq_lib::to_multiset_contains(e1, m1);
    vstd::seq_lib::to_multiset_contains(e2, m2);
    vstd::seq_lib::to_multiset_contains(e1, m2);
    vstd::seq_lib::to_multiset_contains(e2, m1);
    assert(e1.contains(m1) && e2.contains(m2));
    let j2 = choose|j: int| 0 <= j < e2.len() && e2[j] == m1;
    let j1 = choose|j: int| 0 <= j < e1.len() && e1[j] == m2;
    if j2 > 0 {
        let (a, b) = (e2[0], e2[j2]);
        assert(!path_lt(b.1, a.1));
    }
    if j1 > 0 {
        let (a, b) = (e1[0], e1[j1]);
        assert(!path_lt(b.1, a.1));
    }
    crate::paths::lemma_path_lt_total(m1.1, m2.1);
    assert(m1.1 == m2.1);
    if m1.3 != m2.3 {
        if m1.3 {
            assert(j2 > 0);
            assert(e2[0].1 == e2[j2].1);
        } else {
            assert(j1 > 0);
            assert(e1[0].1 == e1[j1].1);
        }
    }
    assert(m1 == m2);
    let (r1, r2) = (e1.drop_first(), e2.drop_first());
    vstd::seq_lib::to_multiset_remove(e1, 0);
    vstd::seq_lib::to_multiset_remove(e2, 0);
    assert(e1.remove(0) =~= r1);
    assert(e2.remove(0) =~= r2);
    assert forall|a: int, b: int| 0 <= a < b < r1.len() implies !path_lt((#[trigger] r1[b]).1, (#[trigger] r1[a]).1) && (
    r1[a].1 == r1[b].1 ==> !(!r1[a].3 && r1[b].3)) by {
        assert(r1[a] == e1[a + 1] && r1[b] == e1[b + 1]);
    }
    assert forall|a: int, b: int| 0 <= a < b < r2.len() implies !path_lt((#[trigger] r2[b]).1, (#[trigger] r2[a]).1) && (
    r2[a].1 == r2[b].1 ==> !(!r2[a].3 && r2[b].3)) by {
        assert(r2[a] == e2[a + 1] && r2[b] == e2[b + 1]);
    }
    assert forall|a: int| 0 <= a < r1.len() implies #[trigger] r1[a] == (if r1[a].3 {
        dir_entry_view(r1[a].1, expanded, files)
    } else {
        file_entry_view(r1[a].1)
    }) by {
        assert(r1[a] == e1[a + 1]);
    }
    assert forall|a: int| 0 <= a < r2.len() implies #[trigger] r2[a] == (if r2[a].3 {
        dir_entry_view(r2[a].1, expanded, files)
    } else {
        file_entry_view(r2[a].1)
    }) by {
        assert(r2[a] == e2[a + 1]);
    }
    lemma_ordered_listing_unique(r1, r2, files, expanded);
    assert(e1 =~= seq![m1] + r1);
    assert(e2 =~= seq![m2] + r2);
}

/// The dock's listing is determined by the files, the filter and the
/// expanded directories: two listings that are both correct for them are
/// equal.
pub proof fn law_listing_is_determined(
    e1: Seq<EntryView>,
    e2: Seq<EntryView>,
    files: Seq<Seq<char>>,
    fl: Seq<char>,
    expanded: Set<Seq<char>>,
)
    requires
        correct_listing(e1, files, fl, expanded),
        correct_listing(e2, files, fl, expanded),
    ensures
        e1 == e2,
{
    let ds1 = choose|ds: Seq<EntryView>|
        #![trigger ds.to_set()]
        ds.no_duplicates() && ds.to_set() == shown_dir_views(files, fl, expanded) && e1.to_multiset()
            == ds.to_multiset().add(shown_file_views(files, fl, expanded).to_multiset());
    let ds2 = choose|ds: Seq<EntryView>|
        #![trigger ds.to_set()]
        ds.no_duplicates() && ds.to_set() == shown_dir_views(files, fl, expanded) && e2.to_multiset()
            == ds.to_multiset().add(shown_file_views(files, fl, expanded).to_multiset());
    lemma_same_set_same_multiset(ds1, ds2);
    lemma_listing_canonical(e1, files, fl, expanded);
    lemma_listing_canonical(e2, files, fl, expanded);
    lemma_ordered_listing_unique(e1, e2, files, expanded);
}

/// The entries of `s` whose icon is `icon`, in order.
pub open spec fn with_icon(s: Seq<FileSystemEntry>, icon: FileIcon) -> Seq<FileSystemEntry>
    decreases s.len(),
{
    if s.len() == 0 {
        Seq::empty()
    } else if s.last().icon == icon {
        with_icon(s.drop_last(), icon).push(s.last())
    } else {
        with_icon(s.drop_last(), icon)
    }
}

/// The files among `files` whose extension equals `ext`, ignoring ASCII
/// case, in order.
pub open spec fn files_with_ext(files: Seq<Seq<char>>, ext: Seq<char>) -> Seq<Seq<char>>
    decreases files.len(),
{
    if files.len() == 0 {
        Seq::empty()
    } else if ascii_lower_seq(ext_of(name_of(files.last()))) == ascii_lower_seq(ext) {
        files_with_ext(files.drop_last(), ext).push(files.last())
    } else {
        files_with_ext(files.drop_last(), ext)
    }
}

/// The files whose extension is `ext` (such as `"tscn"`), ignoring ASCII
/// case.
pub fn files_by_extension<'a>(files: &'a [String], ext: &str) -> (r: Vec<&'a String>)
    ensures
        r@.map_values(|f: &String| f@) == files_with_ext(string_views(files@), ext@),
{
    let want = lower_chars(chars_of(ext).as_slice());
    let ghost fv = string_views(files@);
    let mut r: Vec<&'a String> = Vec::new();
    let mut i: usize = 0;
    while i < files.len()
        invariant
            fv == string_views(files@),
            want@ == ascii_lower_seq(ext@),
            i <= files@.len(),
            r@.map_values(|f: &String| f@) == files_with_ext(fv.take(i as int), ext@),
        decreases files@.len() - i,
    {
        let f = chars_of(files[i].as_str());
        let e = lower_chars(ext_chars(name_chars(f.as_slice()).as_slice()).as_slice());
        let ghost before = r@;
        assert(fv.take(i + 1).drop_last() =~= fv.take(i as int));
        assert(fv.take(i + 1).last() == files@[i as int]@);
        if chars_eq(e.as_slice(), want.as_slice()) {
            r.push(&files[i]);
            assert(r@.map_values(|f: &String| f@) =~= before.map_values(|f: &String| f@).push(files@[i as int]@));
        }
        i += 1;
    }
    assert(fv.take(files@.len() as int) =~= fv);
    r
}

/// The project-relative path of a `res://` path, or `None` when it does
/// not start with `res://`.
pub fn res_relative(res_path: &str) -> (r: Option<String>)
    ensures
        "res://"@.is_prefix_of(res_path@) ==> (r matches Some(p) && p@ == res_path@.skip(6)),
        !"res://"@.is_prefix_of(res_path@) ==> r is None,
{
    proof {
        reveal_strlit("res://");
    }
    if !crate::text::starts_with(res_path, "res://") {
        return None;
    }
    let cs = chars_of(res_path);
    let mut out = String::new();
    let mut t: usize = 6;
    while t < cs.len()
        invariant
            6 <= t <= cs@.len(),
            cs@ == res_path@,
            out@ == cs@.subrange(6, t as int),
        decreases cs@.len() - t,
    {
        crate::text::push_char(&mut out, cs[t]);
        t += 1;
        assert(out@ =~= cs@.subrange(6, t as int));
    }
    Some(out)
}

/// The file-system dock: the scanned project files, the flattened tree
/// listing derived from them, the filter, favorites, selection and the
/// expanded directories.
#[derive(Debug)]
pub struct FileSystemDock {
    files: Vec<String>,
    entries: Vec<FileSystemEntry>,
    filter: String,
    favorites: Vec<String>,
    selected_index: Option<usize>,
    expanded_dirs: Vec<String>,
}

impl FileSystemDock {
    /// The scanned project files (relative paths).
    pub closed spec fn file_list(&self) -> Seq<Seq<char>> {
        string_views(self.files@)
    }

    /// The listing shown.
    pub closed spec fn listing(&self) -> Seq<EntryView> {
        entry_views(self.entries@)
    }

    /// The listed entries themselves.
    pub closed spec fn entry_list(&self) -> Seq<FileSystemEntry> {
        self.entries@
    }

    /// The filter text.
    pub closed spec fn filter_text(&self) -> Seq<char> {
        self.filter@
    }

    /// The favorite paths, in the order they were added.
    pub closed spec fn favorite_list(&self) -> Seq<Seq<char>> {
        string_views(self.favorites@)
    }

    /// The selected entry index.
    pub closed spec fn selection(&self) -> Option<usize> {
        self.selected_index
    }

    /// The expanded directories.
    pub closed spec fn expanded(&self) -> Set<Seq<char>> {
        string_set(self.expanded_dirs@)
    }

    /// The listing reflects the files, the filter and the expanded
    /// directories; favorites and expanded directories are each held once;
    /// and every path is shorter than the largest size.
    pub closed spec fn wf(&self) -> bool {
        &&& strings_unique(self.expanded_dirs@)
        &&& strings_unique(self.favorites@)
        &&& forall|k: int| 0 <= k < self.files@.len() ==> (#[trigger] self.files@[k])@.len() < usize::MAX
        &&& correct_listing(self.listing(), self.file_list(), ascii_lower_seq(self.filter_text()), self.expanded())
    }

    /// A dock with no files, no filter, no favorites, nothing selected and
    /// nothing expanded.
    pub fn new() -> (r: Self)
        ensures
            r.wf(),
            r.file_list() == Seq::<Seq<char>>::empty(),
            r.listing() == Seq::<EntryView>::empty(),
            r.filter_text() == Seq::<char>::empty(),
            r.favorite_list() == Seq::<Seq<char>>::empty(),
            r.selection() is None,
            r.expanded() == Set::<Seq<char>>::empty(),
    {
        let r = FileSystemDock {
            files: Vec::new(),
            entries: Vec::new(),
            filter: String::new(),
            favorites: Vec::new(),
            selected_index: None,
            expanded_dirs: Vec::new(),
        };
        proof {
            assert(r.file_list() =~= Seq::<Seq<char>>::empty());
            assert(r.listing() =~= Seq::<EntryView>::empty());
            assert(r.favorite_list() =~= Seq::<Seq<char>>::empty());
            assert(r.expanded() =~= Set::<Seq<char>>::empty());
            let fl = ascii_lower_seq(r.filter_text());
            assert(listed_dirs(r.file_list(), fl) =~= Set::<Seq<char>>::empty());
            assert(shown_dir_views(r.file_list(), fl, r.expanded()) =~= Set::<EntryView>::empty());
            let ds = Seq::<EntryView>::empty();
            assert(ds.to_set() =~= Set::<EntryView>::empty());
            let sf = shown_file_views(r.file_list(), fl, r.expanded());
            assert(sf =~= Seq::<EntryView>::empty());
            assert(r.listing() =~= ds + sf);
            vstd::seq_lib::lemma_multiset_commutative(ds, sf);
            assert(ds.no_duplicates() && ds.to_set() == shown_dir_views(r.file_list(), fl, r.expanded()));
        }
        r
    }

    /// Rebuilds the listing from the files, the filter and the expanded
    /// directories.
    fn rebuild_entries(&mut self)
        requires
            strings_unique(old(self).expanded_dirs@),
            strings_unique(old(self).favorites@),
            forall|k: int| 0 <= k < old(self).files@.len() ==> (#[trigger] old(self).files@[k])@.len() < usize::MAX,
        ensures
            final(self).wf(),
            final(self).files == old(self).files,
            final(self).filter == old(self).filter,
            final(self).favorites == old(self).favorites,
            final(self).selected_index == old(self).selected_index,
            final(self).expanded_dirs == old(self).expanded_dirs,
    {
        let fl = lower_chars(chars_of(self.filter.as_str()).as_slice());
        self.entries = build_listing(&self.files, fl.as_slice(), &self.expanded_dirs);
    }

    /// Replaces the scanned files (a new scan of the project) and rebuilds
    /// the listing with the top level expanded; returns the number of files.
    pub fn refresh(&mut self, files: Vec<String>) -> (count: usize)
        requires
            old(self).wf(),
            forall|k: int| 0 <= k < files@.len() ==> (#[trigger] files@[k])@.len() < usize::MAX,
        ensures
            final(self).wf(),
            count == files@.len(),
            final(self).file_list() == string_views(files@),
            final(self).expanded() == old(self).expanded().insert(Seq::empty()),
            final(self).filter_text() == old(self).filter_text(),
            final(self).favorite_list() == old(self).favorite_list(),
            final(self).selection() == old(self).selection(),
    {
        let count = files.len();
        self.files = files;
        proof {
            reveal_strlit("");
            assert(""@ =~= Seq::<char>::empty());
        }
        self.insert_expanded("");
        self.rebuild_entries();
        count
    }

    /// Adds `dir` to the expanded directories (without rebuilding); returns
    /// whether it was new.
    fn insert_expanded(&mut self, dir: &str) -> (added: bool)
        requires
            strings_unique(old(self).expanded_dirs@),
        ensures
            strings_unique(final(self).expanded_dirs@),
            string_set(final(self).expanded_dirs@) == string_set(old(self).expanded_dirs@).insert(dir@),
            added == !string_set(old(self).expanded_dirs@).contains(dir@),
            final(self).files == old(self).files,
            final(self).filter == old(self).filter,
            final(self).favorites == old(self).favorites,
            final(self).selected_index == old(self).selected_index,
            final(self).entries == old(self).entries,
    {
        match string_find(&self.expanded_dirs, dir) {
            Some(i) => {
                assert(string_set(self.expanded_dirs@).contains(dir@)) by {
                    assert(self.expanded_dirs@[i as int]@ == dir@);
                }
                assert(string_set(self.expanded_dirs@).insert(dir@) =~= string_set(self.expanded_dirs@));
                false
            },
            None => {
                let s = owned(dir);
                proof {
                    lemma_string_set_push(self.expanded_dirs@, s);
                }
                self.expanded_dirs.push(s);
                true
            },
        }
    }

    /// Removes `dir` from the expanded directories (without rebuilding);
    /// returns whether it was there.
    fn remove_expanded(&mut self, dir: &str) -> (removed: bool)
        requires
            strings_unique(old(self).expanded_dirs@),
        ensures
            strings_unique(final(self).expanded_dirs@),
            string_set(final(self).expanded_dirs@) == string_set(old(self).expanded_dirs@).remove(dir@),
            removed == string_set(old(self).expanded_dirs@).contains(dir@),
            final(self).files == old(self).files,
            final(self).filter == old(self).filter,
            final(self).favorites == old(self).favorites,
            final(self).selected_index == old(self).selected_index,
            final(self).entries == old(self).entries,
    {
        match string_find(&self.expanded_dirs, dir) {
            Some(i) => {
                proof {
                    lemma_string_set_remove(self.expanded_dirs@, i as int);
                }
                assert(string_set(self.expanded_dirs@).contains(dir@)) by {
                    assert(self.expanded_dirs@[i as int]@ == dir@);
                }
                self.expanded_dirs.remove(i);
                true
            },
            None => {
                assert(string_set(self.expanded_dirs@).remove(dir@) =~= string_set(self.expanded_dirs@));
                false
            },
        }
    }

    /// The scanned files (relative paths).
    pub fn files(&self) -> (r: &[String])
        ensures
            string_views(r@) == self.file_list(),
    {
        self.files.as_slice()
    }

    /// The listed entries.
    pub fn entries(&self) -> (r: &[FileSystemEntry])
        ensures
            r@ == self.entry_list(),
            entry_views(r@) == self.listing(),
    {
        self.entries.as_slice()
    }

    /// The filter text.
    pub fn filter(&self) -> (r: &str)
        ensures
            r@ == self.filter_text(),
    {
        self.filter.as_str()
    }

    /// Sets the filter text and rebuilds the listing.
    pub fn set_filter(&mut self, filter: &str)
        requires
            old(self).wf(),
        ensures
            final(self).wf(),
            final(self).filter_text() == filter@,
            final(self).file_list() == old(self).file_list(),
            final(self).expanded() == old(self).expanded(),
            final(self).favorite_list() == old(self).favorite_list(),
            final(self).selection() == old(self).selection(),
    {
        self.filter = owned(filter);
        self.rebuild_entries();
    }

    /// Clears the filter and rebuilds the listing.
    pub fn clear_filter(&mut self)
        requires
            old(self).wf(),
        ensures
            final(self).wf(),
            final(self).filter_text() == Seq::<char>::empty(),
            final(self).file_list() == old(self).file_list(),
            final(self).expanded() == old(self).expanded(),
            final(self).favorite_list() == old(self).favorite_list(),
            final(self).selection() == old(self).selection(),
    {
        self.filter = String::new();
        self.rebuild_entries();
    }

    /// The favorite paths.
    pub fn favorites(&self) -> (r: &[String])
        ensures
            string_views(r@) == self.favorite_list(),
    {
        self.favorites.as_slice()
    }

    /// Adds `res_path` to the favorites; returns `false` (changing nothing)
    /// when it already is one.
    pub fn add_favorite(&mut self, res_path: &str) -> (added: bool)
        requires
            old(self).wf(),
        ensures
            final(self).wf(),
            added == !old(self).favorite_list().contains(res_path@),
            added ==> final(self).favorite_list() == old(self).favorite_list().push(res_path@),
            !added ==> final(self).favorite_list() == old(self).favorite_list(),
            final(self).listing() == old(self).listing(),
            final(self).entry_list() == old(self).entry_list(),
            final(self).selection() == old(self).selection(),
    {
        match string_find(&self.favorites, res_path) {
            Some(i) => {
                assert(self.favorite_list()[i as int] == res_path@);
                false
            },
            None => {
                proof {
                    if self.favorite_list().contains(res_path@) {
                        let k = choose|k: int| 0 <= k < self.favorite_list().len() && self.favorite_list()[k] == res_path@;
                        assert(self.favorites@[k]@ == res_path@);
                        assert(string_set(self.favorites@).contains(res_path@));
                    }
                }
                let s = owned(res_path);
                proof {
                    lemma_string_set_push(self.favorites@, s);
                }
                let ghost before = self.favorite_list();
                self.favorites.push(s);
                assert(self.favorite_list() =~= before.push(res_path@));
                true
            },
        }
    }

    /// Removes `res_path` from the favorites; returns whether it was one.
    pub fn remove_favorite(&mut self, res_path: &str) -> (removed: bool)
        requires
            old(self).wf(),
        ensures
            final(self).wf(),
            removed == old(self).favorite_list().contains(res_path@),
            !final(self).favorite_list().contains(res_path@),
            forall|p: Seq<char>| p != res_path@ ==> (final(self).favorite_list().contains(p) == old(self).favorite_list().contains(p)),
            final(self).listing() == old(self).listing(),
            final(self).entry_list() == old(self).entry_list(),
            final(self).selection() == old(self).selection(),
    {
        match string_find(&self.favorites, res_path) {
            Some(i) => {
                let ghost before = self.favorite_list();
                assert(before[i as int] == res_path@);
                proof {
                    lemma_string_set_remove(self.favorites@, i as int);
                }
                self.favorites.remove(i);
                proof {
                    let after = self.favorite_list();
                    assert(after =~= before.remove(i as int));
                    assert forall|p: Seq<char>| after.contains(p) == (before.contains(p) && p != res_path@) by {
                        if after.contains(p) {
                            let k = choose|k: int| 0 <= k < after.len() && after[k] == p;
                            assert(string_set(self.favorites@).contains(p)) by {
                                assert(self.favorites@[k]@ == p);
                            }
                            let kk = if k < i { k } else { k + 1 };
                            assert(before[kk] == p);
                        }
                        if before.contains(p) && p != res_path@ {
                            let k = choose|k: int| 0 <= k < before.len() && before[k] == p;
                            assert(k != i);
                            let kk = if k < i { k } else { k - 1 };
                            assert(after[kk] == p);
                        }
                    }
                }
                true
            },
            None => {
                proof {
                    if self.favorite_list().contains(res_path@) {
                        let k = choose|k: int| 0 <= k < self.favorite_list().len() && self.favorite_list()[k] == res_path@;
                        assert(self.favorites@[k]@ == res_path@);
                        assert(string_set(self.favorites@).contains(res_path@));
                    }
                }
                false
            },
        }
    }

    /// Whether `res_path` is a favorite.
    pub fn is_favorite(&self, res_path: &str) -> (r: bool)
        ensures
            r == self.favorite_list().contains(res_path@),
    {
        match string_find(&self.favorites, res_path) {
            Some(i) => {
                assert(self.favorite_list()[i as int] == res_path@);
                true
            },
            None => {
                proof {
                    if self.favorite_list().contains(res_path@) {
                        let k = choose|k: int| 0 <= k < self.favorite_list().len() && self.favorite_list()[k] == res_path@;
                        assert(self.favorites@[k]@ == res_path@);
                        assert(string_set(self.favorites@).contains(res_path@));
                    }
                }
                false
            },
        }
    }

    /// The selected entry index.
    pub fn selected_index(&self) -> (r: Option<usize>)
        ensures
            r == self.selection(),
    {
        self.selected_index
    }

    /// The selected entry, if the selection names one.
    pub fn selected_entry(&self) -> (r: Option<&FileSystemEntry>)
        ensures
            match self.selection() {
                Some(i) => if i < self.entry_list().len() { r == Some(&self.entry_list()[i as int]) } else { r is None },
                None => r is None,
            },
    {
        match self.selected_index {
            Some(i) => if i < self.entries.len() {
                Some(&self.entries[i])
            } else {
                None
            },
            None => None,
        }
    }

    /// Selects entry `index`; returns `false` (changing nothing) when there
    /// is no such entry.
    pub fn select(&mut self, index: usize) -> (r: bool)
        requires
            old(self).wf(),
        ensures
            final(self).wf(),
            r == (index < old(self).entry_list().len()),
            r ==> final(self).selection() == Some(index),
            !r ==> final(self).selection() == old(self).selection(),
            final(self).entry_list() == old(self).entry_list(),
            final(self).listing() == old(self).listing(),
    {
        if index < self.entries.len() {
            self.selected_index = Some(index);
            true
        } else {
            false
        }
    }

    /// Clears the selection.
    pub fn deselect(&mut self)
        requires
            old(self).wf(),
        ensures
            final(self).wf(),
            final(self).selection() is None,
            final(self).entry_list() == old(self).entry_list(),
            final(self).listing() == old(self).listing(),
    {
        self.selected_index = None;
    }

    /// Expands or collapses the directory entry at `index` and rebuilds the
    /// listing; nothing happens for a file entry or a missing index.
    pub fn toggle_expand(&mut self, index: usize)
        requires
            old(self).wf(),
        ensures
            final(self).wf(),
            final(self).file_list() == old(self).file_list(),
            final(self).filter_text() == old(self).filter_text(),
            final(self).favorite_list() == old(self).favorite_list(),
            final(self).selection() == old(self).selection(),
            (index < old(self).listing().len() && old(self).listing()[index as int].3) ==> ({
                let d = old(self).listing()[index as int].1;
                final(self).expanded() == if old(self).expanded().contains(d) {
                    old(self).expanded().remove(d)
                } else {
                    old(self).expanded().insert(d)
                }
            }),
            !(index < old(self).listing().len() && old(self).listing()[index as int].3) ==> final(self).listing()
                == old(self).listing() && final(self).expanded() == old(self).expanded(),
    {
        if index < self.entries.len() && self.entries[index].is_directory {
            let path = self.entries[index].relative_path.clone();
            assert(path@ == self.listing()[index as int].1);
            if self.remove_expanded(path.as_str()) {
            } else {
                self.insert_expanded(path.as_str());
            }
            self.rebuild_entries();
        }
    }

    /// Expands directory `relative_path`; the listing is rebuilt when it was
    /// collapsed.
    pub fn expand_dir(&mut self, relative_path: &str)
        requires
            old(self).wf(),
        ensures
            final(self).wf(),
            final(self).expanded() == old(self).expanded().insert(relative_path@),
            final(self).file_list() == old(self).file_list(),
            final(self).filter_text() == old(self).filter_text(),
            final(self).favorite_list() == old(self).favorite_list(),
            final(self).selection() == old(self).selection(),
    {
        if self.insert_expanded(relative_path) {
            self.rebuild_entries();
        } else {
            assert(self.expanded() =~= old(self).expanded());
        }
    }

    /// Collapses directory `relative_path`; the listing is rebuilt when it
    /// was expanded.
    pub fn collapse_dir(&mut self, relative_path: &str)
        requires
            old(self).wf(),
        ensures
            final(self).wf(),
            final(self).expanded() == old(self).expanded().remove(relative_path@),
            final(self).file_list() == old(self).file_list(),
            final(self).filter_text() == old(self).filter_text(),
            final(self).favorite_list() == old(self).favorite_list(),
            final(self).selection() == old(self).selection(),
    {
        if self.remove_expanded(relative_path) {
            self.rebuild_entries();
        } else {
            assert(self.expanded() =~= old(self).expanded());
        }
    }

    /// Adds every directory that contains `rel` to the expanded
    /// directories (without rebuilding).
    fn expand_containing(&mut self, rel: &[char])
        requires
            strings_unique(old(self).expanded_dirs@),
        ensures
            strings_unique(final(self).expanded_dirs@),
            final(self).expanded() == old(self).expanded().union(containing_dirs(rel@)),
            final(self).files == old(self).files,
            final(self).filter == old(self).filter,
            final(self).favorites == old(self).favorites,
            final(self).selected_index == old(self).selected_index,
            final(self).entries == old(self).entries,
    {
        let mut k: usize = 0;
        assert(containing_dirs_upto(rel@, 0) =~= Set::<Seq<char>>::empty());
        assert(self.expanded() =~= old(self).expanded().union(containing_dirs_upto(rel@, 0)));
        while k < rel.len()
            invariant
                k <= rel@.len(),
                strings_unique(self.expanded_dirs@),
                self.expanded() == old(self).expanded().union(containing_dirs_upto(rel@, k as int)),
                self.files == old(self).files,
                self.filter == old(self).filter,
                self.favorites == old(self).favorites,
                self.selected_index == old(self).selected_index,
                self.entries == old(self).entries,
            decreases rel@.len() - k,
        {
            let ghost before = self.expanded();
            if rel[k] == '/' {
                let mut prefix: Vec<char> = Vec::new();
                let mut q: usize = 0;
                while q < k
                    invariant
                        q <= k,
                        k < rel@.len(),
                        prefix@ == rel@.subrange(0, q as int),
                    decreases k - q,
                {
                    prefix.push(rel[q]);
                    q += 1;
                    assert(prefix@ =~= rel@.subrange(0, q as int));
                }
                let ps = string_from_chars(prefix.as_slice());
                self.insert_expanded(ps.as_str());
            }
            proof {
                assert forall|d: Seq<char>| #[trigger] containing_dirs_upto(rel@, k + 1).contains(d) == (containing_dirs_upto(
                    rel@,
                    k as int,
                ).contains(d) || (rel@[k as int] == '/' && d == rel@.subrange(0, k as int))) by {
                    if containing_dirs_upto(rel@, k + 1).contains(d) {
                        let j = choose|j: int| 0 <= j < k + 1 && rel@[j] == '/' && d == #[trigger] rel@.subrange(0, j);
                        if j < k {
                            assert(containing_dirs_upto(rel@, k as int).contains(d));
                        }
                    }
                    if containing_dirs_upto(rel@, k as int).contains(d) {
                        let j = choose|j: int| 0 <= j < k && rel@[j] == '/' && d == #[trigger] rel@.subrange(0, j);
                        assert(containing_dirs_upto(rel@, k + 1).contains(d));
                    }
                    if rel@[k as int] == '/' && d == rel@.subrange(0, k as int) {
                        assert(containing_dirs_upto(rel@, k + 1).contains(d));
                    }
                }
                assert(self.expanded() =~= old(self).expanded().union(containing_dirs_upto(rel@, k + 1)));
            }
            k += 1;
        }
        assert(containing_dirs_upto(rel@, rel@.len() as int) =~= containing_dirs(rel@));
    }

    /// Shows the file at `res_path`: expands every directory that contains
    /// it, rebuilds the listing and selects its entry when it is listed.
    pub fn navigate_to(&mut self, res_path: &str)
        requires
            old(self).wf(),
        ensures
            final(self).wf(),
            final(self).expanded() == old(self).expanded().union(containing_dirs(relative_of(res_path@))),
            final(self).file_list() == old(self).file_list(),
            final(self).filter_text() == old(self).filter_text(),
            final(self).favorite_list() == old(self).favorite_list(),
            (exists|k: int| 0 <= k < final(self).listing().len() && (#[trigger] final(self).listing()[k]).2 == res_path@) ==> (
            final(self).selection() matches Some(i) && i < final(self).listing().len() && final(self).listing()[i as int].2
                == res_path@),
            !(exists|k: int| 0 <= k < final(self).listing().len() && (#[trigger] final(self).listing()[k]).2 == res_path@)
                ==> final(self).selection() == old(self).selection(),
    {
        let full = chars_of(res_path);
        let is_res = crate::text::starts_with(res_path, "res://");
        proof {
            reveal_strlit("res://");
        }
        let mut rel: Vec<char> = Vec::new();
        let start: usize = if is_res { 6 } else { 0 };
        let mut t = start;
        while t < full.len()
            invariant
                start <= t <= full@.len(),
                start <= full@.len(),
                rel@ == full@.subrange(start as int, t as int),
            decreases full@.len() - t,
        {
            rel.push(full[t]);
            t += 1;
            assert(rel@ =~= full@.subrange(start as int, t as int));
        }
        assert(rel@ =~= relative_of(res_path@));
        self.expand_containing(rel.as_slice());
        self.rebuild_entries();
        match self.find_entry(res_path) {
            Some(idx) => {
                assert(self.listing()[idx as int].2 == res_path@);
                self.selected_index = Some(idx);
            },
            None => {
                assert(!(exists|k: int| 0 <= k < self.listing().len() && (#[trigger] self.listing()[k]).2 == res_path@));
            },
        }
    }

    /// The index of the first entry with `res://` path `res_path`.
    pub fn find_entry(&self, res_path: &str) -> (r: Option<usize>)
        ensures
            match r {
                Some(k) => k < self.listing().len() && self.listing()[k as int].2 == res_path@ && forall|j: int|
                    0 <= j < k ==> (#[trigger] self.listing()[j]).2 != res_path@,
                None => forall|j: int| 0 <= j < self.listing().len() ==> (#[trigger] self.listing()[j]).2 != res_path@,
            },
    {
        let mut i: usize = 0;
        while i < self.entries.len()
            invariant
                i <= self.listing().len(),
                forall|j: int| 0 <= j < i ==> (#[trigger] self.listing()[j]).2 != res_path@,
            decreases self.listing().len() - i,
        {
            if crate::text::str_eq(self.entries[i].res_path.as_str(), res_path) {
                assert(self.listing()[i as int].2 == res_path@);
                return Some(i);
            }
            i += 1;
        }
        None
    }

    /// The entries with icon `icon`, in listing order.
    pub fn entries_by_type(&self, icon: FileIcon) -> (r: Vec<&FileSystemEntry>)
        ensures
            r@.map_values(|e: &FileSystemEntry| *e) == with_icon(self.entry_list(), icon),
    {
        let mut r: Vec<&FileSystemEntry> = Vec::new();
        let mut i: usize = 0;
        while i < self.entries.len()
            invariant
                i <= self.entry_list().len(),
                r@.map_values(|e: &FileSystemEntry| *e) == with_icon(self.entry_list().take(i as int), icon),
            decreases self.entry_list().len() - i,
        {
            let ghost before = r@;
            assert(self.entry_list().take(i + 1).drop_last() =~= self.entry_list().take(i as int));
            if self.entries[i].icon == icon {
                r.push(&self.entries[i]);
                assert(r@.map_values(|e: &FileSystemEntry| *e) =~= before.map_values(|e: &FileSystemEntry| *e).push(
                    self.entry_list()[i as int],
                ));
            }
            i += 1;
        }
        assert(self.entry_list().take(self.entry_list().len() as int) =~= self.entry_list());
        r
    }
}

/// The stable id of a resource.
#[derive(Debug, Clone, Copy, PartialEq, Eq, Hash, Structural)]
pub struct ResourceUid {
    id: i64,
}

impl ResourceUid {
    /// The id's number.
    pub closed spec fn value(&self) -> i64 {
        self.id
    }

    /// The id with number `id`.
    pub fn new(id: i64) -> (r: Self)
        ensures
            r.value() == id,
    {
        ResourceUid { id }
    }

    /// The id's number.
    pub fn id(&self) -> (r: i64)
        ensures
            r == self.value(),
    {
        self.id
    }

    /// Whether this is an id at all: every number but -1, which stands for
    /// no id.
    pub fn is_valid(&self) -> (r: bool)
        ensures
            r == (self.value() != -1),
    {
        self.id != -1
    }
}

/// A table with distinct keys has as many keys as entries.
proof fn lemma_table_dom_len<V>(s: Seq<(String, V)>)
    requires
        keys_unique(s),
    ensures
        table_view(s).dom().finite(),
        table_view(s).dom().len() == s.len(),
    decreases s.len(),
{
    if s.len() == 0 {
        assert(table_view(s).dom() =~= Set::<Seq<char>>::empty());
    } else {
        let init = s.drop_last();
        assert(keys_unique(init)) by {
            assert forall|i: int, j: int| 0 <= i < init.len() && 0 <= j < init.len() && i != j implies init[i].0@ != init[j].0@ by {
                assert(init[i] == s[i] && init[j] == s[j]);
            }
        }
        lemma_table_dom_len(init);
        assert(!has_key(init, s.last().0@)) by {
            if has_key(init, s.last().0@) {
                let i = choose|i: int| 0 <= i < init.len() && #[trigger] init[i].0@ == s.last().0@;
                assert(s[i] == init[i]);
            }
        }
        lemma_table_push(init, s.last().0, s.last().1);
        assert(init.push(s.last()) =~= s);
    }
}

/// The editor's view of the project's files: the project root, the files a
/// scan of it found (relative paths), and the stable ids given to
/// `res://` paths, numbered from 1 in the order they were given.
#[derive(Debug)]
pub struct EditorFileSystem {
    project_root: String,
    files: Vec<String>,
    uid_paths: Vec<(String, ResourceUid)>,
    next_uid: i64,
}

impl EditorFileSystem {
    /// The project root.
    pub closed spec fn root(&self) -> Seq<char> {
        self.project_root@
    }

    /// The files of the last scan, relative to the root.
    pub closed spec fn file_list(&self) -> Seq<Seq<char>> {
        string_views(self.files@)
    }

    /// The id given to each `res://` path.
    pub closed spec fn uids(&self) -> Map<Seq<char>, ResourceUid> {
        table_view(self.uid_paths@)
    }

    /// Each path is held once, the ids are numbered 1, 2, ... in the order
    /// they were given, and the next id follows the last.
    pub closed spec fn wf(&self) -> bool {
        &&& keys_unique(self.uid_paths@)
        &&& forall|k: int| 0 <= k < self.uid_paths@.len() ==> (#[trigger] self.uid_paths@[k]).1.value() == k + 1
        &&& self.next_uid == self.uid_paths@.len() + 1
    }

    /// A file system rooted at `project_root`, not scanned, with no ids.
    pub fn new(project_root: &str) -> (r: Self)
        ensures
            r.wf(),
            r.root() == project_root@,
            r.file_list() == Seq::<Seq<char>>::empty(),
            r.uids() == Map::<Seq<char>, ResourceUid>::empty(),
    {
        let r = EditorFileSystem { project_root: owned(project_root), files: Vec::new(), uid_paths: Vec::new(), next_uid: 1 };
        assert(r.file_list() =~= Seq::<Seq<char>>::empty());
        assert(r.uids() =~= Map::<Seq<char>, ResourceUid>::empty());
        r
    }

    /// The project root.
    pub fn project_root(&self) -> (r: &str)
        ensures
            r@ == self.root(),
    {
        self.project_root.as_str()
    }

    /// Takes the files a scan of the project found, relative to the root;
    /// returns how many there are.
    pub fn record_scan(&mut self, files: Vec<String>) -> (count: usize)
        requires
            old(self).wf(),
        ensures
            final(self).wf(),
            count == files@.len(),
            final(self).file_list() == string_views(files@),
            final(self).root() == old(self).root(),
            final(self).uids() == old(self).uids(),
    {
        let count = files.len();
        self.files = files;
        count
    }

    /// The files of the last scan, relative to the root.
    pub fn files(&self) -> (r: &[String])
        ensures
            string_views(r@) == self.file_list(),
    {
        self.files.as_slice()
    }

    /// The files of the last scan whose extension is `ext`, ignoring ASCII
    /// case.
    pub fn files_by_extension(&self, ext: &str) -> (r: Vec<&String>)
        ensures
            r@.map_values(|f: &String| f@) == files_with_ext(self.file_list(), ext@),
    {
        files_by_extension(self.files.as_slice(), ext)
    }

    /// The id of `res_path`: the one it was given before, or else the next
    /// number, which no other path has.
    pub fn assign_uid(&mut self, res_path: &str) -> (r: ResourceUid)
        requires
            old(self).wf(),
            old(self).uids().dom().len() + 1 < i64::MAX,
        ensures
            final(self).wf(),
            final(self).root() == old(self).root(),
            final(self).file_list() == old(self).file_list(),
            old(self).uids().contains_key(res_path@) ==> r == old(self).uids()[res_path@]
                && final(self).uids() == old(self).uids(),
            !old(self).uids().contains_key(res_path@) ==> {
                &&& r.value() == old(self).uids().dom().len() + 1
                &&& final(self).uids() == old(self).uids().insert(res_path@, r)
                &&& forall|p: Seq<char>| #[trigger] old(self).uids().contains_key(p) ==> old(self).uids()[p] != r
            },
    {
        proof {
            lemma_table_dom_len(self.uid_paths@);
        }
        match table_find(&self.uid_paths, res_path) {
            Some(i) => {
                proof {
                    lemma_table_lookup(self.uid_paths@, i as int);
                }
                self.uid_paths[i].1
            },
            None => {
                let uid = ResourceUid::new(self.next_uid);
                let key = owned(res_path);
                proof {
                    lemma_table_push(self.uid_paths@, key, uid);
                    assert forall|p: Seq<char>| #[trigger] self.uids().contains_key(p) implies self.uids()[p] != uid by {
                        let i = choose|i: int| 0 <= i < self.uid_paths@.len() && #[trigger] self.uid_paths@[i].0@ == p;
                        lemma_table_lookup(self.uid_paths@, i);
                    }
                }
                let ghost before = self.uid_paths@;
                self.uid_paths.push((key, uid));
                self.next_uid = self.next_uid + 1;
                proof {
                    assert forall|k: int| 0 <= k < self.uid_paths@.len() implies (#[trigger] self.uid_paths@[k]).1.value() == k + 1 by {
                        if k < before.len() {
                            assert(self.uid_paths@[k] == before[k]);
                        }
                    }
                }
                uid
            },
        }
    }

    /// The id given to `res_path`, if any.
    pub fn get_uid(&self, res_path: &str) -> (r: Option<ResourceUid>)
        requires
            self.wf(),
        ensures
            r == if self.uids().contains_key(res_path@) { Some(self.uids()[res_path@]) } else { None::<ResourceUid> },
    {
        match table_find(&self.uid_paths, res_path) {
            Some(i) => {
                proof {
                    lemma_table_lookup(self.uid_paths@, i as int);
                }
                Some(self.uid_paths[i].1)
            },
            None => None,
        }
    }

    /// The `res://` path that was given `uid`, if any.
    pub fn get_path_for_uid(&self, uid: ResourceUid) -> (r: Option<&str>)
        requires
            self.wf(),
        ensures
            match r {
                Some(p) => self.uids().contains_key(p@) && self.uids()[p@] == uid,
                None => forall|p: Seq<char>| #[trigger] self.uids().contains_key(p) ==> self.uids()[p] != uid,
            },
    {
        let mut i: usize = 0;
        while i < self.uid_paths.len()
            invariant
                self.wf(),
                i <= self.uid_paths@.len(),
                forall|j: int| 0 <= j < i ==> (#[trigger] self.uid_paths@[j]).1 != uid,
            decreases self.uid_paths@.len() - i,
        {
            if self.uid_paths[i].1 == uid {
                proof {
                    lemma_table_lookup(self.uid_paths@, i as int);
                }
                return Some(self.uid_paths[i].0.as_str());
            }
            i += 1;
        }
        proof {
            assert forall|p: Seq<char>| #[trigger] self.uids().contains_key(p) implies self.uids()[p] != uid by {
                let j = choose|j: int| 0 <= j < self.uid_paths@.len() && #[trigger] self.uid_paths@[j].0@ == p;
                lemma_table_lookup(self.uid_paths@, j);
            }
        }
        None
    }

    /// The number of paths that have been given an id.
    pub fn uid_count(&self) -> (r: usize)
        requires
            self.wf(),
        ensures
            r == self.uids().dom().len(),
    {
        proof {
            lemma_table_dom_len(self.uid_paths@);
        }
        self.uid_paths.len()
    }
}

/// No two paths share an id, so looking a path's id back up gives the path.
pub proof fn law_uids_name_one_path(fs: &EditorFileSystem, p: Seq<char>, q: Seq<char>)
    requires
        fs.wf(),
        fs.uids().contains_key(p),
        fs.uids().contains_key(q),
        fs.uids()[p] == fs.uids()[q],
    ensures
        p == q,
{
    let s = fs.uid_paths@;
    let i = choose|i: int| 0 <= i < s.len() && #[trigger] s[i].0@ == p;
    let j = choose|j: int| 0 <= j < s.len() && #[trigger] s[j].0@ == q;
    lemma_table_lookup(s, i);
    lemma_table_lookup(s, j);
    assert(s[i].1.value() == i + 1 && s[j].1.value() == j + 1);
}

} // verus!
