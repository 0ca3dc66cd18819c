//! Resource and scene import: the import pipeline, which hashes a file's
//! content to skip unchanged files, hands the file to the first registered
//! importer that takes its extension and records the outcome per file; the
//! result of an import; the `.tres` and `.tscn` importers' extension checks;
//! animation loop modes and the built-in scene importers' extensions.

use vstd::prelude::*;
use crate::paths::{ext_chars, ext_of, name_chars, name_of};
use crate::table::{has_key, keys_unique, lemma_table_lookup, lemma_table_push, lemma_table_remove, table_find, table_view};
use crate::text::{ascii_lower_seq, ascii_lowercase, chars_eq, chars_of, in_list, literal_views, owned, push_str, str_eq, string_from_chars};

verus! {

broadcast use vstd::string::group_string_axioms;

/// The result of a successful import.
#[derive(Debug, Clone)]
pub struct ImportedResource {
    /// The source path that was imported.
    pub source_path: String,
    /// The resource type name (such as `"PackedScene"`).
    pub resource_type: String,
}

/// The import state of a single file.
#[derive(Debug, Clone, PartialEq, Eq)]
pub enum ImportState {
    /// Not imported yet.
    Pending,
    /// Imported, with this content hash.
    Imported { hash: u64 },
    /// The import failed for this reason.
    Failed { reason: String },
}

/// Whether `ext` equals `target` ignoring ASCII case.
pub open spec fn same_ignoring_ascii_case(ext: Seq<char>, target: Seq<char>) -> bool {
    ascii_lower_seq(ext) == ascii_lower_seq(target)
}

/// Whether `ext`, lowercased, is `lower`.
fn lower_equals(ext: &str, lower: &str) -> (r: bool)
    requires
        ascii_lower_seq(lower@) == lower@,
    ensures
        r == same_ignoring_ascii_case(ext@, lower@),
{
    let e = ascii_lowercase(ext);
    let l = chars_of(lower);
    chars_eq(e.as_slice(), l.as_slice())
}

/// The importer of `.tres` text resources.
#[derive(Debug)]
pub struct TresImporter;

impl TresImporter {
    /// Whether this importer handles extension `extension` (ASCII case
    /// ignored).
    pub fn can_import(&self, extension: &str) -> (r: bool)
        ensures
            r == same_ignoring_ascii_case(extension@, "tres"@),
    {
        proof {
            reveal_strlit("tres");
            assert(ascii_lower_seq("tres"@) =~= "tres"@);
        }
        lower_equals(extension, "tres")
    }

    /// The importer's name.
    pub fn name(&self) -> (r: &'static str)
        ensures
            r@ == "TresImporter"@,
    {
        "TresImporter"
    }
}

/// The importer of `.tscn` text scenes.
#[derive(Debug)]
pub struct TscnImporter;

impl TscnImporter {
    /// Whether this importer handles extension `extension` (ASCII case
    /// ignored).
    pub fn can_import(&self, extension: &str) -> (r: bool)
        ensures
            r == same_ignoring_ascii_case(extension@, "tscn"@),
    {
        proof {
            reveal_strlit("tscn");
            assert(ascii_lower_seq("tscn"@) =~= "tscn"@);
        }
        lower_equals(extension, "tscn")
    }

    /// The importer's name.
    pub fn name(&self) -> (r: &'static str)
        ensures
            r@ == "TscnImporter"@,
    {
        "TscnImporter"
    }
}

/// The `.tres` and `.tscn` importers never claim the same extension.
pub proof fn law_text_importers_disjoint(ext: Seq<char>)
    ensures
        !(same_ignoring_ascii_case(ext, "tres"@) && same_ignoring_ascii_case(ext, "tscn"@)),
{
    reveal_strlit("tres");
    reveal_strlit("tscn");
    if same_ignoring_ascii_case(ext, "tres"@) && same_ignoring_ascii_case(ext, "tscn"@) {
        assert(ascii_lower_seq("tres"@)[1] == ascii_lower_seq("tscn"@)[1]);
    }
}

/// The loop mode of an imported animation.
#[derive(Debug, Clone, Copy, PartialEq, Eq, Structural)]
pub enum AnimationLoopMode {
    /// Plays once.
    NoLoop,
    /// Loops from the start.
    Linear,
    /// Loops back and forth.
    PingPong,
}

impl Default for AnimationLoopMode {
    fn default() -> (r: Self)
        ensures
            r == AnimationLoopMode::NoLoop,
    {
        AnimationLoopMode::NoLoop
    }
}

/// The built-in glTF scene importer.
#[derive(Debug)]
pub struct GltfSceneImporter;

impl GltfSceneImporter {
    /// The extensions it handles (lowercase, without dot).
    pub fn get_extensions(&self) -> (r: Vec<&'static str>)
        ensures
            literal_views(r@) == seq!["gltf"@, "glb"@],
    {
        let r = vec!["gltf", "glb"];
        assert(literal_views(r@) =~= seq!["gltf"@, "glb"@]);
        r
    }
}

/// The built-in OBJ (Wavefront) scene importer.
#[derive(Debug)]
pub struct ObjSceneImporter;

impl ObjSceneImporter {
    /// The extensions it handles (lowercase, without dot).
    pub fn get_extensions(&self) -> (r: Vec<&'static str>)
        ensures
            literal_views(r@) == seq!["obj"@],
    {
        let r = vec!["obj"];
        assert(literal_views(r@) =~= seq!["obj"@]);
        r
    }
}

/// The built-in FBX scene importer.
#[derive(Debug)]
pub struct FbxSceneImporter;

impl FbxSceneImporter {
    /// The extensions it handles (lowercase, without dot).
    pub fn get_extensions(&self) -> (r: Vec<&'static str>)
        ensures
            literal_views(r@) == seq!["fbx"@],
    {
        let r = vec!["fbx"];
        assert(literal_views(r@) =~= seq!["fbx"@]);
        r
    }
}

/// The FNV-1a offset basis.
pub const FNV_OFFSET: u64 = 0xcbf29ce484222325;

/// The FNV-1a prime.
pub const FNV_PRIME: u64 = 0x100000001b3;

/// One FNV-1a step: mix in byte `b`, then multiply by the prime, wrapping.
pub open spec fn fnv_step(h: u64, b: u8) -> u64 {
    vstd::wrapping::u64_specs::wrapping_mul(h ^ (b as u64), FNV_PRIME)
}

/// The 64-bit FNV-1a hash of `data`.
pub open spec fn fnv1a(data: Seq<u8>) -> u64
    decreases data.len(),
{
    if data.len() == 0 {
        FNV_OFFSET
    } else {
        fnv_step(fnv1a(data.drop_last()), data.last())
    }
}

/// The 64-bit FNV-1a hash of `data`, used to notice changed content.
fn hash_bytes(data: &[u8]) -> (r: u64)
    ensures
        r == fnv1a(data@),
{
    let mut hash: u64 = FNV_OFFSET;
    let mut i: usize = 0;
    while i < data.len()
        invariant
            i <= data@.len(),
            hash == fnv1a(data@.take(i as int)),
        decreases data@.len() - i,
    {
        assert(data@.take(i + 1).drop_last() =~= data@.take(i as int));
        hash = hash ^ (data[i] as u64);
        hash = hash.wrapping_mul(FNV_PRIME);
        i += 1;
    }
    assert(data@.take(data@.len() as int) =~= data@);
    hash
}

/// Sets `key` to `value` in the table `t`, replacing an earlier entry.
fn table_insert<V>(t: &mut Vec<(String, V)>, key: &str, value: V)
    requires
        keys_unique(old(t)@),
    ensures
        keys_unique(final(t)@),
        table_view(final(t)@) == table_view(old(t)@).insert(key@, value),
{
    match table_find(t, key) {
        Some(i) => {
            proof {
                lemma_table_remove(t@, i as int);
            }
            t.remove(i);
            let k = owned(key);
            proof {
                assert(!has_key(t@, k@)) by {
                    assert(!table_view(t@).contains_key(key@));
                }
                lemma_table_push(t@, k, value);
                assert(table_view(old(t)@).remove(key@).insert(key@, value) =~= table_view(old(t)@).insert(key@, value));
            }
            t.push((k, value));
        },
        None => {
            let k = owned(key);
            proof {
                lemma_table_push(t@, k, value);
            }
            t.push((k, value));
        },
    }
}

/// A pluggable importer of resource files.
pub trait ResourceImporter {
    /// Whether the importer handles files with extension `extension`.
    fn can_import(&self, extension: &str) -> bool;

    /// Imports the file at `path`; an error carries the reason.
    fn import(&self, path: &str) -> Result<ImportedResource, String>;

    /// The importer's name.
    fn name(&self) -> &str;
}

/// Why importing a file failed.
#[derive(Debug, Clone, PartialEq, Eq)]
pub enum ImportError {
    /// No registered importer takes the file; the message says which
    /// extension it has.
    NotFound(String),
    /// The importer refused the file; its reason.
    Importer(String),
}

/// The message for a file whose extension `ext` no importer takes.
pub open spec fn no_importer_message(ext: Seq<char>) -> Seq<char> {
    "no importer for extension '"@ + ext + "'"@
}

/// The extension the pipeline goes by: that of the path's file name.
pub open spec fn path_extension(path: Seq<char>) -> Seq<char> {
    ext_of(name_of(path))
}

/// Importer `i` of `list` is the first to take the extension `e`: it said
/// yes and every importer before it said no.
pub open spec fn first_taker<I: ResourceImporter>(list: Seq<I>, e: &str, i: int) -> bool {
    &&& 0 <= i < list.len()
    &&& call_ensures(I::can_import, (&list[i], e), true)
    &&& forall|j: int| 0 <= j < i ==> #[trigger] call_ensures(I::can_import, (&list[j], e), false)
}

/// `out` is what the first importer of `list` that takes the extension of
/// `path` returned when it imported `path`.
pub open spec fn imported_by_first_taker<I: ResourceImporter>(
    list: Seq<I>,
    path: &str,
    out: Result<ImportedResource, String>,
) -> bool {
    exists|i: int, e: &str|
        e@ == path_extension(path@) && #[trigger] first_taker(list, e, i) && call_ensures(
            I::import,
            (&list[i], path),
            out,
        )
}

/// Every importer of `list` said no to the extension of `path`.
pub open spec fn no_taker<I: ResourceImporter>(list: Seq<I>, path: &str) -> bool {
    exists|e: &str|
        e@ == path_extension(path@) && forall|j: int|
            0 <= j < list.len() ==> #[trigger] call_ensures(I::can_import, (&list[j], e), false)
}

/// The import pipeline: the registered importers, tried in order, and the
/// import state of each file it has seen.
#[derive(Debug)]
pub struct ImportPipeline<I> {
    importers: Vec<I>,
    state: Vec<(String, ImportState)>,
}

impl<I: ResourceImporter> ImportPipeline<I> {
    /// The registered importers, in the order they are tried.
    pub closed spec fn importer_list(&self) -> Seq<I> {
        self.importers@
    }

    /// The import state of each file seen.
    pub closed spec fn states(&self) -> Map<Seq<char>, ImportState> {
        table_view(self.state@)
    }

    /// Each file's state is held once.
    pub closed spec fn wf(&self) -> bool {
        keys_unique(self.state@)
    }

    /// A pipeline with no importers that has seen no file.
    pub fn new() -> (r: Self)
        ensures
            r.wf(),
            r.importer_list() == Seq::<I>::empty(),
            r.states() == Map::<Seq<char>, ImportState>::empty(),
    {
        let r = ImportPipeline { importers: Vec::new(), state: Vec::new() };
        assert(r.states() =~= Map::<Seq<char>, ImportState>::empty());
        r
    }

    /// Adds `importer` after those registered before.
    pub fn register(&mut self, importer: I)
        ensures
            final(self).importer_list() == old(self).importer_list().push(importer),
            final(self).states() == old(self).states(),
            final(self).wf() == old(self).wf(),
    {
        self.importers.push(importer);
    }

    /// The number of registered importers.
    pub fn importer_count(&self) -> (r: usize)
        ensures
            r == self.importer_list().len(),
    {
        self.importers.len()
    }

    /// Whether some registered importer takes extension `ext`.
    pub fn handles_extension(&self, ext: &str) -> (r: bool)
        ensures
            self.importer_list().len() == 0 ==> !r,
            r ==> exists|i: int| 0 <= i < self.importer_list().len()
                && #[trigger] call_ensures(I::can_import, (&self.importer_list()[i], ext), true),
            !r ==> forall|i: int| 0 <= i < self.importer_list().len()
                ==> #[trigger] call_ensures(I::can_import, (&self.importer_list()[i], ext), false),
    {
        let ghost list = self.importer_list();
        let mut i: usize = 0;
        while i < self.importers.len()
            invariant
                list == self.importer_list(),
                i <= self.importer_list().len(),
                forall|j: int| 0 <= j < i ==> #[trigger] call_ensures(I::can_import, (&list[j], ext), false),
            decreases self.importer_list().len() - i,
        {
            let takes = self.importers[i].can_import(ext);
            assert(call_ensures(I::can_import, (&list[i as int], ext), takes));
            if takes {
                return true;
            }
            i += 1;
        }
        false
    }

    /// The import state of `path`, if the pipeline has seen it.
    pub fn get_state(&self, path: &str) -> (r: Option<&ImportState>)
        requires
            self.wf(),
        ensures
            match r {
                Some(st) => self.states().contains_key(path@) && *st == self.states()[path@],
                None => !self.states().contains_key(path@),
            },
    {
        match table_find(&self.state, path) {
            Some(i) => {
                proof {
                    lemma_table_lookup(self.state@, i as int);
                }
                Some(&self.state[i].1)
            },
            None => None,
        }
    }

    /// Every file seen, with its import state.
    pub fn all_states(&self) -> (r: &[(String, ImportState)])
        ensures
            keys_unique(r@) == self.wf(),
            table_view(r@) == self.states(),
    {
        self.state.as_slice()
    }

    /// Records `st` as the state of `path`.
    fn set_state(&mut self, path: &str, st: ImportState)
        requires
            old(self).wf(),
        ensures
            final(self).wf(),
            final(self).states() == old(self).states().insert(path@, st),
            final(self).importer_list() == old(self).importer_list(),
    {
        table_insert(&mut self.state, path, st);
    }

    /// Marks `path` as pending, so that it is imported again.
    pub fn mark_pending(&mut self, path: &str)
        requires
            old(self).wf(),
        ensures
            final(self).wf(),
            final(self).states() == old(self).states().insert(path@, ImportState::Pending),
            final(self).importer_list() == old(self).importer_list(),
    {
        self.set_state(path, ImportState::Pending);
    }

    /// Imports the file at `path`, whose content is `content`. When the
    /// file was imported before with the same content hash, nothing is done
    /// and `Ok(None)` comes back. Otherwise the first importer that takes
    /// the file's extension imports it, and the file's state records the
    /// new hash or the importer's reason for refusing it; when no importer
    /// takes the extension, that is the error and the state stays.
    pub fn import_file(&mut self, path: &str, content: &[u8]) -> (r: Result<Option<ImportedResource>, ImportError>)
        requires
            old(self).wf(),
        ensures
            final(self).wf(),
            final(self).importer_list() == old(self).importer_list(),
            (r == Ok::<Option<ImportedResource>, ImportError>(None))
                <==> old(self).states().get(path@) == Some(ImportState::Imported { hash: fnv1a(content@) }),
            match r {
                Ok(None) => final(self).states() == old(self).states(),
                Ok(Some(_)) => final(self).states() == old(self).states().insert(
                    path@,
                    ImportState::Imported { hash: fnv1a(content@) },
                ),
                Err(ImportError::Importer(reason)) => final(self).states() == old(self).states().insert(
                    path@,
                    ImportState::Failed { reason },
                ),
                Err(ImportError::NotFound(msg)) => final(self).states() == old(self).states()
                    && msg@ == no_importer_message(path_extension(path@)),
            },
            old(self).importer_list().len() == 0 && r != Ok::<Option<ImportedResource>, ImportError>(None)
                ==> r matches Err(ImportError::NotFound(_)),
            r matches Ok(Some(res)) ==> imported_by_first_taker(
                old(self).importer_list(),
                path,
                Ok::<ImportedResource, String>(res),
            ),
            r matches Err(ImportError::Importer(reason)) ==> imported_by_first_taker(
                old(self).importer_list(),
                path,
                Err::<ImportedResource, String>(reason),
            ),
            r matches Err(ImportError::NotFound(_)) ==> no_taker(old(self).importer_list(), path),
    {
        let new_hash = hash_bytes(content);
        match self.get_state(path) {
            Some(ImportState::Imported { hash }) => {
                if *hash == new_hash {
                    return Ok(None);
                }
            },
            _ => {},
        }
        let cs = chars_of(path);
        let ext_string = string_from_chars(ext_chars(name_chars(cs.as_slice()).as_slice()).as_slice());
        let ext: &str = ext_string.as_str();
        let ghost list = old(self).importer_list();
        let mut i: usize = 0;
        while i < self.importers.len()
            invariant
                self.wf(),
                self.importer_list() == list,
                list == old(self).importer_list(),
                self.states() == old(self).states(),
                i <= self.importer_list().len(),
                new_hash == fnv1a(content@),
                old(self).states().get(path@) != Some(ImportState::Imported { hash: fnv1a(content@) }),
                ext@ == path_extension(path@),
                forall|j: int| 0 <= j < i ==> #[trigger] call_ensures(I::can_import, (&list[j], ext), false),
            decreases self.importer_list().len() - i,
        {
            let takes = self.importers[i].can_import(ext);
            assert(call_ensures(I::can_import, (&list[i as int], ext), takes));
            if takes {
                let out = self.importers[i].import(path);
                assert(call_ensures(I::import, (&list[i as int], path), out));
                assert(first_taker(list, ext, i as int));
                match out {
                    Ok(resource) => {
                        self.set_state(path, ImportState::Imported { hash: new_hash });
                        return Ok(Some(resource));
                    },
                    Err(reason) => {
                        self.set_state(path, ImportState::Failed { reason: reason.clone() });
                        return Err(ImportError::Importer(reason));
                    },
                }
            }
            i += 1;
        }
        let mut msg = owned("no importer for extension '");
        push_str(&mut msg, ext);
        push_str(&mut msg, "'");
        assert(forall|j: int| 0 <= j < list.len() ==> #[trigger] call_ensures(I::can_import, (&list[j], ext), false));
        Err(ImportError::NotFound(msg))
    }
}

/// What a successful or refused import hands back is the importing
/// importer's own result: whenever every importer can only answer `path`
/// with `expected`, that is the outcome.
pub proof fn law_import_result_is_the_importers_own<I: ResourceImporter>(
    list: Seq<I>,
    path: &str,
    out: Result<ImportedResource, String>,
    expected: Result<ImportedResource, String>,
)
    requires
        imported_by_first_taker(list, path, out),
        forall|i: int, o: Result<ImportedResource, String>|
            0 <= i < list.len() && #[trigger] call_ensures(I::import, (&list[i], path), o) ==> o == expected,
    ensures
        out == expected,
{
    let (i, e) = choose|i: int, e: &str|
        e@ == path_extension(path@) && #[trigger] first_taker(list, e, i) && call_ensures(I::import, (&list[i], path), out);
    assert(call_ensures(I::import, (&list[i], path), out));
}

/// An importer that said no to the extension is never the one that
/// imports: the importer whose result comes back said yes, and it is the
/// first in the list that did.
pub proof fn law_importer_said_yes_first<I: ResourceImporter>(list: Seq<I>, e: &str, i: int, k: int)
    requires
        first_taker(list, e, i),
        0 <= k < list.len(),
        call_ensures(I::can_import, (&list[k], e), true),
        forall|j: int, a: bool, b: bool|
            #![trigger call_ensures(I::can_import, (&list[j], e), a), call_ensures(I::can_import, (&list[j], e), b)]
            0 <= j < list.len() && call_ensures(I::can_import, (&list[j], e), a)
                && call_ensures(I::can_import, (&list[j], e), b) ==> a == b,
    ensures
        i <= k,
{
    if k < i {
        assert(call_ensures(I::can_import, (&list[k], e), false));
    }
}

/// Importing the same content twice in a row does the work once: right
/// after a successful import the file's state holds that content's hash,
/// which is exactly the state in which the pipeline skips it.
pub proof fn law_unchanged_content_is_skipped(states: Map<Seq<char>, ImportState>, path: Seq<char>, content: Seq<u8>)
    ensures
        states.insert(path, ImportState::Imported { hash: fnv1a(content) }).get(path)
            == Some(ImportState::Imported { hash: fnv1a(content) }),
{
}

/// Options that control how a scene is imported: values by setting name
/// (such as `"animation/import"`).
#[derive(Debug, Clone)]
pub struct SceneImportOptions<V> {
    settings: Vec<(String, V)>,
}

impl<V> SceneImportOptions<V> {
    /// The value of each setting.
    pub closed spec fn values(&self) -> Map<Seq<char>, V> {
        table_view(self.settings@)
    }

    /// Each setting is held once.
    pub closed spec fn wf(&self) -> bool {
        keys_unique(self.settings@)
    }

    /// No settings.
    pub fn new() -> (r: Self)
        ensures
            r.wf(),
            r.values() == Map::<Seq<char>, V>::empty(),
    {
        let r = SceneImportOptions { settings: Vec::new() };
        assert(r.values() =~= Map::<Seq<char>, V>::empty());
        r
    }

    /// Sets `key` to `value`, replacing an earlier value.
    pub fn set(&mut self, key: &str, value: V)
        requires
            old(self).wf(),
        ensures
            final(self).wf(),
            final(self).values() == old(self).values().insert(key@, value),
    {
        table_insert(&mut self.settings, key, value);
    }

    /// The value of `key`, if set.
    pub fn get(&self, key: &str) -> (r: Option<&V>)
        requires
            self.wf(),
        ensures
            match r {
                Some(v) => self.values().contains_key(key@) && *v == self.values()[key@],
                None => !self.values().contains_key(key@),
            },
    {
        match table_find(&self.settings, key) {
            Some(i) => {
                proof {
                    lemma_table_lookup(self.settings@, i as int);
                }
                Some(&self.settings[i].1)
            },
            None => None,
        }
    }
}

/// A node of an imported scene: its name, its class, its properties and
/// its children in order.
#[derive(Debug)]
pub struct ImportedSceneNode<V> {
    /// The node's name.
    pub name: String,
    /// The node's class.
    pub node_type: String,
    /// The node's properties.
    pub properties: Vec<(String, V)>,
    /// The node's children, in order.
    pub children: Vec<ImportedSceneNode<V>>,
}

/// The number of nodes in the subtree of `n`, itself included.
pub open spec fn subtree_size<V>(n: ImportedSceneNode<V>) -> nat
    decreases n,
{
    1 + forest_size(n.children@)
}

/// The number of nodes in the subtrees of `s`.
pub open spec fn forest_size<V>(s: Seq<ImportedSceneNode<V>>) -> nat
    decreases s,
{
    if s.len() == 0 {
        0
    } else {
        forest_size(s.drop_last()) + subtree_size(s.last())
    }
}

impl<V> ImportedSceneNode<V> {
    /// A node named `name` of class `node_type`, without properties or
    /// children.
    pub fn new(name: &str, node_type: &str) -> (r: Self)
        ensures
            r.name@ == name@,
            r.node_type@ == node_type@,
            r.properties@ == Seq::<(String, V)>::empty(),
            r.children@ == Seq::<ImportedSceneNode<V>>::empty(),
    {
        ImportedSceneNode { name: owned(name), node_type: owned(node_type), properties: Vec::new(), children: Vec::new() }
    }

    /// The node with property `key` set to `value` (replacing an earlier
    /// value of it).
    pub fn with_property(self, key: &str, value: V) -> (r: Self)
        requires
            keys_unique(self.properties@),
        ensures
            keys_unique(r.properties@),
            table_view(r.properties@) == table_view(self.properties@).insert(key@, value),
            r.name == self.name,
            r.node_type == self.node_type,
            r.children == self.children,
    {
        let mut node = self;
        table_insert(&mut node.properties, key, value);
        node
    }

    /// The node with `child` added after its other children.
    pub fn with_child(self, child: ImportedSceneNode<V>) -> (r: Self)
        ensures
            r.children@ == self.children@.push(child),
            r.name == self.name,
            r.node_type == self.node_type,
            r.properties == self.properties,
    {
        let mut node = self;
        node.children.push(child);
        node
    }

    /// The number of nodes in this subtree, this node included.
    pub fn node_count(&self) -> (r: usize)
        requires
            subtree_size(*self) <= usize::MAX,
        ensures
            r == subtree_size(*self),
        decreases *self,
    {
        let mut total: usize = 1;
        let mut i: usize = 0;
        while i < self.children.len()
            invariant
                i <= self.children@.len(),
                subtree_size(*self) <= usize::MAX,
                subtree_size(*self) == 1 + forest_size(self.children@),
                total == 1 + forest_size(self.children@.take(i as int)),
            decreases self.children@.len() - i,
        {
            proof {
                assert(self.children@.take(i + 1).drop_last() =~= self.children@.take(i as int));
                lemma_forest_prefix(self.children@, i + 1);
            }
            let c = self.children[i].node_count();
            total = total + c;
            i += 1;
        }
        assert(self.children@.take(self.children@.len() as int) =~= self.children@);
        total
    }
}

/// A prefix of a forest has no more nodes than the whole.
proof fn lemma_forest_prefix<V>(s: Seq<ImportedSceneNode<V>>, k: int)
    requires
        0 <= k <= s.len(),
    ensures
        forest_size(s.take(k)) <= forest_size(s),
    decreases s.len(),
{
    if k < s.len() {
        assert(s.drop_last().take(k) =~= s.take(k));
        lemma_forest_prefix(s.drop_last(), k);
    } else {
        assert(s.take(k) =~= s);
    }
}

/// An animation found in an imported scene: its name, its length in
/// milliseconds and how it loops.
#[derive(Debug, Clone, PartialEq, Eq)]
pub struct ImportedAnimation {
    /// The animation's name.
    pub name: String,
    /// Its length, in milliseconds.
    pub duration_ms: u64,
    /// How it loops.
    pub loop_mode: AnimationLoopMode,
}

/// The result of importing a scene file.
#[derive(Debug)]
pub struct ImportedScene<V> {
    /// The root of the imported node hierarchy.
    pub root: ImportedSceneNode<V>,
    /// The animations found.
    pub animations: Vec<ImportedAnimation>,
    /// The number of meshes found.
    pub mesh_count: usize,
    /// Warnings raised while importing.
    pub warnings: Vec<String>,
}

/// `n` is a node named `name` of class `class`, without properties or
/// children.
pub open spec fn is_bare_node<V>(n: ImportedSceneNode<V>, name: Seq<char>, class: Seq<char>) -> bool {
    &&& n.name@ == name
    &&& n.node_type@ == class
    &&& n.properties@.len() == 0
    &&& n.children@.len() == 0
}

/// The root name of a scene imported from a file with stem `stem`: the
/// stem, or `fallback` when the path has none.
pub open spec fn root_name(stem: Option<&str>, fallback: Seq<char>) -> Seq<char> {
    match stem {
        Some(s) => s@,
        None => fallback,
    }
}

/// `a` is the animation named `name`, `ms` milliseconds long, looping as
/// `mode`.
pub open spec fn is_animation(a: ImportedAnimation, name: Seq<char>, ms: u64, mode: AnimationLoopMode) -> bool {
    a.name@ == name && a.duration_ms == ms && a.loop_mode == mode
}

/// The name of a node that a scene root `root` holds: `root` followed by
/// `suffix`.
fn child_name(root: &str, suffix: &str) -> (r: String)
    ensures
        r@ == root@ + suffix@,
{
    let mut r = owned(root);
    push_str(&mut r, suffix);
    r
}

/// A node named `name` of class `class`, without properties or children.
fn bare_node<V>(name: String, class: &str) -> (r: ImportedSceneNode<V>)
    ensures
        is_bare_node(r, name@, class@),
{
    ImportedSceneNode { name, node_type: owned(class), properties: Vec::new(), children: Vec::new() }
}

impl GltfSceneImporter {
    /// The scene imported from a glTF file whose stem is `stem`, whose
    /// content is `content_len` bytes long, and whose `animation/import`
    /// option holds `import_animations` (when it holds a boolean): a
    /// `Node3D` root named after the stem (`Scene` without one) with its
    /// origin property `transform/origin` set to `origin`, one
    /// `MeshInstance3D` child `<root>_Mesh`, one mesh, and one looping-free
    /// one-second animation `default` when animations are imported (the
    /// default) and the content is longer than 100 bytes.
    pub fn build_scene<V>(&self, stem: Option<&str>, import_animations: Option<bool>, content_len: usize, origin: V)
        -> (r: ImportedScene<V>)
        ensures
            r.root.name@ == root_name(stem, "Scene"@),
            r.root.node_type@ == "Node3D"@,
            r.root.properties@.len() == 1,
            r.root.properties@[0].0@ == "transform/origin"@,
            r.root.properties@[0].1 == origin,
            r.root.children@.len() == 1,
            is_bare_node(r.root.children@[0], root_name(stem, "Scene"@) + "_Mesh"@, "MeshInstance3D"@),
            r.animations@.len() == (if import_animations.unwrap_or(true) && content_len > 100 { 1int } else { 0int }),
            r.animations@.len() == 1 ==> is_animation(r.animations@[0], "default"@, 1000, AnimationLoopMode::NoLoop),
            r.mesh_count == 1,
            r.warnings@.len() == 0,
    {
        let name = match stem {
            Some(s) => s,
            None => "Scene",
        };
        let mesh = bare_node(child_name(name, "_Mesh"), "MeshInstance3D");
        let mut root: ImportedSceneNode<V> = ImportedSceneNode {
            name: owned(name),
            node_type: owned("Node3D"),
            properties: Vec::new(),
            children: Vec::new(),
        };
        root.properties.push((owned("transform/origin"), origin));
        root.children.push(mesh);
        let wanted = match import_animations {
            Some(b) => b,
            None => true,
        };
        let mut animations: Vec<ImportedAnimation> = Vec::new();
        if wanted && content_len > 100 {
            animations.push(ImportedAnimation { name: owned("default"), duration_ms: 1000, loop_mode: AnimationLoopMode::NoLoop });
        }
        ImportedScene { root, animations, mesh_count: 1, warnings: Vec::new() }
    }
}

impl ObjSceneImporter {
    /// The scene imported from an OBJ file whose stem is `stem`: a `Node3D`
    /// root named after the stem (`ObjScene` without one) with one
    /// `MeshInstance3D` child `<root>_Mesh`, one mesh and no animations.
    pub fn build_scene<V>(&self, stem: Option<&str>) -> (r: ImportedScene<V>)
        ensures
            r.root.name@ == root_name(stem, "ObjScene"@),
            r.root.node_type@ == "Node3D"@,
            r.root.properties@.len() == 0,
            r.root.children@.len() == 1,
            is_bare_node(r.root.children@[0], root_name(stem, "ObjScene"@) + "_Mesh"@, "MeshInstance3D"@),
            r.animations@.len() == 0,
            r.mesh_count == 1,
            r.warnings@.len() == 0,
    {
        let name = match stem {
            Some(s) => s,
            None => "ObjScene",
        };
        let mut root: ImportedSceneNode<V> = bare_node(owned(name), "Node3D");
        root.children.push(bare_node(child_name(name, "_Mesh"), "MeshInstance3D"));
        ImportedScene { root, animations: Vec::new(), mesh_count: 1, warnings: Vec::new() }
    }
}

impl FbxSceneImporter {
    /// The scene imported from an FBX file whose stem is `stem` and whose
    /// `animation/import` option holds `import_animations` (when it holds a
    /// boolean): a `Node3D` root named after the stem (`FbxScene` without
    /// one) with a `MeshInstance3D` child `<root>_Mesh` and a `Skeleton3D`
    /// child `<root>_Skeleton`, one mesh, and one two-second looping
    /// animation `idle` when animations are imported (the default).
    pub fn build_scene<V>(&self, stem: Option<&str>, import_animations: Option<bool>) -> (r: ImportedScene<V>)
        ensures
            r.root.name@ == root_name(stem, "FbxScene"@),
            r.root.node_type@ == "Node3D"@,
            r.root.properties@.len() == 0,
            r.root.children@.len() == 2,
            is_bare_node(r.root.children@[0], root_name(stem, "FbxScene"@) + "_Mesh"@, "MeshInstance3D"@),
            is_bare_node(r.root.children@[1], root_name(stem, "FbxScene"@) + "_Skeleton"@, "Skeleton3D"@),
            r.animations@.len() == (if import_animations.unwrap_or(true) { 1int } else { 0int }),
            r.animations@.len() == 1 ==> is_animation(r.animations@[0], "idle"@, 2000, AnimationLoopMode::Linear),
            r.mesh_count == 1,
            r.warnings@.len() == 0,
    {
        let name = match stem {
            Some(s) => s,
            None => "FbxScene",
        };
        let mut root: ImportedSceneNode<V> = bare_node(owned(name), "Node3D");
        root.children.push(bare_node(child_name(name, "_Mesh"), "MeshInstance3D"));
        root.children.push(bare_node(child_name(name, "_Skeleton"), "Skeleton3D"));
        let wanted = match import_animations {
            Some(b) => b,
            None => true,
        };
        let mut animations: Vec<ImportedAnimation> = Vec::new();
        if wanted {
            animations.push(ImportedAnimation { name: owned("idle"), duration_ms: 2000, loop_mode: AnimationLoopMode::Linear });
        }
        ImportedScene { root, animations, mesh_count: 1, warnings: Vec::new() }
    }
}

// ---------------------------------------------------------------------------
// Choosing among registered scene importers by their extension lists
// ---------------------------------------------------------------------------

/// Whether importer `i` of `lists` (each importer given by the extensions it
/// handles) handles the extension `ext`.
pub open spec fn handles(lists: Seq<Vec<&'static str>>, i: int, ext: Seq<char>) -> bool {
    literal_views(lists[i]@).contains(ext)
}

/// The first importer, by its index in `extension_lists`, whose extensions
/// hold `extension` in ASCII lower case; `None` when no importer does.
pub fn first_importer_for(extension_lists: &[Vec<&'static str>], extension: &str) -> (r: Option<usize>)
    ensures
        match r {
            Some(i) => {
                &&& i < extension_lists@.len()
                &&& handles(extension_lists@, i as int, ascii_lower_seq(extension@))
                &&& forall|j: int| 0 <= j < i ==> !handles(extension_lists@, j, ascii_lower_seq(extension@))
            },
            None => forall|j: int|
                0 <= j < extension_lists@.len() ==> !handles(extension_lists@, j, ascii_lower_seq(extension@)),
        },
{
    let lower = ascii_lowercase(extension);
    let mut i: usize = 0;
    while i < extension_lists.len()
        invariant
            lower@ == ascii_lower_seq(extension@),
            i <= extension_lists@.len(),
            forall|j: int| 0 <= j < i ==> !handles(extension_lists@, j, ascii_lower_seq(extension@)),
        decreases extension_lists@.len() - i,
    {
        if in_list(lower.as_slice(), &extension_lists[i]) {
            return Some(i);
        }
        i += 1;
    }
    None
}

/// Whether text `a` comes strictly before `b` in the order of `str`:
/// character by character, with a proper prefix first.
pub open spec fn text_before(a: Seq<char>, b: Seq<char>) -> bool
    decreases a.len(),
{
    if b.len() == 0 {
        false
    } else if a.len() == 0 {
        true
    } else if a[0] != b[0] {
        a[0] < b[0]
    } else {
        text_before(a.drop_first(), b.drop_first())
    }
}

/// `text_before` is a strict total order: never both ways, and one way
/// unless the texts are equal.
proof fn lemma_text_before_total(a: Seq<char>, b: Seq<char>)
    ensures
        !(text_before(a, b) && text_before(b, a)),
        a != b ==> text_before(a, b) || text_before(b, a),
    decreases a.len(),
{
    if a.len() > 0 && b.len() > 0 && a[0] == b[0] {
        lemma_text_before_total(a.drop_first(), b.drop_first());
        if a.drop_first() == b.drop_first() {
            assert(a =~= seq![a[0]] + a.drop_first());
            assert(b =~= seq![b[0]] + b.drop_first());
        }
    } else if a.len() == 0 && b.len() == 0 {
        assert(a =~= b);
    }
}

/// `text_before` is transitive.
proof fn lemma_text_before_transitive(a: Seq<char>, b: Seq<char>, c: Seq<char>)
    requires
        text_before(a, b),
        text_before(b, c),
    ensures
        text_before(a, c),
    decreases a.len(),
{
    if a.len() > 0 && a[0] == b[0] && b[0] == c[0] {
        lemma_text_before_transitive(a.drop_first(), b.drop_first(), c.drop_first());
    }
}

/// Whether `a` sorts strictly before `b`.
fn str_before(a: &str, b: &str) -> (r: bool)
    ensures
        r == text_before(a@, b@),
{
    let x = chars_of(a);
    let y = chars_of(b);
    let mut i: usize = 0;
    assert(x@.skip(0) =~= x@ && y@.skip(0) =~= y@);
    while i < x.len() && i < y.len() && x[i] == y[i]
        invariant
            x@ == a@,
            y@ == b@,
            i <= x@.len(),
            i <= y@.len(),
            text_before(a@, b@) == text_before(x@.skip(i as int), y@.skip(i as int)),
        decreases x@.len() - i,
    {
        assert(x@.skip(i as int).drop_first() =~= x@.skip(i + 1));
        assert(y@.skip(i as int).drop_first() =~= y@.skip(i + 1));
        i += 1;
    }
    if i == y.len() {
        false
    } else if i == x.len() {
        true
    } else {
        x[i] < y[i]
    }
}

/// The texts of `s` ascend strictly.
pub open spec fn strictly_ascending(s: Seq<&'static str>) -> bool {
    forall|i: int, j: int| 0 <= i < j < s.len() ==> text_before(#[trigger] s[i]@, #[trigger] s[j]@)
}

/// Whether some text of `s` is `e`.
pub open spec fn holds_text(s: Seq<&'static str>, e: Seq<char>) -> bool {
    exists|k: int| 0 <= k < s.len() && (#[trigger] s[k])@ == e
}

/// Puts `e` into the ascending `out` at its place, unless its text is
/// there already.
fn insert_in_order(out: &mut Vec<&'static str>, e: &'static str)
    requires
        strictly_ascending(old(out)@),
    ensures
        strictly_ascending(final(out)@),
        forall|x: Seq<char>| holds_text(final(out)@, x) <==> (holds_text(old(out)@, x) || x == e@),
{
    let ghost o = out@;
    let mut p: usize = 0;
    while p < out.len() && str_before(out[p], e)
        invariant
            out@ == o,
            p <= o.len(),
            forall|k: int| 0 <= k < p ==> text_before((#[trigger] o[k])@, e@),
        decreases o.len() - p,
    {
        p += 1;
    }
    if p < out.len() && str_eq(out[p], e) {
        assert(holds_text(o, e@));
        return;
    }
    proof {
        if p < o.len() {
            lemma_text_before_total(o[p as int]@, e@);
        }
    }
    out.insert(p, e);
    let ghost n = out@;
    assert(n =~= o.insert(p as int, e));
    assert forall|i: int, j: int| 0 <= i < j < n.len() implies text_before(#[trigger] n[i]@, #[trigger] n[j]@) by {
        if j < p {
        } else if j == p {
            assert(n[i] == o[i]);
        } else if i < p {
            assert(n[j] == o[j - 1]);
        } else if i == p {
            assert(n[j] == o[j - 1]);
            if j - 1 > p {
                lemma_text_before_transitive(e@, o[p as int]@, o[j - 1]@);
            }
        } else {
            assert(n[i] == o[i - 1]);
            assert(n[j] == o[j - 1]);
        }
    }
    assert forall|x: Seq<char>| holds_text(n, x) <==> (holds_text(o, x) || x == e@) by {
        if holds_text(n, x) {
            let k = choose|k: int| 0 <= k < n.len() && (#[trigger] n[k])@ == x;
            if k < p {
                assert(o[k] == n[k]);
            } else if k > p {
                assert(o[k - 1] == n[k]);
            }
        }
        if holds_text(o, x) {
            let k = choose|k: int| 0 <= k < o.len() && (#[trigger] o[k])@ == x;
            if k < p {
                assert(n[k] == o[k]);
            } else {
                assert(n[k + 1] == o[k]);
            }
        }
        if x == e@ {
            assert(n[p as int] == e);
        }
    }
}

/// Whether some importer of `lists` handles the extension `e`.
pub open spec fn some_importer_handles(lists: Seq<Vec<&'static str>>, e: Seq<char>) -> bool {
    exists|i: int| 0 <= i < lists.len() && #[trigger] handles(lists, i, e)
}

/// Every extension that some importer of `extension_lists` handles, each
/// once, in ascending order.
pub fn merged_extensions(extension_lists: &[Vec<&'static str>]) -> (r: Vec<&'static str>)
    ensures
        strictly_ascending(r@),
        forall|e: Seq<char>| holds_text(r@, e) <==> some_importer_handles(extension_lists@, e),
{
    let mut out: Vec<&'static str> = Vec::new();
    let mut i: usize = 0;
    while i < extension_lists.len()
        invariant
            i <= extension_lists@.len(),
            strictly_ascending(out@),
            forall|e: Seq<char>| holds_text(out@, e) <==> some_importer_handles(extension_lists@.take(i as int), e),
        decreases extension_lists@.len() - i,
    {
        let list = &extension_lists[i];
        let ghost before = out@;
        let mut j: usize = 0;
        while j < list.len()
            invariant
                list@ == extension_lists@[i as int]@,
                i < extension_lists@.len(),
                j <= list@.len(),
                strictly_ascending(out@),
                forall|e: Seq<char>| holds_text(out@, e) <==> (holds_text(before, e) || literal_views(list@.take(j as int)).contains(e)),
            decreases list@.len() - j,
        {
            let ghost mid = out@;
            assert(forall|e: Seq<char>| holds_text(mid, e) <==> (holds_text(before, e) || literal_views(list@.take(j as int)).contains(e)));
            insert_in_order(&mut out, list[j]);
            proof {
                let lv = literal_views(list@.take(j + 1));
                let lv0 = literal_views(list@.take(j as int));
                assert(lv =~= lv0.push(list@[j as int]@));
                assert forall|e: Seq<char>| holds_text(out@, e) <==> (holds_text(before, e) || lv.contains(e)) by {
                    assert(holds_text(out@, e) == (holds_text(mid, e) || e == list@[j as int]@));
                    assert(holds_text(mid, e) == (holds_text(before, e) || lv0.contains(e)));
                    if lv.contains(e) {
                        let k = choose|k: int| 0 <= k < lv.len() && lv[k] == e;
                        if k < lv0.len() {
                            assert(lv0[k] == e);
                        }
                    }
                    if lv0.contains(e) {
                        let k = choose|k: int| 0 <= k < lv0.len() && lv0[k] == e;
                        assert(lv[k] == e);
                    }
                    if e == list@[j as int]@ {
                        assert(lv[j as int] == e);
                    }
                }
            }
            j += 1;
        }
        proof {
            let prev = extension_lists@.take(i as int);
            let next = extension_lists@.take(i + 1);
            assert(list@.take(j as int) =~= list@);
            assert forall|e: Seq<char>| holds_text(out@, e) <==> some_importer_handles(next, e) by {
                assert(holds_text(out@, e) == (holds_text(before, e) || literal_views(list@.take(j as int)).contains(e)));
                assert(holds_text(before, e) == some_importer_handles(prev, e));
                assert(next[i as int] == extension_lists@[i as int]);
                if some_importer_handles(next, e) {
                    let k = choose|k: int| 0 <= k < next.len() && #[trigger] handles(next, k, e);
                    if k < i {
                        assert(next[k] == prev[k]);
                        assert(handles(prev, k, e));
                    }
                }
                if some_importer_handles(prev, e) {
                    let k = choose|k: int| 0 <= k < prev.len() && #[trigger] handles(prev, k, e);
                    assert(next[k] == prev[k]);
                    assert(handles(next, k, e));
                }
                if literal_views(list@).contains(e) {
                    assert(handles(next, i as int, e));
                }
            }
        }
        i += 1;
    }
    assert(extension_lists@.take(i as int) =~= extension_lists@);
    out
}

} // verus!
