//! The Import dock's settings panel: default import settings per resource
//! type, per-file overrides, and a pending edit for the selected file that
//! is applied or discarded. The settings themselves are carried as the
//! caller represents them.

use vstd::prelude::*;
use crate::import_settings::{ImportResourceType, type_of_lower_ext};
use crate::paths::{find_last_dot, last_dot, lemma_last_dot, slice_chars};
use crate::table::{has_key, keys_unique, table_find, table_view, lemma_table_lookup, lemma_table_push,
    lemma_table_remove, lemma_table_set};
use crate::text::{chars_of, owned, string_from_chars, unicode_lowercase};

verus! {

broadcast use vstd::string::group_string_axioms;

/// What follows the last `.` of a path, or the whole path if it has none.
pub open spec fn after_last_dot(p: Seq<char>) -> Seq<char> {
    match last_dot(p) {
        Some(k) => p.subrange(k + 1, p.len() as int),
        None => p,
    }
}

/// The resource type that a path's extension names.
pub open spec fn type_of_path(p: Seq<char>) -> Option<ImportResourceType> {
    type_of_lower_ext(unicode_lowercase(after_last_dot(p)))
}

/// Whether the pending edit is for path `p`.
pub open spec fn pending_for<S>(pending: Option<(Seq<char>, S)>, p: Seq<char>) -> bool {
    match pending {
        Some((q, _)) => q == p,
        None => false,
    }
}

/// The settings of the pending edit, if any.
pub open spec fn pending_settings<S>(pending: Option<(Seq<char>, S)>) -> Option<S> {
    match pending {
        Some((_, s)) => Some(s),
        None => None,
    }
}

/// The settings a selected path is shown with: the pending edit if it is
/// for that path, else the path's override, else the default for its
/// resource type.
pub open spec fn effective_of<S>(
    selection: Option<Seq<char>>,
    pending: Option<(Seq<char>, S)>,
    overrides: Map<Seq<char>, S>,
    defaults: spec_fn(ImportResourceType) -> Option<S>,
) -> Option<S> {
    match selection {
        None => None,
        Some(p) => if pending_for(pending, p) {
            pending_settings(pending)
        } else if overrides.contains_key(p) {
            Some(overrides[p])
        } else {
            match type_of_path(p) {
                Some(rt) => defaults(rt),
                None => None,
            }
        },
    }
}

/// The resource type that a path's extension names.
fn type_of_path_exec(p: &str) -> (r: Option<ImportResourceType>)
    ensures
        r == type_of_path(p@),
{
    let cs = chars_of(p);
    proof {
        lemma_last_dot(cs@);
    }
    let ext = match find_last_dot(cs.as_slice()) {
        Some(k) => slice_chars(cs.as_slice(), k + 1, cs.len()),
        None => cs,
    };
    let e = string_from_chars(ext.as_slice());
    ImportResourceType::from_extension(e.as_str())
}

/// One optional value per resource type.
#[derive(Debug, Clone)]
struct TypeSlots<S> {
    texture: Option<S>,
    audio: Option<S>,
    scene: Option<S>,
    mesh: Option<S>,
    font: Option<S>,
    shader: Option<S>,
    script: Option<S>,
}

impl<S> TypeSlots<S> {
    /// The value for `rt`.
    spec fn at(&self, rt: ImportResourceType) -> Option<S> {
        match rt {
            ImportResourceType::Texture => self.texture,
            ImportResourceType::Audio => self.audio,
            ImportResourceType::Scene => self.scene,
            ImportResourceType::Mesh => self.mesh,
            ImportResourceType::Font => self.font,
            ImportResourceType::Shader => self.shader,
            ImportResourceType::Script => self.script,
        }
    }

    /// No value for any type.
    fn empty() -> (r: Self)
        ensures
            forall|rt: ImportResourceType| r.at(rt) is None,
    {
        TypeSlots { texture: None, audio: None, scene: None, mesh: None, font: None, shader: None, script: None }
    }

    /// The value for `rt`.
    fn get(&self, rt: ImportResourceType) -> (r: Option<&S>)
        ensures
            match r {
                Some(v) => self.at(rt) == Some(*v),
                None => self.at(rt) is None,
            },
    {
        match rt {
            ImportResourceType::Texture => self.texture.as_ref(),
            ImportResourceType::Audio => self.audio.as_ref(),
            ImportResourceType::Scene => self.scene.as_ref(),
            ImportResourceType::Mesh => self.mesh.as_ref(),
            ImportResourceType::Font => self.font.as_ref(),
            ImportResourceType::Shader => self.shader.as_ref(),
            ImportResourceType::Script => self.script.as_ref(),
        }
    }

    /// Sets the value for `rt`.
    fn set(&mut self, rt: ImportResourceType, v: S)
        ensures
            forall|t: ImportResourceType| final(self).at(t) == if t == rt { Some(v) } else { old(self).at(t) },
    {
        match rt {
            ImportResourceType::Texture => self.texture = Some(v),
            ImportResourceType::Audio => self.audio = Some(v),
            ImportResourceType::Scene => self.scene = Some(v),
            ImportResourceType::Mesh => self.mesh = Some(v),
            ImportResourceType::Font => self.font = Some(v),
            ImportResourceType::Shader => self.shader = Some(v),
            ImportResourceType::Script => self.script = Some(v),
        }
    }
}

/// The value of the last pair for `rt` in `s`, if any.
pub open spec fn last_for<S>(s: Seq<(ImportResourceType, S)>, rt: ImportResourceType) -> Option<S>
    decreases s.len(),
{
    if s.len() == 0 {
        None
    } else if s.last().0 == rt {
        Some(s.last().1)
    } else {
        last_for(s.drop_last(), rt)
    }
}

/// A pending edit: the path it is for and its settings.
#[derive(Debug, Clone)]
struct PendingImportEdit<S> {
    resource_path: String,
    settings: S,
}

/// The import settings panel.
#[derive(Debug)]
pub struct ImportSettingsPanel<S> {
    visible: bool,
    selected_path: Option<String>,
    factory: TypeSlots<S>,
    defaults: TypeSlots<S>,
    overrides: Vec<(String, S)>,
    pending: Option<PendingImportEdit<S>>,
}

impl<S: Clone> ImportSettingsPanel<S> {
    /// Whether the panel is shown.
    pub closed spec fn shown(&self) -> bool {
        self.visible
    }

    /// The selected resource path, if any.
    pub closed spec fn selection(&self) -> Option<Seq<char>> {
        match self.selected_path {
            Some(p) => Some(p@),
            None => None,
        }
    }

    /// The factory default settings for a resource type, if it has any.
    pub closed spec fn factory_at(&self, rt: ImportResourceType) -> Option<S> {
        self.factory.at(rt)
    }

    /// The current default settings for a resource type, if it has any.
    pub closed spec fn default_at(&self, rt: ImportResourceType) -> Option<S> {
        self.defaults.at(rt)
    }

    /// The current defaults by resource type.
    pub closed spec fn default_fn(&self) -> spec_fn(ImportResourceType) -> Option<S> {
        |rt: ImportResourceType| self.defaults.at(rt)
    }

    /// The per-file overrides by path.
    pub closed spec fn override_map(&self) -> Map<Seq<char>, S> {
        table_view(self.overrides@)
    }

    /// The pending edit: its path and settings.
    pub closed spec fn pending_edit(&self) -> Option<(Seq<char>, S)> {
        match self.pending {
            Some(e) => Some((e.resource_path@, e.settings)),
            None => None,
        }
    }

    /// No path has two overrides.
    pub closed spec fn wf(&self) -> bool {
        keys_unique(self.overrides@)
    }

    /// The settings shown for the selected path.
    pub open spec fn effective(&self) -> Option<S> {
        effective_of(self.selection(), self.pending_edit(), self.override_map(), self.default_fn())
    }

    /// A hidden panel with nothing selected, no overrides and no pending
    /// edit, whose factory defaults are the last of `factory` for each
    /// resource type and whose current defaults are copies of them.
    pub fn new(factory: Vec<(ImportResourceType, S)>) -> (r: Self)
        ensures
            r.wf(),
            !r.shown(),
            r.selection() is None,
            r.pending_edit() is None,
            r.override_map() == Map::<Seq<char>, S>::empty(),
            forall|rt: ImportResourceType| #[trigger] r.factory_at(rt) == last_for(factory@, rt),
            forall|rt: ImportResourceType| (#[trigger] r.default_at(rt) is Some) == (r.factory_at(rt) is Some),
            forall|rt: ImportResourceType| #[trigger] r.default_at(rt) is Some
                ==> cloned(r.factory_at(rt)->0, r.default_at(rt)->0),
    {
        let mut slots: TypeSlots<S> = TypeSlots::empty();
        let ghost fs = factory@;
        assert(fs.take(0) =~= Seq::<(ImportResourceType, S)>::empty());
        for pair in it: factory.into_iter()
            invariant
                it.seq() == fs,
                forall|rt: ImportResourceType| #[trigger] slots.at(rt) == last_for(fs.take(it.index() as int), rt),
        {
            let ghost k = it.index() as int;
            assert(fs.take(k + 1).drop_last() =~= fs.take(k));
            assert(fs.take(k + 1).last() == pair);
            slots.set(pair.0, pair.1);
        }
        assert(fs.take(fs.len() as int) =~= fs);
        let mut defaults: TypeSlots<S> = TypeSlots::empty();
        let all = ImportResourceType::all();
        let mut j: usize = 0;
        while j < all.len()
            invariant
                all@ == seq![ImportResourceType::Texture, ImportResourceType::Audio, ImportResourceType::Scene,
                    ImportResourceType::Mesh, ImportResourceType::Font, ImportResourceType::Shader,
                    ImportResourceType::Script],
                j <= all@.len(),
                forall|rt: ImportResourceType| (#[trigger] defaults.at(rt) is Some)
                    ==> all@.take(j as int).contains(rt) && slots.at(rt) is Some,
                forall|rt: ImportResourceType| all@.take(j as int).contains(rt) ==> ((#[trigger] defaults.at(rt) is Some) == (slots.at(rt) is Some)),
                forall|rt: ImportResourceType| #[trigger] defaults.at(rt) is Some ==> cloned(slots.at(rt)->0, defaults.at(rt)->0),
            decreases all@.len() - j,
        {
            let rt = all[j];
            proof {
                vstd::seq_lib::lemma_seq_contains_after_push(all@.take(j as int), rt, rt);
                assert(all@.take(j + 1) =~= all@.take(j as int).push(rt));
            }
            match slots.get(rt) {
                Some(v) => {
                    let c = v.clone();
                    defaults.set(rt, c);
                },
                None => {},
            }
            proof {
                assert forall|t: ImportResourceType| all@.take(j + 1).contains(t) implies ((#[trigger] defaults.at(t) is Some) == (slots.at(t) is Some)) by {
                    vstd::seq_lib::lemma_seq_contains_after_push(all@.take(j as int), rt, t);
                }
                assert forall|t: ImportResourceType| (#[trigger] defaults.at(t) is Some)
                    implies all@.take(j + 1).contains(t) && slots.at(t) is Some by {
                    vstd::seq_lib::lemma_seq_contains_after_push(all@.take(j as int), rt, t);
                }
            }
            j += 1;
        }
        proof {
            assert(all@.take(7) =~= all@);
            assert forall|rt: ImportResourceType| all@.contains(rt) by {
                match rt {
                    ImportResourceType::Texture => assert(all@[0] == rt),
                    ImportResourceType::Audio => assert(all@[1] == rt),
                    ImportResourceType::Scene => assert(all@[2] == rt),
                    ImportResourceType::Mesh => assert(all@[3] == rt),
                    ImportResourceType::Font => assert(all@[4] == rt),
                    ImportResourceType::Shader => assert(all@[5] == rt),
                    ImportResourceType::Script => assert(all@[6] == rt),
                }
            }
        }
        let r = ImportSettingsPanel {
            visible: false,
            selected_path: None,
            factory: slots,
            defaults,
            overrides: Vec::new(),
            pending: None,
        };
        assert(r.override_map() =~= Map::<Seq<char>, S>::empty());
        r
    }

    /// Shows the panel.
    pub fn open(&mut self)
        ensures
            final(self).shown(),
            final(self).selection() == old(self).selection(),
            final(self).pending_edit() == old(self).pending_edit(),
            final(self).override_map() == old(self).override_map(),
            final(self).wf() == old(self).wf(),
            forall|rt: ImportResourceType| #[trigger] final(self).default_at(rt) == old(self).default_at(rt)
                && final(self).factory_at(rt) == old(self).factory_at(rt),
    {
        self.visible = true;
    }

    /// Hides the panel, discarding the pending edit.
    pub fn close(&mut self)
        ensures
            !final(self).shown(),
            final(self).selection() == old(self).selection(),
            final(self).pending_edit() is None,
            final(self).override_map() == old(self).override_map(),
            final(self).wf() == old(self).wf(),
            forall|rt: ImportResourceType| #[trigger] final(self).default_at(rt) == old(self).default_at(rt)
                && final(self).factory_at(rt) == old(self).factory_at(rt),
    {
        self.visible = false;
        self.pending = None;
    }

    /// Whether the panel is shown.
    pub fn is_visible(&self) -> (r: bool)
        ensures
            r == self.shown(),
    {
        self.visible
    }

    /// Selects the resource at `path` for editing, discarding the pending
    /// edit.
    pub fn select_resource(&mut self, path: &str)
        ensures
            final(self).shown() == old(self).shown(),
            final(self).selection() == Some(path@),
            final(self).pending_edit() is None,
            final(self).override_map() == old(self).override_map(),
            final(self).wf() == old(self).wf(),
            forall|rt: ImportResourceType| #[trigger] final(self).default_at(rt) == old(self).default_at(rt)
                && final(self).factory_at(rt) == old(self).factory_at(rt),
    {
        self.selected_path = Some(owned(path));
        self.pending = None;
    }

    /// The selected resource path, if any.
    pub fn selected_path(&self) -> (r: Option<&str>)
        ensures
            match r {
                Some(p) => self.selection() == Some(p@),
                None => self.selection() is None,
            },
    {
        match &self.selected_path {
            Some(p) => Some(p.as_str()),
            None => None,
        }
    }

    /// The resource type named by the selected path's extension.
    pub fn selected_resource_type(&self) -> (r: Option<ImportResourceType>)
        ensures
            r == match self.selection() {
                Some(p) => type_of_path(p),
                None => None,
            },
    {
        match &self.selected_path {
            Some(p) => type_of_path_exec(p.as_str()),
            None => None,
        }
    }

    /// The settings shown for the selected resource: its pending edit, else
    /// its override, else the default for its resource type.
    pub fn effective_settings(&self) -> (r: Option<&S>)
        requires
            self.wf(),
        ensures
            match r {
                Some(v) => self.effective() == Some(*v),
                None => self.effective() is None,
            },
    {
        let path = match &self.selected_path {
            Some(p) => p,
            None => return None,
        };
        if let Some(pending) = &self.pending {
            if crate::text::str_eq(pending.resource_path.as_str(), path.as_str()) {
                return Some(&pending.settings);
            }
        }
        match table_find(&self.overrides, path.as_str()) {
            Some(i) => {
                proof {
                    lemma_table_lookup(self.overrides@, i as int);
                }
                return Some(&self.overrides[i].1);
            },
            None => {},
        }
        match type_of_path_exec(path.as_str()) {
            Some(rt) => self.defaults.get(rt),
            None => None,
        }
    }

    /// The default settings for a resource type, if it has any.
    pub fn default_settings(&self, rt: ImportResourceType) -> (r: Option<&S>)
        ensures
            match r {
                Some(v) => self.default_at(rt) == Some(*v),
                None => self.default_at(rt) is None,
            },
    {
        self.defaults.get(rt)
    }

    /// Replaces the default settings for a resource type.
    pub fn set_default_settings(&mut self, rt: ImportResourceType, settings: S)
        ensures
            final(self).shown() == old(self).shown(),
            final(self).selection() == old(self).selection(),
            final(self).pending_edit() == old(self).pending_edit(),
            final(self).override_map() == old(self).override_map(),
            final(self).wf() == old(self).wf(),
            forall|t: ImportResourceType| #[trigger] final(self).default_at(t)
                == if t == rt { Some(settings) } else { old(self).default_at(t) },
            forall|t: ImportResourceType| #[trigger] final(self).factory_at(t) == old(self).factory_at(t),
    {
        self.defaults.set(rt, settings);
    }

    /// Makes `settings` the pending edit of the selected resource; does
    /// nothing when no resource is selected.
    pub fn set_pending(&mut self, settings: S)
        ensures
            final(self).shown() == old(self).shown(),
            final(self).selection() == old(self).selection(),
            final(self).pending_edit() == match old(self).selection() {
                Some(p) => Some((p, settings)),
                None => old(self).pending_edit(),
            },
            final(self).override_map() == old(self).override_map(),
            final(self).wf() == old(self).wf(),
            forall|rt: ImportResourceType| #[trigger] final(self).default_at(rt) == old(self).default_at(rt)
                && final(self).factory_at(rt) == old(self).factory_at(rt),
    {
        if let Some(path) = &self.selected_path {
            let p = path.clone();
            self.pending = Some(PendingImportEdit { resource_path: p, settings });
        }
    }

    /// Whether there is a pending edit.
    pub fn has_pending_changes(&self) -> (r: bool)
        ensures
            r == (self.pending_edit() is Some),
    {
        self.pending.is_some()
    }

    /// Applies the pending edit as its path's override. Returns whether
    /// there was one.
    pub fn apply(&mut self) -> (r: bool)
        requires
            old(self).wf(),
        ensures
            final(self).wf(),
            r == (old(self).pending_edit() is Some),
            final(self).pending_edit() is None,
            final(self).override_map() == match old(self).pending_edit() {
                Some((p, s)) => old(self).override_map().insert(p, s),
                None => old(self).override_map(),
            },
            final(self).shown() == old(self).shown(),
            final(self).selection() == old(self).selection(),
            forall|rt: ImportResourceType| #[trigger] final(self).default_at(rt) == old(self).default_at(rt)
                && final(self).factory_at(rt) == old(self).factory_at(rt),
    {
        let pending = self.pending.take();
        match pending {
            Some(edit) => {
                self.put_override(edit.resource_path, edit.settings);
                true
            },
            None => false,
        }
    }

    /// Sets the override of `path` to `settings`.
    fn put_override(&mut self, path: String, settings: S)
        requires
            old(self).wf(),
        ensures
            final(self).wf(),
            final(self).override_map() == old(self).override_map().insert(path@, settings),
            final(self).pending_edit() == old(self).pending_edit(),
            final(self).shown() == old(self).shown(),
            final(self).selection() == old(self).selection(),
            forall|rt: ImportResourceType| #[trigger] final(self).default_at(rt) == old(self).default_at(rt)
                && final(self).factory_at(rt) == old(self).factory_at(rt),
    {
        let ghost old_rows = self.overrides@;
        match table_find(&self.overrides, path.as_str()) {
            Some(i) => {
                let (k, _) = self.overrides.remove(i);
                self.overrides.insert(i, (k, settings));
                assert(self.overrides@ =~= old_rows.update(i as int, (old_rows[i as int].0, settings)));
                proof {
                    lemma_table_set(old_rows, i as int, settings);
                }
            },
            None => {
                let ghost key = path;
                self.overrides.push((path, settings));
                proof {
                    lemma_table_push(old_rows, key, settings);
                }
            },
        }
    }

    /// Discards the pending edit.
    pub fn discard(&mut self)
        ensures
            final(self).pending_edit() is None,
            final(self).shown() == old(self).shown(),
            final(self).selection() == old(self).selection(),
            final(self).override_map() == old(self).override_map(),
            final(self).wf() == old(self).wf(),
            forall|rt: ImportResourceType| #[trigger] final(self).default_at(rt) == old(self).default_at(rt)
                && final(self).factory_at(rt) == old(self).factory_at(rt),
    {
        self.pending = None;
    }

    /// Removes the override of `path`. Returns whether there was one.
    pub fn remove_override(&mut self, path: &str) -> (r: bool)
        requires
            old(self).wf(),
        ensures
            final(self).wf(),
            r == old(self).override_map().contains_key(path@),
            final(self).override_map() == old(self).override_map().remove(path@),
            final(self).pending_edit() == old(self).pending_edit(),
            final(self).shown() == old(self).shown(),
            final(self).selection() == old(self).selection(),
            forall|rt: ImportResourceType| #[trigger] final(self).default_at(rt) == old(self).default_at(rt)
                && final(self).factory_at(rt) == old(self).factory_at(rt),
    {
        let ghost old_rows = self.overrides@;
        match table_find(&self.overrides, path) {
            Some(i) => {
                self.overrides.remove(i);
                proof {
                    lemma_table_remove(old_rows, i as int);
                    lemma_table_lookup(old_rows, i as int);
                }
                true
            },
            None => {
                assert(table_view(old_rows).remove(path@) =~= table_view(old_rows));
                false
            },
        }
    }

    /// Whether `path` has an override.
    pub fn has_override(&self, path: &str) -> (r: bool)
        ensures
            r == self.override_map().contains_key(path@),
    {
        table_find(&self.overrides, path).is_some()
    }

    /// Every override, with its path.
    pub fn all_overrides(&self) -> (r: &[(String, S)])
        requires
            self.wf(),
        ensures
            keys_unique(r@),
            table_view(r@) == self.override_map(),
    {
        self.overrides.as_slice()
    }

    /// The number of overrides.
    pub fn override_count(&self) -> (r: usize)
        requires
            self.wf(),
        ensures
            r == self.override_map().len(),
    {
        proof {
            crate::fs_thumbnails::lemma_table_len(self.overrides@);
        }
        self.overrides.len()
    }

    /// Restores the factory default settings of a resource type (a copy of
    /// them); a type without factory settings keeps its defaults.
    pub fn reset_defaults(&mut self, rt: ImportResourceType)
        ensures
            final(self).shown() == old(self).shown(),
            final(self).selection() == old(self).selection(),
            final(self).pending_edit() == old(self).pending_edit(),
            final(self).override_map() == old(self).override_map(),
            final(self).wf() == old(self).wf(),
            forall|t: ImportResourceType| t != rt ==> #[trigger] final(self).default_at(t) == old(self).default_at(t),
            old(self).factory_at(rt) is Some ==> final(self).default_at(rt) is Some
                && cloned(old(self).factory_at(rt)->0, final(self).default_at(rt)->0),
            old(self).factory_at(rt) is None ==> final(self).default_at(rt) == old(self).default_at(rt),
            forall|t: ImportResourceType| #[trigger] final(self).factory_at(t) == old(self).factory_at(t),
    {
        let fresh = match self.factory.get(rt) {
            Some(v) => Some(v.clone()),
            None => None,
        };
        match fresh {
            Some(v) => self.defaults.set(rt, v),
            None => {},
        }
    }

    /// Removes every override.
    pub fn clear_all_overrides(&mut self)
        ensures
            final(self).wf(),
            final(self).override_map() == Map::<Seq<char>, S>::empty(),
            final(self).pending_edit() == old(self).pending_edit(),
            final(self).shown() == old(self).shown(),
            final(self).selection() == old(self).selection(),
            forall|rt: ImportResourceType| #[trigger] final(self).default_at(rt) == old(self).default_at(rt)
                && final(self).factory_at(rt) == old(self).factory_at(rt),
    {
        self.overrides.clear();
        assert(self.override_map() =~= Map::<Seq<char>, S>::empty());
    }

    /// Gives every path of `paths` an override that is a copy of
    /// `settings`. Returns the number of paths.
    pub fn batch_apply(&mut self, paths: &[&str], settings: &S) -> (r: usize)
        requires
            old(self).wf(),
        ensures
            final(self).wf(),
            r == paths@.len(),
            forall|k: Seq<char>| #[trigger] final(self).override_map().contains_key(k)
                <==> (old(self).override_map().contains_key(k) || paths@.map_values(|p: &str| p@).contains(k)),
            forall|k: Seq<char>| paths@.map_values(|p: &str| p@).contains(k)
                ==> cloned(*settings, #[trigger] final(self).override_map()[k]),
            forall|k: Seq<char>| #[trigger] old(self).override_map().contains_key(k)
                && !paths@.map_values(|p: &str| p@).contains(k)
                ==> final(self).override_map()[k] == old(self).override_map()[k],
            final(self).pending_edit() == old(self).pending_edit(),
            final(self).shown() == old(self).shown(),
            final(self).selection() == old(self).selection(),
            forall|rt: ImportResourceType| #[trigger] final(self).default_at(rt) == old(self).default_at(rt)
                && final(self).factory_at(rt) == old(self).factory_at(rt),
    {
        let ghost ps = paths@.map_values(|p: &str| p@);
        let mut count: usize = 0;
        while count < paths.len()
            invariant
                ps == paths@.map_values(|p: &str| p@),
                count <= paths@.len(),
                self.wf(),
                forall|k: Seq<char>| #[trigger] self.override_map().contains_key(k)
                    <==> (old(self).override_map().contains_key(k) || ps.take(count as int).contains(k)),
                forall|k: Seq<char>| ps.take(count as int).contains(k)
                    ==> cloned(*settings, #[trigger] self.override_map()[k]),
                forall|k: Seq<char>| #[trigger] old(self).override_map().contains_key(k)
                    && !ps.take(count as int).contains(k)
                    ==> self.override_map()[k] == old(self).override_map()[k],
                self.pending_edit() == old(self).pending_edit(),
                self.shown() == old(self).shown(),
                self.selection() == old(self).selection(),
                forall|rt: ImportResourceType| #[trigger] self.default_at(rt) == old(self).default_at(rt)
                    && self.factory_at(rt) == old(self).factory_at(rt),
            decreases paths@.len() - count,
        {
            let p = paths[count];
            let copy = settings.clone();
            let ghost before = self.override_map();
            self.put_override(owned(p), copy);
            proof {
                assert(ps.take(count + 1) =~= ps.take(count as int).push(p@));
                assert forall|k: Seq<char>| #[trigger] self.override_map().contains_key(k)
                    <==> (old(self).override_map().contains_key(k) || ps.take(count + 1).contains(k)) by {
                    vstd::seq_lib::lemma_seq_contains_after_push(ps.take(count as int), p@, k);
                }
                assert forall|k: Seq<char>| ps.take(count + 1).contains(k)
                    implies cloned(*settings, #[trigger] self.override_map()[k]) by {
                    vstd::seq_lib::lemma_seq_contains_after_push(ps.take(count as int), p@, k);
                }
                assert forall|k: Seq<char>| #[trigger] old(self).override_map().contains_key(k)
                    && !ps.take(count + 1).contains(k) implies self.override_map()[k] == old(self).override_map()[k] by {
                    vstd::seq_lib::lemma_seq_contains_after_push(ps.take(count as int), p@, k);
                }
            }
            count += 1;
        }
        assert(ps.take(paths@.len() as int) =~= ps);
        count
    }
}

/// Applying the pending edit of the selected resource does not change the
/// settings the panel shows for it.
pub proof fn law_apply_keeps_effective<S>(
    p: Seq<char>,
    settings: S,
    overrides: Map<Seq<char>, S>,
    defaults: spec_fn(ImportResourceType) -> Option<S>,
)
    ensures
        effective_of(Some(p), Some((p, settings)), overrides, defaults)
            == effective_of(Some(p), None::<(Seq<char>, S)>, overrides.insert(p, settings), defaults),
        effective_of(Some(p), Some((p, settings)), overrides, defaults) == Some(settings),
{
}

/// Once a resource has no override and no pending edit, it is shown with
/// the default settings of its resource type.
pub proof fn law_removed_override_shows_default<S>(
    p: Seq<char>,
    overrides: Map<Seq<char>, S>,
    defaults: spec_fn(ImportResourceType) -> Option<S>,
)
    ensures
        effective_of(Some(p), None::<(Seq<char>, S)>, overrides.remove(p), defaults) == match type_of_path(p) {
            Some(rt) => defaults(rt),
            None => None,
        },
{
}

} // verus!
