//! Export presets: create, edit and delete presets, choose each one's target
//! platform, output path, feature tags and resources, and export a preset,
//! which writes a manifest artifact at its output path.

use vstd::prelude::*;
use std::collections::BTreeMap;
use crate::table::string_views;
use crate::text::{owned, push_str, str_eq};

verus! {

broadcast use vstd::string::group_string_axioms;

/// One line `tag` + item + newline per item, in order.
pub open spec fn tagged_lines(tag: Seq<char>, items: Seq<Seq<char>>) -> Seq<char>
    decreases items.len(),
{
    if items.len() == 0 {
        Seq::empty()
    } else {
        tagged_lines(tag, items.drop_last()) + tag + items.last() + "\n"@
    }
}

/// A single export preset.
#[derive(Debug, Clone, PartialEq, Eq)]
pub struct ExportPreset {
    /// Display name.
    pub name: String,
    /// Target platform (such as `"windows"`, `"linux"`, `"web"`).
    pub platform: String,
    /// Output path the export writes to.
    pub export_path: String,
    /// Feature tags enabled for this preset.
    pub features: Vec<String>,
    /// Resource paths included in the export.
    pub resources: Vec<String>,
}

/// The manifest an export writes: the platform and name lines, then one
/// line per feature tag and one per resource.
pub open spec fn manifest_text(p: ExportPreset) -> Seq<char> {
    "platform="@ + p.platform@ + "\nname="@ + p.name@ + "\n"@
        + tagged_lines("feature="@, string_views(p.features@))
        + tagged_lines("resource="@, string_views(p.resources@))
}

/// Appends one line per item: `tag`, the item, a newline.
fn push_tagged_lines(out: &mut String, tag: &str, items: &Vec<String>)
    ensures
        final(out)@ == old(out)@ + tagged_lines(tag@, string_views(items@)),
{
    let ghost views = string_views(items@);
    let mut i: usize = 0;
    while i < items.len()
        invariant
            views == string_views(items@),
            i <= items@.len(),
            out@ == old(out)@ + tagged_lines(tag@, views.take(i as int)),
        decreases items@.len() - i,
    {
        let ghost before = out@;
        push_str(out, tag);
        push_str(out, items[i].as_str());
        push_str(out, "\n");
        proof {
            assert(views.take(i + 1).drop_last() =~= views.take(i as int));
            assert(views.take(i + 1).last() == views[i as int]);
            assert(out@ =~= old(out)@ + tagged_lines(tag@, views.take(i + 1)));
        }
        i += 1;
    }
    assert(views.take(items@.len() as int) =~= views);
}

impl ExportPreset {
    /// A preset named `name` for `platform`, with no output path, feature
    /// tags or resources.
    fn new(name: &str, platform: &str) -> (r: Self)
        ensures
            r.name@ == name@,
            r.platform@ == platform@,
            r.export_path@ == Seq::<char>::empty(),
            r.features@ == Seq::<String>::empty(),
            r.resources@ == Seq::<String>::empty(),
    {
        ExportPreset {
            name: owned(name),
            platform: owned(platform),
            export_path: String::new(),
            features: Vec::new(),
            resources: Vec::new(),
        }
    }

    /// The contents of the export artifact: a manifest of the preset.
    fn manifest(&self) -> (r: String)
        ensures
            r@ == manifest_text(*self),
    {
        let mut out = owned("platform=");
        push_str(&mut out, self.platform.as_str());
        push_str(&mut out, "\nname=");
        push_str(&mut out, self.name.as_str());
        push_str(&mut out, "\n");
        push_tagged_lines(&mut out, "feature=", &self.features);
        push_tagged_lines(&mut out, "resource=", &self.resources);
        out
    }
}

/// The project's export presets.
#[derive(Debug, Clone, PartialEq, Eq)]
pub struct ExportPresets {
    presets: Vec<ExportPreset>,
}

/// Whether `after` is `before` with entry `i` replaced by a preset that
/// differs from the old one only in what `changed` allows.
pub open spec fn others_unchanged(before: Seq<ExportPreset>, after: Seq<ExportPreset>, i: int) -> bool {
    &&& after.len() == before.len()
    &&& forall|j: int| 0 <= j < before.len() && j != i ==> after[j] == before[j]
}

impl Default for ExportPresets {
    fn default() -> (r: Self)
        ensures
            r.items() == Seq::<ExportPreset>::empty(),
    {
        ExportPresets::new()
    }
}

impl ExportPresets {
    /// The presets, in creation order.
    pub closed spec fn items(&self) -> Seq<ExportPreset> {
        self.presets@
    }

    /// The preset at position `i`.
    pub open spec fn preset_at(&self, i: usize) -> ExportPreset {
        self.items()[i as int]
    }

    /// An empty preset list.
    pub fn new() -> (r: Self)
        ensures
            r.items() == Seq::<ExportPreset>::empty(),
    {
        ExportPresets { presets: Vec::new() }
    }

    /// The number of presets.
    pub fn len(&self) -> (r: usize)
        ensures
            r == self.items().len(),
    {
        self.presets.len()
    }

    /// Whether there are no presets.
    pub fn is_empty(&self) -> (r: bool)
        ensures
            r == (self.items().len() == 0),
    {
        self.presets.len() == 0
    }

    /// The preset at `index`, if any.
    pub fn get(&self, index: usize) -> (r: Option<&ExportPreset>)
        ensures
            index < self.items().len() ==> r == Some(&self.items()[index as int]),
            index >= self.items().len() ==> r is None,
    {
        if index < self.presets.len() {
            Some(&self.presets[index])
        } else {
            None
        }
    }

    /// The first preset named `name`, if any.
    pub fn by_name(&self, name: &str) -> (r: Option<&ExportPreset>)
        ensures
            match r {
                Some(p) => exists|k: int|
                    0 <= k < self.items().len() && *p == #[trigger] self.items()[k] && p.name@ == name@
                        && forall|j: int| 0 <= j < k ==> (#[trigger] self.items()[j]).name@ != name@,
                None => forall|k: int| 0 <= k < self.items().len() ==> (#[trigger] self.items()[k]).name@ != name@,
            },
    {
        let mut i: usize = 0;
        while i < self.presets.len()
            invariant
                i <= self.items().len(),
                forall|j: int| 0 <= j < i ==> (#[trigger] self.items()[j]).name@ != name@,
            decreases self.items().len() - i,
        {
            if str_eq(self.presets[i].name.as_str(), name) {
                assert(self.items()[i as int].name@ == name@);
                return Some(&self.presets[i]);
            }
            i += 1;
        }
        None
    }

    /// Creates a preset named `name` for `platform`; returns its index.
    pub fn create(&mut self, name: &str, platform: &str) -> (index: usize)
        requires
            old(self).items().len() < usize::MAX,
        ensures
            index == old(self).items().len(),
            final(self).items().len() == old(self).items().len() + 1,
            final(self).items().take(index as int) == old(self).items(),
            final(self).items()[index as int].name@ == name@,
            final(self).items()[index as int].platform@ == platform@,
            final(self).items()[index as int].export_path@ == Seq::<char>::empty(),
            final(self).items()[index as int].features@ == Seq::<String>::empty(),
            final(self).items()[index as int].resources@ == Seq::<String>::empty(),
    {
        self.presets.push(ExportPreset::new(name, platform));
        assert(self.items().take(self.items().len() - 1) =~= old(self).items());
        self.presets.len() - 1
    }

    /// Removes the preset at `index`; returns whether it existed.
    pub fn remove(&mut self, index: usize) -> (r: bool)
        ensures
            r == (index < old(self).items().len()),
            r ==> final(self).items() == old(self).items().remove(index as int),
            !r ==> final(self).items() == old(self).items(),
    {
        if index < self.presets.len() {
            self.presets.remove(index);
            true
        } else {
            false
        }
    }

    /// Renames the preset at `index`; returns whether it exists.
    pub fn rename(&mut self, index: usize, name: &str) -> (r: bool)
        ensures
            r == (index < old(self).items().len()),
            !r ==> final(self).items() == old(self).items(),
            r ==> others_unchanged(old(self).items(), final(self).items(), index as int) && ({
                let (o, n) = (old(self).items()[index as int], final(self).items()[index as int]);
                n.name@ == name@ && n.platform == o.platform && n.export_path == o.export_path && n.features
                    == o.features && n.resources == o.resources
            }),
    {
        if index >= self.presets.len() {
            return false;
        }
        let ghost before_items = self.items();
        let mut p = self.presets.remove(index);
        p.name = owned(name);
        self.presets.insert(index, p);
        assert(self.items() =~= before_items.update(index as int, p));
        true
    }

    /// Sets the target platform of the preset at `index`; returns whether it
    /// exists.
    pub fn set_platform(&mut self, index: usize, platform: &str) -> (r: bool)
        ensures
            r == (index < old(self).items().len()),
            !r ==> final(self).items() == old(self).items(),
            r ==> others_unchanged(old(self).items(), final(self).items(), index as int) && ({
                let (o, n) = (old(self).items()[index as int], final(self).items()[index as int]);
                n.platform@ == platform@ && n.name == o.name && n.export_path == o.export_path && n.features
                    == o.features && n.resources == o.resources
            }),
    {
        if index >= self.presets.len() {
            return false;
        }
        let ghost before_items = self.items();
        let mut p = self.presets.remove(index);
        p.platform = owned(platform);
        self.presets.insert(index, p);
        assert(self.items() =~= before_items.update(index as int, p));
        true
    }

    /// Sets the output path of the preset at `index`; returns whether it
    /// exists.
    pub fn set_export_path(&mut self, index: usize, path: &str) -> (r: bool)
        ensures
            r == (index < old(self).items().len()),
            !r ==> final(self).items() == old(self).items(),
            r ==> others_unchanged(old(self).items(), final(self).items(), index as int) && ({
                let (o, n) = (old(self).items()[index as int], final(self).items()[index as int]);
                n.export_path@ == path@ && n.name == o.name && n.platform == o.platform && n.features
                    == o.features && n.resources == o.resources
            }),
    {
        if index >= self.presets.len() {
            return false;
        }
        let ghost before_items = self.items();
        let mut p = self.presets.remove(index);
        p.export_path = owned(path);
        self.presets.insert(index, p);
        assert(self.items() =~= before_items.update(index as int, p));
        true
    }

    /// Adds a feature tag to the preset at `index`; returns whether it
    /// exists.
    pub fn add_feature(&mut self, index: usize, feature: &str) -> (r: bool)
        ensures
            r == (index < old(self).items().len()),
            !r ==> final(self).items() == old(self).items(),
            r ==> others_unchanged(old(self).items(), final(self).items(), index as int) && ({
                let (o, n) = (old(self).items()[index as int], final(self).items()[index as int]);
                string_views(n.features@) == string_views(o.features@).push(feature@) && n.name == o.name
                    && n.platform == o.platform && n.export_path == o.export_path && n.resources == o.resources
            }),
    {
        if index >= self.presets.len() {
            return false;
        }
        let ghost before_items = self.items();
        let mut p = self.presets.remove(index);
        let ghost before = string_views(p.features@);
        p.features.push(owned(feature));
        assert(string_views(p.features@) =~= before.push(feature@));
        self.presets.insert(index, p);
        assert(self.items() =~= before_items.update(index as int, p));
        true
    }

    /// Adds an included resource to the preset at `index`; returns whether
    /// it exists.
    pub fn add_resource(&mut self, index: usize, resource: &str) -> (r: bool)
        ensures
            r == (index < old(self).items().len()),
            !r ==> final(self).items() == old(self).items(),
            r ==> others_unchanged(old(self).items(), final(self).items(), index as int) && ({
                let (o, n) = (old(self).items()[index as int], final(self).items()[index as int]);
                string_views(n.resources@) == string_views(o.resources@).push(resource@) && n.name == o.name
                    && n.platform == o.platform && n.export_path == o.export_path && n.features == o.features
            }),
    {
        if index >= self.presets.len() {
            return false;
        }
        let ghost before_items = self.items();
        let mut p = self.presets.remove(index);
        let ghost before = string_views(p.resources@);
        p.resources.push(owned(resource));
        assert(string_views(p.resources@) =~= before.push(resource@));
        self.presets.insert(index, p);
        assert(self.items() =~= before_items.update(index as int, p));
        true
    }
}

impl ExportPresets {
    /// The artifact that exporting the preset at `index` writes: its output
    /// path and its manifest; `None` when there is no such preset or it has
    /// no output path.
    pub fn export_entry(&self, index: usize) -> (r: Option<(String, String)>)
        ensures
            index >= self.items().len() ==> r is None,
            index < self.items().len() && self.preset_at(index).export_path@.len() == 0 ==> r is None,
            index < self.items().len() && self.preset_at(index).export_path@.len() > 0 ==> (r matches Some(e)
                && e.0@ == self.preset_at(index).export_path@ && e.1@ == manifest_text(self.preset_at(index))),
    {
        if index >= self.presets.len() {
            return None;
        }
        let preset = &self.presets[index];
        if preset.export_path.as_str().is_empty() {
            return None;
        }
        Some((preset.export_path.clone(), preset.manifest()))
    }

    /// Exports the preset at `index` into `out` (path to contents),
    /// writing its manifest at its output path; returns that path, or
    /// `None` (writing nothing) when there is no such preset or it has no
    /// output path. What is written is stated where `String` keys obey
    /// their order's laws.
    pub fn export(&self, index: usize, out: &mut BTreeMap<String, String>) -> (r: Option<String>)
        ensures
            index >= self.items().len() ==> r is None && final(out)@ == old(out)@,
            index < self.items().len() && self.preset_at(index).export_path@.len() == 0 ==> r is None && final(out)@
                == old(out)@,
            index < self.items().len() && self.preset_at(index).export_path@.len() > 0 ==> (r matches Some(path)
                && path@ == self.preset_at(index).export_path@ && (vstd::laws_cmp::obeys_cmp::<String>() ==> exists|
                k: String,
                v: String,
            |
                k@ == path@ && v@ == manifest_text(self.preset_at(index)) && final(out)@ == old(out)@.insert(k, v))),
    {
        match self.export_entry(index) {
            None => None,
            Some((key, contents)) => {
                let path = key.clone();
                out.insert(key, contents);
                Some(path)
            },
        }
    }
}

} // verus!
