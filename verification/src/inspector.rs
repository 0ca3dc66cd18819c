//! The property inspector's data model: property categories, the object
//! header and class categories, usage flags that decide whether a property
//! is shown, editable or locked, export groups, property hints for custom
//! editors, linked (lock-step) vector components and resource actions.

use vstd::prelude::*;
use crate::table::{string_find, string_set, strings_unique, lemma_string_set_push, lemma_string_set_remove};
use crate::text::{in_list, literal_views, chars_of, owned, starts_with, string_from_chars};
use crate::numeric_expression::{trim_chars, trim_ws};

verus! {

broadcast use vstd::string::group_string_axioms;

/// A category grouping for inspector properties.
#[derive(Debug, Clone, Copy, PartialEq, Eq, Hash, Structural)]
pub enum PropertyCategory {
    /// Transform properties (position, rotation, scale).
    Transform,
    /// Rendering properties (texture, color, visible).
    Rendering,
    /// Physics properties (velocity, mass).
    Physics,
    /// Script or user-defined properties.
    Script,
    /// Anything else.
    Misc,
}

/// Property names that belong to the transform category.
pub open spec fn transform_names() -> Seq<Seq<char>> {
    seq!["position"@, "rotation"@, "scale"@, "transform"@, "global_position"@, "global_rotation"@,
        "global_scale"@, "global_transform"@, "skew"@]
}

/// Property names that belong to the rendering category.
pub open spec fn rendering_names() -> Seq<Seq<char>> {
    seq!["visible"@, "modulate"@, "self_modulate"@, "texture"@, "color"@, "z_index"@, "z_as_relative"@,
        "material"@, "light_mask"@]
}

/// Property names that belong to the physics category.
pub open spec fn physics_names() -> Seq<Seq<char>> {
    seq!["velocity"@, "mass"@, "gravity_scale"@, "linear_velocity"@, "angular_velocity"@, "friction"@,
        "bounce"@]
}

/// The category of a property name: the known transform, rendering and
/// physics names, then names starting with `script_` or `metadata/` as
/// script properties, and everything else as miscellaneous.
pub open spec fn category_of(name: Seq<char>) -> PropertyCategory {
    if transform_names().contains(name) {
        PropertyCategory::Transform
    } else if rendering_names().contains(name) {
        PropertyCategory::Rendering
    } else if physics_names().contains(name) {
        PropertyCategory::Physics
    } else if "script_"@.is_prefix_of(name) || "metadata/"@.is_prefix_of(name) {
        PropertyCategory::Script
    } else {
        PropertyCategory::Misc
    }
}

impl PropertyCategory {
    /// The category of the property named `name`.
    pub fn categorize(name: &str) -> (r: Self)
        ensures
            r == category_of(name@),
    {
        let n = chars_of(name);
        let t = vec!["position", "rotation", "scale", "transform", "global_position", "global_rotation",
            "global_scale", "global_transform", "skew"];
        assert(literal_views(t@) =~= transform_names());
        if in_list(n.as_slice(), &t) {
            return PropertyCategory::Transform;
        }
        let r = vec!["visible", "modulate", "self_modulate", "texture", "color", "z_index", "z_as_relative",
            "material", "light_mask"];
        assert(literal_views(r@) =~= rendering_names());
        if in_list(n.as_slice(), &r) {
            return PropertyCategory::Rendering;
        }
        let p = vec!["velocity", "mass", "gravity_scale", "linear_velocity", "angular_velocity", "friction",
            "bounce"];
        assert(literal_views(p@) =~= physics_names());
        if in_list(n.as_slice(), &p) {
            return PropertyCategory::Physics;
        }
        if starts_with(name, "script_") || starts_with(name, "metadata/") {
            return PropertyCategory::Script;
        }
        PropertyCategory::Misc
    }
}

/// The inspected object's header row: its class (which drives the icon),
/// its name and its scene-tree path.
#[derive(Debug, Clone, PartialEq)]
pub struct ObjectHeader {
    /// The inspected object's class.
    pub class_name: String,
    /// The object or resource name.
    pub name: String,
    /// The object's scene-tree path.
    pub path: String,
}

/// A category row grouping the properties declared by one class.
#[derive(Debug, Clone, PartialEq)]
pub struct ClassCategory {
    /// The declaring class (drives the icon and label).
    pub class_name: String,
    /// The class's properties, in declaration order.
    pub properties: Vec<String>,
}

impl ClassCategory {
    /// The class whose icon the category shows.
    pub fn icon_class(&self) -> (r: &str)
        ensures
            r@ == self.class_name@,
    {
        self.class_name.as_str()
    }
}

/// How a property is presented, from its usage flags.
#[derive(Debug, Clone, Copy, PartialEq, Eq, Structural)]
pub enum InspectorVisibility {
    /// Shown and editable.
    Editable,
    /// Shown but locked.
    ReadOnly,
    /// Not shown.
    Hidden,
}

/// Property usage flags governing whether and how a property appears in
/// the inspector.
#[derive(Debug, Clone, Copy, PartialEq, Eq, Structural)]
pub struct PropertyUsage {
    bits: u32,
}

/// Whether `bits` has any bit of `flag` set.
pub open spec fn has_flag(bits: u32, flag: u32) -> bool {
    bits & flag != 0
}

/// The presentation of a property with usage `bits`: hidden without the
/// editor flag, locked with the read-only flag, editable otherwise.
pub open spec fn visibility_of(bits: u32) -> InspectorVisibility {
    if !has_flag(bits, 2) {
        InspectorVisibility::Hidden
    } else if has_flag(bits, 4) {
        InspectorVisibility::ReadOnly
    } else {
        InspectorVisibility::Editable
    }
}

impl Default for PropertyUsage {
    fn default() -> (r: Self)
        ensures
            r.flags() == 0,
    {
        PropertyUsage { bits: 0 }
    }
}

impl PropertyUsage {
    /// The property is saved.
    pub const STORAGE: u32 = 1;
    /// The property is shown in the inspector.
    pub const EDITOR: u32 = 2;
    /// The property is shown but not editable.
    pub const READ_ONLY: u32 = 4;

    /// The raw flag bits.
    pub closed spec fn flags(&self) -> u32 {
        self.bits
    }

    /// Usage with the given raw flag bits.
    pub fn new(bits: u32) -> (r: Self)
        ensures
            r.flags() == bits,
    {
        PropertyUsage { bits }
    }

    /// Usage with no flags.
    pub fn empty() -> (r: Self)
        ensures
            r.flags() == 0,
    {
        PropertyUsage { bits: 0 }
    }

    /// The usage of a normal exported property: stored and editable.
    pub fn default_usage() -> (r: Self)
        ensures
            r.flags() == 3,
    {
        PropertyUsage { bits: 3 }
    }

    /// A copy with `flag` added.
    pub fn with(self, flag: u32) -> (r: Self)
        ensures
            r.flags() == self.flags() | flag,
    {
        PropertyUsage { bits: self.bits | flag }
    }

    /// Whether any bit of `flag` is set.
    pub fn contains(&self, flag: u32) -> (r: bool)
        ensures
            r == has_flag(self.flags(), flag),
    {
        self.bits & flag != 0
    }

    /// Whether the property is shown (has the editor flag).
    pub fn is_editor_visible(&self) -> (r: bool)
        ensures
            r == has_flag(self.flags(), 2),
    {
        self.contains(Self::EDITOR)
    }

    /// Whether the property is locked (has the read-only flag).
    pub fn is_read_only(&self) -> (r: bool)
        ensures
            r == has_flag(self.flags(), 4),
    {
        self.contains(Self::READ_ONLY)
    }

    /// How the property appears in the inspector.
    pub fn inspector_visibility(&self) -> (r: InspectorVisibility)
        ensures
            r == visibility_of(self.flags()),
    {
        if !self.is_editor_visible() {
            InspectorVisibility::Hidden
        } else if self.is_read_only() {
            InspectorVisibility::ReadOnly
        } else {
            InspectorVisibility::Editable
        }
    }
}

/// Adding a flag never removes one, a property is shown exactly when it
/// carries the editor flag, and adding the read-only flag to a shown
/// property locks it.
pub proof fn law_usage_flags(bits: u32, flag: u32, g: u32)
    ensures
        has_flag(bits, g) ==> has_flag(bits | flag, g),
        flag != 0 ==> has_flag(bits | flag, flag),
        (visibility_of(bits) == InspectorVisibility::Hidden) == !has_flag(bits, 2),
        has_flag(bits, 2) ==> visibility_of(bits | 4) == InspectorVisibility::ReadOnly,
        visibility_of(bits & !2u32) == InspectorVisibility::Hidden,
{
    assert(bits & g != 0 ==> (bits | flag) & g != 0) by (bit_vector);
    assert(flag != 0 ==> (bits | flag) & flag != 0) by (bit_vector);
    assert(bits & 2 != 0 ==> (bits | 4) & 2 != 0) by (bit_vector);
    assert((bits | 4) & 4 != 0) by (bit_vector);
    assert((bits & !2u32) & 2 == 0) by (bit_vector);
}

/// The export group of a script variable.
#[derive(Debug, Clone, PartialEq, Eq)]
pub struct ExportGroup {
    /// The group name.
    pub group: String,
    /// The subgroup name, if any.
    pub subgroup: Option<String>,
}

/// The kind of a layer bitfield.
#[derive(Debug, Clone, Copy, PartialEq, Eq, Structural)]
pub enum LayerType {
    /// 2D physics layers.
    Physics2D,
    /// 2D render layers.
    Render2D,
    /// 3D physics layers.
    Physics3D,
    /// 3D render layers.
    Render3D,
}

/// How a property should be rendered in the inspector.
#[derive(Debug, Clone, PartialEq, Eq)]
pub enum PropertyHint {
    /// The default editor for the property's type.
    NoHint,
    /// A numeric range `min..=max` with a step.
    Range { min: i64, max: i64, step: i64 },
    /// A drop-down of string options.
    Enum(Vec<String>),
    /// A file path selector with an extension filter such as `"*.png"`.
    File(String),
    /// A multi-line text editor.
    MultilineText,
    /// A color picker without alpha.
    ColorNoAlpha,
    /// An exponential range slider.
    ExpRange { min: i64, max: i64, step: i64 },
    /// A flags editor with named bits.
    Flags(Vec<String>),
    /// A layer bitfield.
    Layers { layer_type: LayerType },
    /// A directory picker.
    Dir,
    /// A global (not project-relative) file picker.
    GlobalFile(String),
    /// Placeholder text for empty inputs.
    PlaceholderText(String),
    /// An easing curve editor.
    ExpEasing,
    /// A node path with a filter of valid types.
    NodePathValidTypes(Vec<String>),
    /// The expected resource type of a resource property.
    ResourceType(String),
}

/// A custom property editor descriptor.
#[derive(Debug, Clone)]
pub struct CustomPropertyEditor {
    /// The property this editor applies to.
    pub property_name: String,
    /// The display label, if different from the name.
    pub label: Option<String>,
    /// How to render the editor widget.
    pub hint: PropertyHint,
    /// Whether the property is read-only.
    pub read_only: bool,
    /// The tooltip, if any.
    pub tooltip: Option<String>,
}

/// The characters of an optional string.
pub open spec fn opt_view(o: Option<String>) -> Option<Seq<char>> {
    match o {
        Some(s) => Some(s@),
        None => None,
    }
}

impl CustomPropertyEditor {
    /// An editor for `property_name` with no label, tooltip or hint, and
    /// editable.
    pub fn new(property_name: &str) -> (r: Self)
        ensures
            r.property_name@ == property_name@,
            r.label is None,
            r.hint == PropertyHint::NoHint,
            !r.read_only,
            r.tooltip is None,
    {
        CustomPropertyEditor {
            property_name: owned(property_name),
            label: None,
            hint: PropertyHint::NoHint,
            read_only: false,
            tooltip: None,
        }
    }

    /// Sets the display label.
    pub fn with_label(self, label: &str) -> (r: Self)
        ensures
            opt_view(r.label) == Some(label@),
            r.property_name == self.property_name,
            r.hint == self.hint,
            r.read_only == self.read_only,
            r.tooltip == self.tooltip,
    {
        let mut r = self;
        r.label = Some(owned(label));
        r
    }

    /// Sets the hint.
    pub fn with_hint(self, hint: PropertyHint) -> (r: Self)
        ensures
            r.hint == hint,
            r.property_name == self.property_name,
            r.label == self.label,
            r.read_only == self.read_only,
            r.tooltip == self.tooltip,
    {
        let mut r = self;
        r.hint = hint;
        r
    }

    /// Marks the property read-only.
    pub fn read_only(self) -> (r: Self)
        ensures
            r.read_only,
            r.property_name == self.property_name,
            r.label == self.label,
            r.hint == self.hint,
            r.tooltip == self.tooltip,
    {
        let mut r = self;
        r.read_only = true;
        r
    }

    /// Sets the tooltip.
    pub fn with_tooltip(self, tooltip: &str) -> (r: Self)
        ensures
            opt_view(r.tooltip) == Some(tooltip@),
            r.property_name == self.property_name,
            r.label == self.label,
            r.hint == self.hint,
            r.read_only == self.read_only,
    {
        let mut r = self;
        r.tooltip = Some(owned(tooltip));
        r
    }
}

/// The properties whose vector components are edited in lock-step.
#[derive(Debug, Clone)]
pub struct LinkedValues {
    linked: Vec<String>,
}

impl LinkedValues {
    /// The linked property names.
    pub closed spec fn linked_set(&self) -> Set<Seq<char>> {
        string_set(self.linked@)
    }

    /// No property is listed twice.
    pub closed spec fn wf(&self) -> bool {
        strings_unique(self.linked@)
    }

    /// No linked properties.
    pub fn new() -> (r: Self)
        ensures
            r.wf(),
            r.linked_set() == Set::<Seq<char>>::empty(),
    {
        let r = LinkedValues { linked: Vec::new() };
        assert(r.linked_set() =~= Set::<Seq<char>>::empty());
        r
    }

    /// Enables linked editing for `property`.
    pub fn link(&mut self, property: &str)
        requires
            old(self).wf(),
        ensures
            final(self).wf(),
            final(self).linked_set() == old(self).linked_set().insert(property@),
    {
        match string_find(&self.linked, property) {
            Some(i) => {
                assert(self.linked_set().contains(property@)) by {
                    assert(self.linked@[i as int]@ == property@);
                }
                assert(self.linked_set().insert(property@) =~= self.linked_set());
            },
            None => {
                let s = owned(property);
                proof {
                    lemma_string_set_push(self.linked@, s);
                }
                self.linked.push(s);
            },
        }
    }

    /// Disables linked editing for `property`.
    pub fn unlink(&mut self, property: &str)
        requires
            old(self).wf(),
        ensures
            final(self).wf(),
            final(self).linked_set() == old(self).linked_set().remove(property@),
    {
        match string_find(&self.linked, property) {
            Some(i) => {
                proof {
                    lemma_string_set_remove(self.linked@, i as int);
                }
                self.linked.remove(i);
            },
            None => {
                assert(self.linked_set().remove(property@) =~= self.linked_set());
            },
        }
    }

    /// Toggles linked editing for `property`; returns whether it is now
    /// linked.
    pub fn toggle(&mut self, property: &str) -> (now_linked: bool)
        requires
            old(self).wf(),
        ensures
            final(self).wf(),
            now_linked == !old(self).linked_set().contains(property@),
            now_linked ==> final(self).linked_set() == old(self).linked_set().insert(property@),
            !now_linked ==> final(self).linked_set() == old(self).linked_set().remove(property@),
    {
        if self.is_linked(property) {
            self.unlink(property);
            false
        } else {
            self.link(property);
            true
        }
    }

    /// Whether `property` has linked editing enabled.
    pub fn is_linked(&self, property: &str) -> (r: bool)
        ensures
            r == self.linked_set().contains(property@),
    {
        match string_find(&self.linked, property) {
            Some(i) => {
                assert(self.linked@[i as int]@ == property@);
                true
            },
            None => false,
        }
    }
}

/// Toggling a property twice restores the set of linked properties.
pub proof fn law_toggle_twice(linked: Set<Seq<char>>, p: Seq<char>)
    ensures
        !linked.contains(p) ==> linked.insert(p).remove(p) == linked,
        linked.contains(p) ==> linked.remove(p).insert(p) == linked,
{
    if !linked.contains(p) {
        assert(linked.insert(p).remove(p) =~= linked);
    } else {
        assert(linked.remove(p).insert(p) =~= linked);
    }
}

/// An action of the inspector's resource toolbar.
#[derive(Debug, Clone, Copy, PartialEq, Eq, Structural)]
pub enum ResourceAction {
    /// Open the resource for editing.
    Edit,
    /// Load a resource from disk.
    Load,
    /// Clear the slot.
    Clear,
    /// Save the resource to a new file.
    SaveAs,
    /// Copy the resource reference.
    Copy,
    /// Paste a resource reference.
    Paste,
}

/// The pieces of `s` between commas (`str::split(',')`): one more than the
/// commas, empty ones included.
pub open spec fn comma_pieces(s: Seq<char>) -> Seq<Seq<char>>
    decreases s.len(),
{
    if s.len() == 0 {
        seq![Seq::<char>::empty()]
    } else if s.last() == ',' {
        comma_pieces(s.drop_last()).push(Seq::empty())
    } else {
        let p = comma_pieces(s.drop_last());
        p.update(p.len() - 1, p.last().push(s.last()))
    }
}

/// A comma-separated piece has no comma, and there is always one.
proof fn lemma_comma_pieces_nonempty(s: Seq<char>)
    ensures
        comma_pieces(s).len() >= 1,
    decreases s.len(),
{
    if s.len() > 0 {
        lemma_comma_pieces_nonempty(s.drop_last());
    }
}

/// Keeps the non-empty pieces.
pub open spec fn not_empty() -> spec_fn(Seq<char>) -> bool {
    |p: Seq<char>| p.len() > 0
}

/// The file filters of a file hint such as `"*.png, *.jpg"`: the
/// comma-separated pieces, trimmed of whitespace, without empty ones.
pub open spec fn filters_of(filter: Seq<char>) -> Seq<Seq<char>> {
    comma_pieces(filter).map_values(|p: Seq<char>| trim_ws(p)).filter(not_empty())
}

/// Pushing onto a sequence then filtering keeps the new item exactly when
/// it passes.
proof fn lemma_filter_push(s: Seq<Seq<char>>, x: Seq<char>)
    ensures
        s.push(x).filter(not_empty()) == if x.len() > 0 { s.filter(not_empty()).push(x) } else { s.filter(not_empty()) },
{
    reveal(Seq::filter);
    assert(s.push(x).drop_last() =~= s);
}

/// Splits a file hint's filter list (such as `"*.png, *.jpg"`) on commas,
/// trims each piece and drops empty ones.
pub fn file_filters(filter: &str) -> (r: Vec<String>)
    ensures
        r@.map_values(|f: String| f@) == filters_of(filter@),
{
    let cs = chars_of(filter);
    let ghost fv = filter@;
    let mut out: Vec<String> = Vec::new();
    let mut cur: Vec<char> = Vec::new();
    let ghost mut done: Seq<Seq<char>> = Seq::empty();
    let mut i: usize = 0;
    while i < cs.len()
        invariant
            cs@ == fv,
            i <= cs@.len(),
            comma_pieces(fv.take(i as int)) == done.push(cur@),
            out@.map_values(|f: String| f@) == done.map_values(|p: Seq<char>| trim_ws(p)).filter(not_empty()),
        decreases cs@.len() - i,
    {
        let c = cs[i];
        assert(fv.take(i + 1).drop_last() =~= fv.take(i as int));
        assert(fv.take(i + 1).last() == c);
        if c == ',' {
            let t = trim_chars(cur.as_slice());
            proof {
                lemma_filter_push(done.map_values(|p: Seq<char>| trim_ws(p)), t@);
                assert(done.push(cur@).map_values(|p: Seq<char>| trim_ws(p)) =~= done.map_values(|p: Seq<char>| trim_ws(p)).push(t@));
            }
            if t.len() > 0 {
                let ghost before = out@;
                out.push(string_from_chars(t.as_slice()));
                assert(out@.map_values(|f: String| f@) =~= before.map_values(|f: String| f@).push(t@));
            }
            proof {
                done = done.push(cur@);
            }
            cur = Vec::new();
            assert(comma_pieces(fv.take(i + 1)) =~= done.push(cur@));
        } else {
            let ghost old_cur = cur@;
            cur.push(c);
            assert(comma_pieces(fv.take(i + 1)) =~= done.push(cur@)) by {
                let p = comma_pieces(fv.take(i as int));
                assert(p.last() == old_cur);
                assert(p.update(p.len() - 1, old_cur.push(c)) =~= done.push(cur@));
            }
        }
        i += 1;
    }
    assert(fv.take(cs@.len() as int) =~= fv);
    let t = trim_chars(cur.as_slice());
    proof {
        lemma_filter_push(done.map_values(|p: Seq<char>| trim_ws(p)), t@);
        assert(done.push(cur@).map_values(|p: Seq<char>| trim_ws(p)) =~= done.map_values(|p: Seq<char>| trim_ws(p)).push(t@));
    }
    if t.len() > 0 {
        let ghost before = out@;
        out.push(string_from_chars(t.as_slice()));
        assert(out@.map_values(|f: String| f@) =~= before.map_values(|f: String| f@).push(t@));
    }
    out
}

} // verus!
