//! Import hooks of the file-system dock: importable assets are tracked with
//! the source version they were last imported from and their import
//! settings. A changed source or an edited setting marks an asset stale;
//! processing the stale assets re-imports each one and marks it imported.

use vstd::prelude::*;
use crate::table::{has_key, keys_unique, lemma_table_lookup, lemma_table_push, lemma_table_set, table_find,
    table_view};
use crate::text::owned;

verus! {

broadcast use vstd::string::group_string_axioms;

/// The import state of an asset, as the dock shows it.
#[derive(Debug, Clone, Copy, PartialEq, Eq, Structural)]
pub enum ImportStatus {
    /// Registered but never imported.
    NotImported,
    /// Imported and up to date.
    Imported,
    /// Source or settings changed since the last import.
    Stale,
    /// The last import failed.
    Failed,
}

/// Whether an asset in state `s` needs (re-)importing.
pub open spec fn status_needs_import(s: ImportStatus) -> bool {
    s == ImportStatus::NotImported || s == ImportStatus::Stale
}

/// One tracked importable asset.
#[derive(Debug, Clone)]
pub struct ImportedAsset {
    /// Source file path.
    pub path: String,
    /// Current source version.
    pub source_version: u64,
    /// The source version the current import reflects, if imported.
    pub imported_version: Option<u64>,
    /// Import status.
    pub status: ImportStatus,
    /// Per-asset import settings, as (key, value) pairs with distinct keys.
    pub settings: Vec<(String, String)>,
}

/// The settings of an asset as a map from key to value.
pub open spec fn settings_map(a: ImportedAsset) -> Map<Seq<char>, Seq<char>> {
    table_view(a.settings@).map_values(|v: String| v@)
}

impl ImportedAsset {
    /// Whether this asset needs (re-)importing.
    pub fn needs_import(&self) -> (r: bool)
        ensures
            r == status_needs_import(self.status),
    {
        match self.status {
            ImportStatus::NotImported | ImportStatus::Stale => true,
            _ => false,
        }
    }
}

/// The asset after a re-import: imported at its current source version.
pub open spec fn reimported(a: ImportedAsset) -> ImportedAsset {
    ImportedAsset { imported_version: Some(a.source_version), status: ImportStatus::Imported, ..a }
}

/// The asset after its source changed to version `v`: an imported asset
/// whose import is of another version becomes stale.
pub open spec fn after_source_change(a: ImportedAsset, v: u64) -> ImportedAsset {
    ImportedAsset {
        source_version: v,
        status: if a.imported_version != Some(v) && a.status == ImportStatus::Imported {
            ImportStatus::Stale
        } else {
            a.status
        },
        ..a
    }
}

/// How many of the entries need importing.
pub open spec fn pending_in(s: Seq<(String, ImportedAsset)>) -> nat
    decreases s.len(),
{
    if s.len() == 0 {
        0
    } else {
        pending_in(s.drop_last()) + if status_needs_import(s.last().1.status) { 1nat } else { 0nat }
    }
}

/// Each path is tracked once, every asset's settings have distinct keys,
/// and each asset records the path it is tracked under.
pub open spec fn assets_wf(s: Seq<(String, ImportedAsset)>) -> bool {
    &&& keys_unique(s)
    &&& forall|i: int| 0 <= i < s.len() ==> keys_unique((#[trigger] s[i]).1.settings@)
    &&& forall|i: int| 0 <= i < s.len() ==> (#[trigger] s[i]).1.path@ == s[i].0@
}

/// Replacing the asset at position `i` by a well-formed asset for the same
/// path keeps the table well formed and updates the map at that path.
proof fn lemma_assets_update(s: Seq<(String, ImportedAsset)>, i: int, a: ImportedAsset)
    requires
        assets_wf(s),
        0 <= i < s.len(),
        keys_unique(a.settings@),
        a.path@ == s[i].0@,
    ensures
        assets_wf(s.update(i, (s[i].0, a))),
        table_view(s.update(i, (s[i].0, a))) == table_view(s).insert(s[i].0@, a),
{
    lemma_table_set(s, i, a);
    let t = s.update(i, (s[i].0, a));
    assert forall|j: int| 0 <= j < t.len() implies keys_unique((#[trigger] t[j]).1.settings@) && t[j].1.path@ == t[j].0@ by {
        if j != i {
            assert(t[j] == s[j]);
        }
    }
}

/// The asset after a processing pass: re-imported when it needed it,
/// unchanged otherwise.
pub open spec fn after_processing(a: ImportedAsset) -> ImportedAsset {
    if status_needs_import(a.status) {
        reimported(a)
    } else {
        a
    }
}

/// Applying `after_processing` to every asset of a table applies it to
/// every value of the map, and keeps the table well formed.
proof fn lemma_assets_processed(s: Seq<(String, ImportedAsset)>, t: Seq<(String, ImportedAsset)>)
    requires
        assets_wf(s),
        t.len() == s.len(),
        forall|j: int| 0 <= j < s.len() ==> (#[trigger] t[j]).0 == s[j].0 && t[j].1 == after_processing(s[j].1),
    ensures
        assets_wf(t),
        table_view(t) == table_view(s).map_values(|a: ImportedAsset| after_processing(a)),
{
    assert forall|a: int, b: int| 0 <= a < t.len() && 0 <= b < t.len() && a != b implies t[a].0@ != t[b].0@ by {
        assert(t[a].0 == s[a].0 && t[b].0 == s[b].0);
    }
    assert forall|j: int| 0 <= j < t.len() implies keys_unique((#[trigger] t[j]).1.settings@) && t[j].1.path@ == t[j].0@ by {
        assert(t[j].0 == s[j].0);
        assert(keys_unique(s[j].1.settings@));
    }
    assert forall|k: Seq<char>| #[trigger] has_key(t, k) == has_key(s, k) by {
        if has_key(s, k) {
            let j = choose|j: int| 0 <= j < s.len() && #[trigger] s[j].0@ == k;
            assert(t[j].0 == s[j].0);
        }
        if has_key(t, k) {
            let j = choose|j: int| 0 <= j < t.len() && #[trigger] t[j].0@ == k;
            assert(t[j].0 == s[j].0);
        }
    }
    let m = table_view(s).map_values(|a: ImportedAsset| after_processing(a));
    assert forall|k: Seq<char>| #[trigger] has_key(t, k) implies table_view(t)[k] == m[k] by {
        let j = choose|j: int| 0 <= j < t.len() && #[trigger] t[j].0@ == k;
        assert(t[j].0 == s[j].0);
        lemma_table_lookup(t, j);
        lemma_table_lookup(s, j);
    }
    assert(table_view(t) =~= m);
}

/// No entry is pending when none needs importing; otherwise the count is
/// at most the number of entries.
proof fn lemma_pending_bounds(s: Seq<(String, ImportedAsset)>)
    ensures
        pending_in(s) <= s.len(),
        (forall|j: int| 0 <= j < s.len() ==> !status_needs_import((#[trigger] s[j]).1.status)) ==> pending_in(s) == 0,
    decreases s.len(),
{
    if s.len() > 0 {
        lemma_pending_bounds(s.drop_last());
        if forall|j: int| 0 <= j < s.len() ==> !status_needs_import((#[trigger] s[j]).1.status) {
            assert forall|j: int| 0 <= j < s.drop_last().len() implies !status_needs_import(
                (#[trigger] s.drop_last()[j]).1.status,
            ) by {
                assert(s.drop_last()[j] == s[j]);
            }
            assert(!status_needs_import(s[s.len() - 1].1.status));
        }
    }
}

/// A prefix has no more pending entries than the whole table.
proof fn lemma_pending_prefix(s: Seq<(String, ImportedAsset)>, k: int)
    requires
        0 <= k <= s.len(),
    ensures
        pending_in(s.take(k)) <= pending_in(s),
    decreases s.len(),
{
    if k < s.len() {
        lemma_pending_prefix(s.drop_last(), k);
        assert(s.drop_last().take(k) =~= s.take(k));
    } else {
        assert(s.take(k) =~= s);
    }
}

/// Tracks importable assets by path and re-imports them on change.
#[derive(Debug, Clone)]
pub struct ImportPipeline {
    assets: Vec<(String, ImportedAsset)>,
    reimports: u64,
}

impl ImportPipeline {
    /// The tracked assets by path.
    pub closed spec fn assets_map(&self) -> Map<Seq<char>, ImportedAsset> {
        table_view(self.assets@)
    }

    /// How many tracked assets need importing.
    pub closed spec fn pending(&self) -> nat {
        pending_in(self.assets@)
    }

    /// The number of re-imports performed so far.
    pub closed spec fn reimports_done(&self) -> nat {
        self.reimports as nat
    }

    /// Each path is tracked once, every asset's settings have distinct
    /// keys, and each asset records the path it is tracked under.
    pub closed spec fn wf(&self) -> bool {
        assets_wf(self.assets@)
    }

    /// An empty pipeline.
    pub fn new() -> (r: Self)
        ensures
            r.wf(),
            r.assets_map() == Map::<Seq<char>, ImportedAsset>::empty(),
            r.reimports_done() == 0,
            r.pending() == 0,
    {
        let r = ImportPipeline { assets: Vec::new(), reimports: 0 };
        assert(r.assets_map() =~= Map::<Seq<char>, ImportedAsset>::empty());
        r
    }

    /// Registers an asset at `path` with source `version`, not imported yet;
    /// an already registered path is left as it is. Returns the asset.
    pub fn register(&mut self, path: &str, version: u64) -> (r: &ImportedAsset)
        requires
            old(self).wf(),
        ensures
            final(self).wf(),
            final(self).reimports_done() == old(self).reimports_done(),
            old(self).assets_map().contains_key(path@) ==> final(self).assets_map() == old(self).assets_map(),
            !old(self).assets_map().contains_key(path@) ==> ({
                let a = final(self).assets_map()[path@];
                &&& final(self).assets_map() == old(self).assets_map().insert(path@, a)
                &&& a.path@ == path@ && a.source_version == version && a.imported_version is None
                &&& a.status == ImportStatus::NotImported && a.settings@.len() == 0
                &&& final(self).pending() == old(self).pending() + 1
            }),
            final(self).assets_map().contains_key(path@),
            *r == final(self).assets_map()[path@],
    {
        match table_find(&self.assets, path) {
            Some(i) => {
                proof {
                    lemma_table_lookup(self.assets@, i as int);
                }
                &self.assets[i].1
            },
            None => {
                let asset = ImportedAsset {
                    path: owned(path),
                    source_version: version,
                    imported_version: None,
                    status: ImportStatus::NotImported,
                    settings: Vec::new(),
                };
                let key = owned(path);
                let ghost before = self.assets@;
                proof {
                    lemma_table_push(before, key, asset);
                }
                self.assets.push((key, asset));
                proof {
                    assert(self.assets@.drop_last() =~= before);
                    lemma_table_lookup(self.assets@, before.len() as int);
                }
                let n = self.assets.len();
                &self.assets[n - 1].1
            },
        }
    }

    /// The asset at `path`, if registered.
    pub fn asset(&self, path: &str) -> (r: Option<&ImportedAsset>)
        requires
            self.wf(),
        ensures
            self.assets_map().contains_key(path@) ==> r == Some(&self.assets_map()[path@]),
            !self.assets_map().contains_key(path@) ==> r is None,
    {
        match table_find(&self.assets, path) {
            Some(i) => {
                proof {
                    lemma_table_lookup(self.assets@, i as int);
                }
                Some(&self.assets[i].1)
            },
            None => None,
        }
    }

    /// The import status of `path`, if registered.
    pub fn status(&self, path: &str) -> (r: Option<ImportStatus>)
        requires
            self.wf(),
        ensures
            self.assets_map().contains_key(path@) ==> r == Some(self.assets_map()[path@].status),
            !self.assets_map().contains_key(path@) ==> r is None,
    {
        match self.asset(path) {
            Some(a) => Some(a.status),
            None => None,
        }
    }

    /// Whether `path` is registered and needs (re-)importing.
    pub fn is_stale(&self, path: &str) -> (r: bool)
        requires
            self.wf(),
        ensures
            r == (self.assets_map().contains_key(path@) && status_needs_import(self.assets_map()[path@].status)),
    {
        match self.asset(path) {
            Some(a) => a.needs_import(),
            None => false,
        }
    }

    /// The number of re-imports performed so far.
    pub fn reimport_count(&self) -> (r: u64)
        ensures
            r == self.reimports_done(),
    {
        self.reimports
    }

    /// The import setting `key` of the asset at `path`, if both exist.
    pub fn setting(&self, path: &str, key: &str) -> (r: Option<&str>)
        requires
            self.wf(),
        ensures
            match r {
                Some(v) => self.assets_map().contains_key(path@) && settings_map(self.assets_map()[path@]).contains_key(
                    key@,
                ) && v@ == settings_map(self.assets_map()[path@])[key@],
                None => !self.assets_map().contains_key(path@) || !settings_map(
                    self.assets_map()[path@],
                ).contains_key(key@),
            },
    {
        match table_find(&self.assets, path) {
            Some(i) => {
                proof {
                    lemma_table_lookup(self.assets@, i as int);
                }
                let a = &self.assets[i].1;
                assert(keys_unique(self.assets@[i as int].1.settings@));
                match table_find(&a.settings, key) {
                    Some(j) => {
                        proof {
                            lemma_table_lookup(a.settings@, j as int);
                        }
                        Some(a.settings[j].1.as_str())
                    },
                    None => None,
                }
            },
            None => None,
        }
    }

    /// Sets the import setting `key` of the asset at `path` to `value`,
    /// marking an imported asset stale; returns whether the asset exists.
    pub fn set_setting(&mut self, path: &str, key: &str, value: &str) -> (r: bool)
        requires
            old(self).wf(),
        ensures
            final(self).wf(),
            final(self).reimports_done() == old(self).reimports_done(),
            r == old(self).assets_map().contains_key(path@),
            !r ==> final(self).assets_map() == old(self).assets_map(),
            r ==> ({
                let o = old(self).assets_map()[path@];
                let n = final(self).assets_map()[path@];
                &&& final(self).assets_map() == old(self).assets_map().insert(path@, n)
                &&& settings_map(n) == settings_map(o).insert(key@, value@)
                &&& n.status == (if o.status == ImportStatus::Imported { ImportStatus::Stale } else { o.status })
                &&& n.path == o.path && n.source_version == o.source_version && n.imported_version == o.imported_version
            }),
    {
        match table_find(&self.assets, path) {
            Some(i) => {
                let ghost before = self.assets@;
                proof {
                    lemma_table_lookup(before, i as int);
                }
                let (k, mut a) = self.assets.remove(i);
                let ghost o = a;
                assert(o == before[i as int].1 && k == before[i as int].0);
                let ghost s0 = a.settings@;
                match table_find(&a.settings, key) {
                    Some(j) => {
                        let (sk, _) = a.settings.remove(j);
                        let v = owned(value);
                        proof {
                            lemma_table_set(s0, j as int, v);
                        }
                        a.settings.insert(j, (sk, v));
                        assert(a.settings@ =~= s0.update(j as int, (s0[j as int].0, v)));
                    },
                    None => {
                        let sk = owned(key);
                        let v = owned(value);
                        proof {
                            lemma_table_push(s0, sk, v);
                        }
                        a.settings.push((sk, v));
                    },
                }
                assert(settings_map(a) =~= settings_map(o).insert(key@, value@));
                if a.status == ImportStatus::Imported {
                    a.status = ImportStatus::Stale;
                }
                proof {
                    lemma_assets_update(before, i as int, a);
                }
                self.assets.insert(i, (k, a));
                assert(self.assets@ =~= before.update(i as int, (before[i as int].0, a)));
                proof {
                    lemma_table_lookup(self.assets@, i as int);
                }
                true
            },
            None => false,
        }
    }

    /// Records that the source at `path` changed to `new_version`: an
    /// imported asset whose import is of another version becomes stale.
    /// Returns whether the asset (registered, at another imported version)
    /// now needs importing.
    pub fn source_changed(&mut self, path: &str, new_version: u64) -> (r: bool)
        requires
            old(self).wf(),
        ensures
            final(self).wf(),
            final(self).reimports_done() == old(self).reimports_done(),
            !old(self).assets_map().contains_key(path@) ==> !r && final(self).assets_map() == old(self).assets_map(),
            old(self).assets_map().contains_key(path@) ==> ({
                let o = old(self).assets_map()[path@];
                let n = final(self).assets_map()[path@];
                let changed = o.imported_version != Some(new_version);
                &&& final(self).assets_map() == old(self).assets_map().insert(path@, n)
                &&& n.source_version == new_version
                &&& n.status == (if changed && o.status == ImportStatus::Imported { ImportStatus::Stale } else { o.status })
                &&& n.path == o.path && n.imported_version == o.imported_version && n.settings == o.settings
                &&& r == (changed && status_needs_import(n.status))
                &&& n == after_source_change(o, new_version)
            }),
    {
        match table_find(&self.assets, path) {
            Some(i) => {
                let ghost before = self.assets@;
                proof {
                    lemma_table_lookup(before, i as int);
                }
                let (k, mut a) = self.assets.remove(i);
                assert(a == before[i as int].1 && k == before[i as int].0);
                a.source_version = new_version;
                let changed = match a.imported_version {
                    Some(v) => v != new_version,
                    None => true,
                };
                let mut became = false;
                if changed {
                    if a.status == ImportStatus::Imported {
                        a.status = ImportStatus::Stale;
                    }
                    became = a.needs_import();
                }
                proof {
                    lemma_assets_update(before, i as int, a);
                }
                self.assets.insert(i, (k, a));
                assert(self.assets@ =~= before.update(i as int, (before[i as int].0, a)));
                proof {
                    lemma_table_lookup(self.assets@, i as int);
                }
                became
            },
            None => false,
        }
    }

    /// Re-imports the asset at `path`: it becomes imported at its current
    /// source version. Returns whether the asset exists.
    pub fn reimport(&mut self, path: &str) -> (r: bool)
        requires
            old(self).wf(),
            old(self).reimports_done() < u64::MAX,
        ensures
            final(self).wf(),
            r == old(self).assets_map().contains_key(path@),
            !r ==> final(self).assets_map() == old(self).assets_map() && final(self).reimports_done()
                == old(self).reimports_done(),
            r ==> final(self).assets_map() == old(self).assets_map().insert(path@, reimported(old(self).assets_map()[path@]))
                && final(self).reimports_done() == old(self).reimports_done() + 1,
    {
        match table_find(&self.assets, path) {
            Some(i) => {
                let ghost before = self.assets@;
                proof {
                    lemma_table_lookup(before, i as int);
                }
                let (k, mut a) = self.assets.remove(i);
                let ghost o = a;
                assert(o == before[i as int].1 && k == before[i as int].0);
                a.imported_version = Some(a.source_version);
                a.status = ImportStatus::Imported;
                assert(a == reimported(o));
                proof {
                    lemma_assets_update(before, i as int, a);
                }
                self.assets.insert(i, (k, a));
                assert(self.assets@ =~= before.update(i as int, (before[i as int].0, a)));
                self.reimports = self.reimports + 1;
                true
            },
            None => false,
        }
    }

    /// Re-imports every asset that needs it; returns how many were
    /// re-imported. Afterwards no asset needs importing.
    pub fn process_stale(&mut self) -> (count: usize)
        requires
            old(self).wf(),
            old(self).reimports_done() + old(self).pending() <= u64::MAX,
        ensures
            final(self).wf(),
            count == old(self).pending(),
            final(self).reimports_done() == old(self).reimports_done() + count,
            final(self).assets_map() == old(self).assets_map().map_values(|a: ImportedAsset| after_processing(a)),
            final(self).pending() == 0,
    {
        let ghost s = self.assets@;
        let n = self.assets.len();
        let mut count: usize = 0;
        let mut i: usize = 0;
        proof {
            lemma_pending_bounds(s);
        }
        while i < n
            invariant
                n == s.len(),
                i <= n,
                self.assets@.len() == n,
                assets_wf(s),
                pending_in(s) <= n,
                self.reimports + pending_in(s) <= u64::MAX + pending_in(s.take(i as int)),
                count == pending_in(s.take(i as int)),
                count <= i,
                self.reimports == old(self).reimports + count,
                old(self).reimports + pending_in(s) <= u64::MAX,
                forall|j: int| 0 <= j < i ==> (#[trigger] self.assets@[j]).0 == s[j].0 && self.assets@[j].1
                    == after_processing(s[j].1),
                forall|j: int| i <= j < n ==> #[trigger] self.assets@[j] == s[j],
            decreases n - i,
        {
            proof {
                assert(s.take(i + 1).drop_last() =~= s.take(i as int));
                assert(s.take(i + 1).last() == s[i as int]);
                lemma_pending_prefix(s, i as int + 1);
            }
            if self.assets[i].1.needs_import() {
                let ghost before = self.assets@;
                let (k, mut a) = self.assets.remove(i);
                a.imported_version = Some(a.source_version);
                a.status = ImportStatus::Imported;
                self.assets.insert(i, (k, a));
                assert(self.assets@ =~= before.update(i as int, (before[i as int].0, a)));
                count = count + 1;
                self.reimports = self.reimports + 1;
            }
            i += 1;
        }
        proof {
            assert(s.take(n as int) =~= s);
            lemma_assets_processed(s, self.assets@);
            assert forall|j: int| 0 <= j < n implies !status_needs_import((#[trigger] self.assets@[j]).1.status) by {
                assert(self.assets@[j].1 == after_processing(s[j].1));
            }
            lemma_pending_bounds(self.assets@);
        }
        count
    }
}

/// Editing an imported asset's source makes it stale, and re-importing it
/// brings it back to imported at the new version.
pub proof fn law_edit_then_reimport(a: ImportedAsset, v: u64)
    requires
        a.status == ImportStatus::Imported,
        a.imported_version != Some(v),
    ensures
        after_source_change(a, v).status == ImportStatus::Stale,
        status_needs_import(after_source_change(a, v).status),
        reimported(after_source_change(a, v)).status == ImportStatus::Imported,
        reimported(after_source_change(a, v)).imported_version == Some(v),
        !status_needs_import(reimported(after_source_change(a, v)).status),
{
}

/// Processing the stale assets twice is the same as processing them once.
pub proof fn law_processing_is_idempotent(a: ImportedAsset)
    ensures
        after_processing(after_processing(a)) == after_processing(a),
{
}

} // verus!