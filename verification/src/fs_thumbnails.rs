//! FileSystem dock thumbnail previews: previewable assets (textures, scenes,
//! resources) get a generated thumbnail, cached per path and tagged with the
//! source version it was rendered from; a request with a new version
//! regenerates it, a request with the cached version reuses it.

use vstd::prelude::*;
use crate::table::{has_key, keys_unique, lemma_table_lookup, lemma_table_push, lemma_table_remove, lemma_table_set, table_find, table_view};
use crate::text::owned;

verus! {

broadcast use vstd::string::group_string_axioms;

/// The kind of a file in the dock, which decides whether it gets a
/// thumbnail.
#[derive(Debug, Clone, Copy, PartialEq, Eq, Structural)]
pub enum FileKind {
    /// An image/texture asset (png, jpg, ...).
    Texture,
    /// A scene file (`.tscn`/`.scn`).
    Scene,
    /// Another previewable resource (`.tres`/`.res`).
    Resource,
    /// A non-previewable file (scripts, text, ...).
    Other,
}

impl FileKind {
    /// Whether files of this kind get a generated thumbnail.
    pub open spec fn spec_previewable(self) -> bool {
        !(self is Other)
    }

    /// Whether files of this kind get a generated thumbnail.
    #[verifier::when_used_as_spec(spec_previewable)]
    pub fn previewable(self) -> (r: bool)
        ensures
            r == self.spec_previewable(),
    {
        !matches!(self, FileKind::Other)
    }
}

/// A generated thumbnail for a source file.
#[derive(Debug, Clone, Copy, PartialEq, Eq)]
pub struct Thumbnail {
    /// The kind of source the thumbnail was generated from.
    pub kind: FileKind,
    /// The source version this thumbnail reflects.
    pub source_version: u64,
    /// A deterministic signature of the rendered pixels (derived from
    /// source).
    pub signature: u64,
    /// The thumbnail size in pixels (width, height).
    pub size: (u32, u32),
}

/// The FNV-1a 64-bit offset basis.
pub const FNV_OFFSET: u64 = 0xcbf29ce484222325;

/// The FNV-1a 64-bit prime.
pub const FNV_PRIME: u64 = 0x100000001b3;

/// FNV-1a 64-bit hash of the first `n` bytes: xor in each byte, then
/// multiply by the prime, modulo 2^64.
pub open spec fn fnv1a(bytes: Seq<u8>, n: int) -> u64
    decreases n,
{
    if n <= 0 {
        FNV_OFFSET
    } else {
        vstd::wrapping::u64_specs::wrapping_mul(fnv1a(bytes, n - 1) ^ (bytes[n - 1] as u64), FNV_PRIME)
    }
}

/// FNV-1a 64-bit hash — a small, deterministic content signature.
pub fn signature_of(content: &[u8]) -> (h: u64)
    ensures
        h == fnv1a(content@, content@.len() as int),
{
    let mut hash: u64 = FNV_OFFSET;
    let mut i: usize = 0;
    while i < content.len()
        invariant
            i <= content@.len(),
            hash == fnv1a(content@, i as int),
        decreases content@.len() - i,
    {
        hash = hash ^ (content[i] as u64);
        hash = hash.wrapping_mul(FNV_PRIME);
        i += 1;
    }
    hash
}

/// A cache of file thumbnails keyed by path, refreshing on source change.
#[derive(Debug, Clone)]
pub struct ThumbnailCache {
    width: u32,
    height: u32,
    entries: Vec<(String, Thumbnail)>,
    generations: u64,
}

impl ThumbnailCache {
    /// The cached thumbnails by path.
    pub closed spec fn view(&self) -> Map<Seq<char>, Thumbnail> {
        table_view(self.entries@)
    }

    /// The size thumbnails are rendered at.
    pub closed spec fn render_size(&self) -> (u32, u32) {
        (self.width, self.height)
    }

    /// How many thumbnails were generated so far.
    pub closed spec fn generations(&self) -> u64 {
        self.generations
    }

    /// Paths are distinct.
    pub closed spec fn wf(&self) -> bool {
        keys_unique(self.entries@)
    }

    /// Creates a cache that renders thumbnails at `size` pixels.
    pub fn new(size: (u32, u32)) -> (c: Self)
        ensures
            c.wf(),
            c.view() == Map::<Seq<char>, Thumbnail>::empty(),
            c.render_size() == size,
            c.generations() == 0,
    {
        let c = ThumbnailCache { width: size.0, height: size.1, entries: Vec::new(), generations: 0 };
        assert(c.view() =~= Map::<Seq<char>, Thumbnail>::empty());
        c
    }

    /// The number of thumbnails currently cached.
    pub fn len(&self) -> (n: usize)
        requires
            self.wf(),
        ensures
            n == self.view().len(),
    {
        proof { self.lemma_len(); }
        self.entries.len()
    }

    /// Whether the cache is empty.
    pub fn is_empty(&self) -> (b: bool)
        requires
            self.wf(),
        ensures
            b == (self.view().len() == 0),
    {
        proof { self.lemma_len(); }
        self.entries.len() == 0
    }

    proof fn lemma_len(&self)
        requires
            self.wf(),
        ensures
            self.view().len() == self.entries@.len(),
            self.view().dom().finite(),
    {
        lemma_table_len(self.entries@);
    }

    /// How many thumbnails have been generated over the cache's lifetime
    /// (renders + refreshes). Re-requesting an up-to-date thumbnail does not
    /// increment this.
    pub fn generation_count(&self) -> (n: u64)
        ensures
            n == self.generations(),
    {
        self.generations
    }

    /// The cached thumbnail for `path`, if any.
    pub fn get(&self, path: &str) -> (r: Option<&Thumbnail>)
        requires
            self.wf(),
        ensures
            match r {
                Some(t) => self.view().contains_key(path@) && *t == self.view()[path@],
                None => !self.view().contains_key(path@),
            },
    {
        match table_find(&self.entries, path) {
            Some(i) => {
                proof { lemma_table_lookup(self.entries@, i as int); }
                Some(&self.entries[i].1)
            },
            None => None,
        }
    }

    /// Requests the thumbnail for `path` (a `kind` file whose current source
    /// is `content` at `version`). Previewable kinds render on first request
    /// and re-render whenever `version` changes; non-previewable kinds return
    /// `None` and leave the cache alone. Returns the up-to-date thumbnail.
    pub fn thumbnail(&mut self, path: &str, kind: FileKind, content: &[u8], version: u64) -> (r: Option<&Thumbnail>)
        requires
            old(self).wf(),
            old(self).generations() < u64::MAX,
        ensures
            final(self).wf(),
            final(self).render_size() == old(self).render_size(),
            !kind.spec_previewable() ==> r is None && final(self).view() == old(self).view()
                && final(self).generations() == old(self).generations(),
            kind.spec_previewable() && old(self).view().contains_key(path@)
                && old(self).view()[path@].source_version == version ==> {
                &&& final(self).view() == old(self).view()
                &&& final(self).generations() == old(self).generations()
                &&& r == Some(&old(self).view()[path@])
            },
            kind.spec_previewable() && !(old(self).view().contains_key(path@)
                && old(self).view()[path@].source_version == version) ==> {
                let t = Thumbnail {
                    kind,
                    source_version: version,
                    signature: fnv1a(content@, content@.len() as int),
                    size: old(self).render_size(),
                };
                &&& final(self).view() == old(self).view().insert(path@, t)
                &&& final(self).generations() == old(self).generations() + 1
                &&& r == Some(&t)
            },
    {
        if !kind.previewable() {
            return None;
        }
        match table_find(&self.entries, path) {
            Some(i) => {
                proof { lemma_table_lookup(self.entries@, i as int); }
                if self.entries[i].1.source_version == version {
                    return Some(&self.entries[i].1);
                }
                let thumb = Thumbnail {
                    kind,
                    source_version: version,
                    signature: signature_of(content),
                    size: (self.width, self.height),
                };
                let key = self.entries[i].0.clone();
                proof { lemma_table_set(self.entries@, i as int, thumb); }
                self.entries.set(i, (key, thumb));
                self.generations = self.generations + 1;
                proof { lemma_table_lookup(self.entries@, i as int); }
                Some(&self.entries[i].1)
            },
            None => {
                let thumb = Thumbnail {
                    kind,
                    source_version: version,
                    signature: signature_of(content),
                    size: (self.width, self.height),
                };
                let key = owned(path);
                proof { lemma_table_push(self.entries@, key, thumb); }
                self.entries.push((key, thumb));
                self.generations = self.generations + 1;
                let last = self.entries.len() - 1;
                proof { lemma_table_lookup(self.entries@, last as int); }
                Some(&self.entries[last].1)
            },
        }
    }

    /// Drops the cached thumbnail for `path` (e.g. when the file is deleted).
    /// Returns whether one was cached.
    pub fn invalidate(&mut self, path: &str) -> (removed: bool)
        requires
            old(self).wf(),
        ensures
            final(self).wf(),
            removed == old(self).view().contains_key(path@),
            final(self).view() == old(self).view().remove(path@),
            final(self).generations() == old(self).generations(),
            final(self).render_size() == old(self).render_size(),
    {
        match table_find(&self.entries, path) {
            Some(i) => {
                proof {
                    lemma_table_lookup(self.entries@, i as int);
                    lemma_table_remove(self.entries@, i as int);
                }
                self.entries.remove(i);
                true
            },
            None => {
                assert(old(self).view().remove(path@) =~= old(self).view());
                false
            },
        }
    }
}

/// A table with distinct keys has as many map entries as vector entries.
pub proof fn lemma_table_len<V>(s: Seq<(String, V)>)
    requires
        keys_unique(s),
    ensures
        table_view(s).dom().finite(),
        table_view(s).len() == s.len(),
    decreases s.len(),
{
    if s.len() == 0 {
        assert(table_view(s).dom() =~= Set::<Seq<char>>::empty());
    } else {
        let init = s.drop_last();
        assert(keys_unique(init)) by {
            assert forall|i: int, j: int| 0 <= i < init.len() && 0 <= j < init.len() && i != j implies init[i].0@ != init[j].0@ by {
                assert(init[i] == s[i] && init[j] == s[j]);
            }
        }
        lemma_table_len(init);
        assert(!has_key(init, s.last().0@)) by {
            if has_key(init, s.last().0@) {
                let i = choose|i: int| 0 <= i < init.len() && #[trigger] init[i].0@ == s.last().0@;
                assert(init[i] == s[i]);
            }
        }
        lemma_table_push(init, s.last().0, s.last().1);
        assert(init.push((s.last().0, s.last().1)) =~= s);
    }
}

} // verus!
