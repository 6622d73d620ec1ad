//! Caching what was extracted from files between builds.
//!
//! The caller reads files and their metadata; the caches decide from what was
//! read whether a file must be parsed again.

use vstd::prelude::*;
use vstd::utf8::encode_utf8;

use crate::api::{extracted_models, CodeUnit, ExtractedModel, ExtractedRule};
use crate::lexer::{extract_from_content, file_reqs};
use crate::paths::{components, components_of, same_path};
use crate::refs::{Reqs, ReqsModel};
use crate::text::{byte_count, byte_len, copy_str, str_eq, texts};

verus! {

/// FNV-1a over the first `n` bytes.
pub open spec fn fnv1a(bytes: Seq<u8>, n: int) -> u64
    decreases n,
{
    if n <= 0 {
        0xcbf29ce484222325u64
    } else {
        (fnv1a(bytes, n - 1) ^ (bytes[n - 1] as u64)).wrapping_mul(0x100000001b3u64)
    }
}

/// The FNV-1a hash of a text's UTF-8 bytes.
pub open spec fn text_hash(s: Seq<char>) -> u64 {
    fnv1a(encode_utf8(s), encode_utf8(s).len() as int)
}

/// Simple FNV-1a hash for change detection.
pub fn simple_hash(s: &str) -> (h: u64)
    ensures
        h == text_hash(s@),
{
    let bytes = s.as_bytes();
    let mut hash: u64 = 0xcbf29ce484222325;
    let mut i: usize = 0;
    while i < bytes.len()
        invariant
            i <= bytes@.len(),
            hash == fnv1a(bytes@, i as int),
        decreases bytes@.len() - i,
    {
        hash = (hash ^ (bytes[i] as u64)).wrapping_mul(0x100000001b3);
        i = i + 1;
    }
    hash
}

/// Files that an editor holds, which take precedence over the disk.
pub struct FileOverlay {
    pub files: Vec<(String, String)>,
}

/// The content that an overlay holds for a path.
pub open spec fn overlay_content(files: Seq<(String, String)>, path: Seq<char>) -> Option<Seq<char>>
    decreases files.len(),
{
    if files.len() == 0 {
        None
    } else if components(files.last().0@) == components(path) {
        Some(files.last().1@)
    } else {
        overlay_content(files.drop_last(), path)
    }
}

/// The content that an overlay holds for a path or for what it resolves to.
pub open spec fn overlay_for(
    files: Seq<(String, String)>,
    path: Seq<char>,
    canonical: Seq<char>,
) -> Option<Seq<char>> {
    match overlay_content(files, path) {
        Some(c) => Some(c),
        None => overlay_content(files, canonical),
    }
}

impl FileOverlay {
    fn get(&self, path: &str) -> (r: Option<String>)
        ensures
            crate::text::opt_text(r) == overlay_content(self.files@, path@),
    {
        let parts = components_of(path);
        let mut i: usize = self.files.len();
        assert(self.files@.take(i as int) =~= self.files@);
        while i > 0
            invariant
                i <= self.files@.len(),
                texts(parts@) == components(path@),
                overlay_content(self.files@, path@) == overlay_content(
                    self.files@.take(i as int),
                    path@,
                ),
            decreases i,
        {
            assert(self.files@.take(i as int).drop_last() =~= self.files@.take(i - 1));
            assert(self.files@.take(i as int).last() == self.files@[i - 1]);
            if same_path(&parts, self.files[i - 1].0.as_str()) {
                return Some(copy_str(self.files[i - 1].1.as_str()));
            }
            i = i - 1;
        }
        None
    }

    /// The content that the overlay holds for a path, or for what it resolves
    /// to.
    pub fn lookup(&self, path: &str, canonical: &str) -> (r: Option<String>)
        ensures
            crate::text::opt_text(r) == overlay_for(self.files@, path@, canonical@),
    {
        match self.get(path) {
            Some(c) => Some(c),
            None => self.get(canonical),
        }
    }
}

/// The size and the time of the last change of a file on disk.
#[derive(Debug, Clone, Copy, PartialEq, Eq, Structural)]
pub struct FileStamp {
    pub file_len: u64,
    pub modified_nanos: Option<u128>,
}

/// What a build took from the caches.
#[derive(Debug, Clone, Copy, PartialEq, Eq, Structural)]
pub struct CacheStats {
    pub metadata_hits: u64,
    pub hash_hits: u64,
    pub misses: u64,
    pub reparsed: u64,
}

pub fn no_cache_stats() -> (r: CacheStats)
    ensures
        r == (CacheStats { metadata_hits: 0, hash_hits: 0, misses: 0, reparsed: 0 }),
{
    CacheStats { metadata_hits: 0, hash_hits: 0, misses: 0, reparsed: 0 }
}

/// One more, as far as the counter goes.
pub open spec fn counted(n: u64) -> u64 {
    if n < u64::MAX {
        (n + 1) as u64
    } else {
        n
    }
}

/// A source file as it was last parsed.
pub struct CachedSourceFile {
    pub content_hash: u64,
    pub stamp: FileStamp,
    pub content: String,
    pub reqs: Reqs,
    pub code_units: Vec<CodeUnit>,
}

/// What a cached source file says.
pub struct CachedModel {
    pub content_hash: u64,
    pub stamp: FileStamp,
    pub content: Seq<char>,
    pub reqs: ReqsModel,
    pub code_units: Seq<CodeUnit>,
}

impl View for CachedSourceFile {
    type V = CachedModel;

    open spec fn view(&self) -> CachedModel {
        CachedModel {
            content_hash: self.content_hash,
            stamp: self.stamp,
            content: self.content@,
            reqs: self.reqs@,
            code_units: self.code_units@,
        }
    }
}

/// What a build should do next with a source file.
#[derive(Debug, Clone, Copy, PartialEq, Eq, Structural)]
pub enum SourceStep {
    /// The cache holds the file as it is now.
    Ready,
    /// Ask for the file's metadata.
    NeedMetadata,
    /// Read the file.
    NeedContent,
    /// Parse the content that was handed over.
    NeedParse,
}

/// The cached source files.
pub struct SourceCache {
    entries: Vec<(String, CachedSourceFile)>,
}

/// The entries of a cache; the last one for a path counts.
spec fn source_map(v: Seq<(String, CachedSourceFile)>) -> Map<Seq<char>, CachedModel>
    decreases v.len(),
{
    if v.len() == 0 {
        Map::empty()
    } else {
        source_map(v.drop_last()).insert(v.last().0@, v.last().1@)
    }
}

impl View for SourceCache {
    type V = Map<Seq<char>, CachedModel>;

    closed spec fn view(&self) -> Map<Seq<char>, CachedModel> {
        source_map(self.entries@)
    }
}

/// Every entry holds what its content says, and the hash of that content.
pub open spec fn source_cache_ok(m: Map<Seq<char>, CachedModel>) -> bool {
    forall|p: Seq<char>| #[trigger]
        m.dom().contains(p) ==> m[p].reqs == file_reqs(p, m[p].content) && m[p].content_hash
            == text_hash(m[p].content)
}

/// A file on disk has not changed since it was parsed.
pub open spec fn stamp_matches(m: Map<Seq<char>, CachedModel>, path: Seq<char>, s: FileStamp) -> bool {
    m.dom().contains(path) && m[path].stamp == s
}

/// A content has the hash of the one that was parsed.
pub open spec fn hash_matches(m: Map<Seq<char>, CachedModel>, path: Seq<char>, content: Seq<char>) -> bool {
    m.dom().contains(path) && m[path].content_hash == text_hash(content)
}

impl SourceCache {
    /// An empty cache.
    pub fn new() -> (r: SourceCache)
        ensures
            r@ == Map::<Seq<char>, CachedModel>::empty(),
            source_cache_ok(r@),
    {
        SourceCache { entries: Vec::new() }
    }

    fn position(&self, path: &str) -> (r: Option<usize>)
        ensures
            match r {
                Some(i) => i < self.entries@.len() && self@.dom().contains(path@)
                    && self.entries@[i as int].1@ == self@[path@] && self.entries@[i as int].0@
                    == path@ && forall|j: int|
                    i < j < self.entries@.len() ==> (#[trigger] self.entries@[j]).0@ != path@,
                None => !self@.dom().contains(path@),
            },
    {
        let ghost es = self.entries@;
        let mut i: usize = self.entries.len();
        assert(es.take(i as int) =~= es);
        while i > 0
            invariant
                i <= es.len(),
                es == self.entries@,
                forall|j: int| i <= j < es.len() ==> (#[trigger] es[j]).0@ != path@,
                source_map(es).dom().contains(path@) == source_map(
                    es.take(i as int),
                ).dom().contains(path@),
                source_map(es).dom().contains(path@) ==> source_map(es)[path@] == source_map(
                    es.take(i as int),
                )[path@],
            decreases i,
        {
            assert(es.take(i as int).drop_last() =~= es.take(i - 1));
            assert(es.take(i as int).last() == es[i - 1]);
            if str_eq(self.entries[i - 1].0.as_str(), path) {
                return Some(i - 1);
            }
            i = i - 1;
        }
        assert(es.take(0) =~= Seq::<(String, CachedSourceFile)>::empty());
        None
    }

    /// The file as it was last parsed.
    pub fn lookup(&self, path: &str) -> (r: Option<&CachedSourceFile>)
        ensures
            match r {
                Some(e) => self@.dom().contains(path@) && e@ == self@[path@],
                None => !self@.dom().contains(path@),
            },
    {
        match self.position(path) {
            Some(i) => Some(&self.entries[i].1),
            None => None,
        }
    }

    /// What to do with a file whose metadata was read.
    pub fn on_metadata(&self, path: &str, stamp: FileStamp, stats: &mut CacheStats) -> (r: SourceStep)
        ensures
            r == if stamp_matches(self@, path@, stamp) {
                SourceStep::Ready
            } else {
                SourceStep::NeedContent
            },
            *final(stats) == if stamp_matches(self@, path@, stamp) {
                CacheStats { metadata_hits: counted(old(stats).metadata_hits), ..*old(stats) }
            } else {
                *old(stats)
            },
    {
        let hit = match self.lookup(path) {
            Some(e) => e.stamp.file_len == stamp.file_len && e.stamp.modified_nanos
                == stamp.modified_nanos,
            None => false,
        };
        if hit {
            stats.metadata_hits = stats.metadata_hits.saturating_add(1);
            SourceStep::Ready
        } else {
            SourceStep::NeedContent
        }
    }

    /// What to do with a file whose content was read. `stamp` is that of the
    /// file on disk, or `None` for a file that an editor holds; where the
    /// content is known, the stamp of the entry is brought up to date.
    pub fn on_content(
        &mut self,
        path: &str,
        content: &str,
        stamp: Option<FileStamp>,
        stats: &mut CacheStats,
    ) -> (r: SourceStep)
        ensures
            r == if hash_matches(old(self)@, path@, content@) {
                SourceStep::Ready
            } else {
                SourceStep::NeedParse
            },
            *final(stats) == if hash_matches(old(self)@, path@, content@) {
                CacheStats { hash_hits: counted(old(stats).hash_hits), ..*old(stats) }
            } else {
                *old(stats)
            },
            final(self)@ == match stamp {
                Some(s) => if hash_matches(old(self)@, path@, content@) {
                    old(self)@.insert(path@, CachedModel { stamp: s, ..old(self)@[path@] })
                } else {
                    old(self)@
                },
                None => old(self)@,
            },
            source_cache_ok(old(self)@) ==> source_cache_ok(final(self)@),
    {
        let hash = simple_hash(content);
        let at = match self.position(path) {
            Some(i) => i,
            None => {
                return SourceStep::NeedParse;
            },
        };
        if self.entries[at].1.content_hash != hash {
            return SourceStep::NeedParse;
        }
        stats.hash_hits = stats.hash_hits.saturating_add(1);
        match stamp {
            Some(s) => {
                let ghost before = self.entries@;
                let (p, mut entry) = self.entries.remove(at);
                entry.stamp = s;
                self.entries.insert(at, (p, entry));
                proof {
                    assert(self.entries@ =~= before.update(at as int, (p, entry)));
                    lemma_source_map_update(before, at as int, (p, entry));
                }
            },
            None => {},
        }
        SourceStep::Ready
    }

    /// Take in a file that was parsed again. `stamp` is that of the file on
    /// disk, or `None` for a file that an editor holds.
    pub fn on_parsed(
        &mut self,
        path: &str,
        content: String,
        stamp: Option<FileStamp>,
        code_units: Vec<CodeUnit>,
        stats: &mut CacheStats,
    )
        ensures
            final(self)@ == old(self)@.insert(
                path@,
                CachedModel {
                    content_hash: text_hash(content@),
                    stamp: match stamp {
                        Some(s) => s,
                        None => FileStamp {
                            file_len: byte_len(content@) as u64,
                            modified_nanos: None,
                        },
                    },
                    content: content@,
                    reqs: file_reqs(path@, content@),
                    code_units: code_units@,
                },
            ),
            *final(stats) == (CacheStats {
                misses: counted(old(stats).misses),
                reparsed: counted(old(stats).reparsed),
                ..*old(stats)
            }),
            source_cache_ok(old(self)@) ==> source_cache_ok(final(self)@),
    {
        let content_hash = simple_hash(content.as_str());
        let reqs = extract_from_content(path, content.as_str());
        let len = byte_count(content.as_str());
        let stamp = match stamp {
            Some(s) => s,
            None => FileStamp { file_len: len as u64, modified_nanos: None },
        };
        stats.misses = stats.misses.saturating_add(1);
        stats.reparsed = stats.reparsed.saturating_add(1);
        let entry = CachedSourceFile { content_hash, stamp, content, reqs, code_units };
        let ghost before = self.entries@;
        self.entries.push((copy_str(path), entry));
        assert(self.entries@.drop_last() =~= before);
    }
}

/// How a build begins with a source file: with the content that an editor
/// holds, or by asking for metadata.
pub fn begin_source(overlay: &FileOverlay, path: &str, canonical: &str) -> (r: (
    SourceStep,
    Option<String>,
))
    ensures
        crate::text::opt_text(r.1) == overlay_for(overlay.files@, path@, canonical@),
        r.0 == if r.1 is Some {
            SourceStep::NeedContent
        } else {
            SourceStep::NeedMetadata
        },
{
    match overlay.lookup(path, canonical) {
        Some(c) => (SourceStep::NeedContent, Some(c)),
        None => (SourceStep::NeedMetadata, None),
    }
}

proof fn lemma_source_map_update(v: Seq<(String, CachedSourceFile)>, i: int, e: (String, CachedSourceFile))
    requires
        0 <= i < v.len(),
        v[i].0@ == e.0@,
        forall|j: int| i < j < v.len() ==> (#[trigger] v[j]).0@ != e.0@,
    ensures
        source_map(v.update(i, e)) == source_map(v).insert(e.0@, e.1@),
    decreases v.len(),
{
    let w = v.update(i, e);
    if i == v.len() - 1 {
        assert(w.drop_last() =~= v.drop_last());
        assert(source_map(w) =~= source_map(v).insert(e.0@, e.1@));
    } else {
        assert(w.drop_last() =~= v.drop_last().update(i, e));
        assert(w.last() == v.last());
        assert(v[v.len() - 1].0@ != e.0@);
        lemma_source_map_update(v.drop_last(), i, e);
        assert(source_map(w) =~= source_map(v).insert(e.0@, e.1@));
    }
}

/// A file that was just parsed need not be parsed again for the same content.
pub proof fn law_parsed_content_is_known(
    m: Map<Seq<char>, CachedModel>,
    path: Seq<char>,
    entry: CachedModel,
)
    requires
        entry.content_hash == text_hash(entry.content),
    ensures
        hash_matches(m.insert(path, entry), path, entry.content),
        stamp_matches(m.insert(path, entry), path, entry.stamp),
{
}

/// The cached rules of a spec document.
pub struct CachedSpecFile {
    pub content_hash: u64,
    pub stamp: FileStamp,
    pub extracted_rules: Vec<ExtractedRule>,
}

/// What a cached spec document says.
pub struct CachedSpecModel {
    pub content_hash: u64,
    pub stamp: FileStamp,
    pub extracted_rules: Seq<ExtractedModel>,
}

impl View for CachedSpecFile {
    type V = CachedSpecModel;

    open spec fn view(&self) -> CachedSpecModel {
        CachedSpecModel {
            content_hash: self.content_hash,
            stamp: self.stamp,
            extracted_rules: extracted_models(self.extracted_rules@),
        }
    }
}

/// The cached spec documents.
pub struct SpecCache {
    entries: Vec<(String, CachedSpecFile)>,
}

spec fn spec_map(v: Seq<(String, CachedSpecFile)>) -> Map<Seq<char>, CachedSpecModel>
    decreases v.len(),
{
    if v.len() == 0 {
        Map::empty()
    } else {
        spec_map(v.drop_last()).insert(v.last().0@, v.last().1@)
    }
}

impl View for SpecCache {
    type V = Map<Seq<char>, CachedSpecModel>;

    closed spec fn view(&self) -> Map<Seq<char>, CachedSpecModel> {
        spec_map(self.entries@)
    }
}

/// Why a cached spec document can be used.
#[derive(Debug, Clone, Copy, PartialEq, Eq, Structural)]
pub enum SpecHit {
    /// Its file has not changed.
    Metadata,
    /// Its content has the same hash.
    Hash,
    /// It cannot.
    Miss,
}

/// Whether a cached spec document can be used. A file that an editor holds has
/// no metadata to go by.
pub open spec fn spec_hit(
    m: Map<Seq<char>, CachedSpecModel>,
    path: Seq<char>,
    content: Seq<char>,
    stamp: FileStamp,
    in_editor: bool,
) -> SpecHit {
    if !m.dom().contains(path) {
        SpecHit::Miss
    } else if !in_editor && m[path].stamp == stamp {
        SpecHit::Metadata
    } else if m[path].content_hash == text_hash(content) {
        SpecHit::Hash
    } else {
        SpecHit::Miss
    }
}

impl SpecCache {
    /// An empty cache.
    pub fn new() -> (r: SpecCache)
        ensures
            r@ == Map::<Seq<char>, CachedSpecModel>::empty(),
    {
        SpecCache { entries: Vec::new() }
    }

    fn position(&self, path: &str) -> (r: Option<usize>)
        ensures
            match r {
                Some(i) => i < self.entries@.len() && self@.dom().contains(path@)
                    && self.entries@[i as int].1@ == self@[path@] && self.entries@[i as int].0@
                    == path@ && forall|j: int|
                    i < j < self.entries@.len() ==> (#[trigger] self.entries@[j]).0@ != path@,
                None => !self@.dom().contains(path@),
            },
    {
        let ghost es = self.entries@;
        let mut i: usize = self.entries.len();
        assert(es.take(i as int) =~= es);
        while i > 0
            invariant
                i <= es.len(),
                es == self.entries@,
                forall|j: int| i <= j < es.len() ==> (#[trigger] es[j]).0@ != path@,
                spec_map(es).dom().contains(path@) == spec_map(es.take(i as int)).dom().contains(
                    path@,
                ),
                spec_map(es).dom().contains(path@) ==> spec_map(es)[path@] == spec_map(
                    es.take(i as int),
                )[path@],
            decreases i,
        {
            assert(es.take(i as int).drop_last() =~= es.take(i - 1));
            assert(es.take(i as int).last() == es[i - 1]);
            if str_eq(self.entries[i - 1].0.as_str(), path) {
                return Some(i - 1);
            }
            i = i - 1;
        }
        assert(es.take(0) =~= Seq::<(String, CachedSpecFile)>::empty());
        None
    }

    /// The rules of a spec document as they were last extracted.
    pub fn lookup(&self, path: &str) -> (r: Option<&CachedSpecFile>)
        ensures
            match r {
                Some(e) => self@.dom().contains(path@) && e@ == self@[path@],
                None => !self@.dom().contains(path@),
            },
    {
        match self.position(path) {
            Some(i) => Some(&self.entries[i].1),
            None => None,
        }
    }

    /// Decide whether a spec document must be parsed again, from what was read.
    /// Where its content is known, the stamp of the entry is brought up to date.
    pub fn on_read(
        &mut self,
        path: &str,
        content: &str,
        stamp: FileStamp,
        in_editor: bool,
        stats: &mut CacheStats,
    ) -> (r: SpecHit)
        ensures
            r == spec_hit(old(self)@, path@, content@, stamp, in_editor),
            final(self)@ == if r == SpecHit::Hash {
                old(self)@.insert(path@, CachedSpecModel { stamp, ..old(self)@[path@] })
            } else {
                old(self)@
            },
            *final(stats) == match r {
                SpecHit::Metadata => CacheStats {
                    metadata_hits: counted(old(stats).metadata_hits),
                    ..*old(stats)
                },
                SpecHit::Hash => CacheStats {
                    hash_hits: counted(old(stats).hash_hits),
                    ..*old(stats)
                },
                SpecHit::Miss => *old(stats),
            },
    {
        let hash = simple_hash(content);
        let at = match self.position(path) {
            Some(i) => i,
            None => {
                return SpecHit::Miss;
            },
        };
        let e = &self.entries[at].1;
        if !in_editor && e.stamp.file_len == stamp.file_len && e.stamp.modified_nanos
            == stamp.modified_nanos {
            stats.metadata_hits = stats.metadata_hits.saturating_add(1);
            return SpecHit::Metadata;
        }
        if e.content_hash != hash {
            return SpecHit::Miss;
        }
        stats.hash_hits = stats.hash_hits.saturating_add(1);
        let ghost before = self.entries@;
        let (p, mut entry) = self.entries.remove(at);
        entry.stamp = stamp;
        self.entries.insert(at, (p, entry));
        proof {
            assert(self.entries@ =~= before.update(at as int, (p, entry)));
            lemma_spec_map_update(before, at as int, (p, entry));
        }
        SpecHit::Hash
    }

    /// Take in a spec document that was parsed again.
    pub fn on_parsed(
        &mut self,
        path: &str,
        content: &str,
        stamp: FileStamp,
        extracted_rules: Vec<ExtractedRule>,
        stats: &mut CacheStats,
    )
        ensures
            final(self)@ == old(self)@.insert(
                path@,
                CachedSpecModel {
                    content_hash: text_hash(content@),
                    stamp,
                    extracted_rules: extracted_models(extracted_rules@),
                },
            ),
            *final(stats) == (CacheStats {
                misses: counted(old(stats).misses),
                reparsed: counted(old(stats).reparsed),
                ..*old(stats)
            }),
    {
        let content_hash = simple_hash(content);
        stats.misses = stats.misses.saturating_add(1);
        stats.reparsed = stats.reparsed.saturating_add(1);
        let ghost before = self.entries@;
        self.entries.push(
            (copy_str(path), CachedSpecFile { content_hash, stamp, extracted_rules }),
        );
        assert(self.entries@.drop_last() =~= before);
    }
}

proof fn lemma_spec_map_update(v: Seq<(String, CachedSpecFile)>, i: int, e: (String, CachedSpecFile))
    requires
        0 <= i < v.len(),
        v[i].0@ == e.0@,
        forall|j: int| i < j < v.len() ==> (#[trigger] v[j]).0@ != e.0@,
    ensures
        spec_map(v.update(i, e)) == spec_map(v).insert(e.0@, e.1@),
    decreases v.len(),
{
    let w = v.update(i, e);
    if i == v.len() - 1 {
        assert(w.drop_last() =~= v.drop_last());
        assert(spec_map(w) =~= spec_map(v).insert(e.0@, e.1@));
    } else {
        assert(w.drop_last() =~= v.drop_last().update(i, e));
        assert(w.last() == v.last());
        assert(v[v.len() - 1].0@ != e.0@);
        lemma_spec_map_update(v.drop_last(), i, e);
        assert(spec_map(w) =~= spec_map(v).insert(e.0@, e.1@));
    }
}

/// What is kept between builds.
pub struct BuildCache {
    pub source_files: SourceCache,
    pub spec_files: SpecCache,
}

impl BuildCache {
    pub fn new() -> (r: BuildCache)
        ensures
            r.source_files@ == Map::<Seq<char>, CachedModel>::empty(),
            r.spec_files@ == Map::<Seq<char>, CachedSpecModel>::empty(),
    {
        BuildCache { source_files: SourceCache::new(), spec_files: SpecCache::new() }
    }
}

impl Default for BuildCache {
    fn default() -> (r: BuildCache)
        ensures
            r.source_files@ == Map::<Seq<char>, CachedModel>::empty(),
            r.spec_files@ == Map::<Seq<char>, CachedSpecModel>::empty(),
    {
        BuildCache::new()
    }
}

} // verus!
