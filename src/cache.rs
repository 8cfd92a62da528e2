//! The in-memory tier of the incremental cache: entries keyed by file path,
//! each valid only for the exact text whose fingerprint it stores. The
//! persistent tier reads and writes files; it hands what it read to
//! [`IncrementalCache::promote`] and persists what [`IncrementalCache::entry`]
//! returns.

use std::collections::hash_map::DefaultHasher;
use std::collections::HashMap;
use std::hash::Hasher;
use vstd::prelude::*;
use vstd::std_specs::hash::DefaultHasherAdditionalSpecFns;
use vstd::utf8::encode_utf8;

verus! {

/// A cached result, with the fingerprint of the text it was computed from
/// and the time (seconds since the Unix epoch) it was stored.
#[derive(Clone, Debug)]
pub struct CacheEntry<T> {
    pub content_hash: u64,
    pub modified_at: u64,
    pub data: T,
}

/// The fingerprint of a text: the default hasher fed its UTF-8 bytes.
pub open spec fn fingerprint(content: Seq<char>) -> u64 {
    DefaultHasher::spec_finish(seq![encode_utf8(content)])
}

/// Written after each part of a persisted entry's name; the byte `0xff`
/// never occurs in UTF-8, so the parts cannot run into each other.
pub const PART_END: u8 = 0xff;

/// The fingerprint of a file path together with a cache version, which names
/// the path's persisted entry. Each part is followed by `PART_END`.
pub open spec fn path_fingerprint(path: Seq<char>, version: Seq<char>) -> u64 {
    DefaultHasher::spec_finish(
        seq![encode_utf8(path), seq![PART_END], encode_utf8(version), seq![PART_END]],
    )
}

/// What a lookup of `path` with text `content` finds in `memory`.
pub open spec fn cached<T>(
    memory: Map<Seq<char>, CacheEntry<T>>,
    path: Seq<char>,
    content: Seq<char>,
) -> Option<T> {
    if memory.contains_key(path) && memory[path].content_hash == fingerprint(content) {
        Some(memory[path].data)
    } else {
        None
    }
}

/// `memory` after storing `data` for `path` as computed from `content`.
pub open spec fn stored<T>(
    memory: Map<Seq<char>, CacheEntry<T>>,
    path: Seq<char>,
    content: Seq<char>,
    data: T,
    modified_at: u64,
) -> Map<Seq<char>, CacheEntry<T>> {
    memory.insert(path, CacheEntry { content_hash: fingerprint(content), modified_at, data })
}

/// `memory` after taking in an entry read back for `path`, checked against
/// the current text `content`.
pub open spec fn promoted<T>(
    memory: Map<Seq<char>, CacheEntry<T>>,
    path: Seq<char>,
    content: Seq<char>,
    entry: CacheEntry<T>,
) -> Map<Seq<char>, CacheEntry<T>> {
    if entry.content_hash == fingerprint(content) {
        memory.insert(path, entry)
    } else {
        memory
    }
}

/// Storing and then looking up: the value stored for a text is found for that
/// text, and nothing is found for a text whose fingerprint differs.
pub proof fn lemma_set_then_get<T>(
    memory: Map<Seq<char>, CacheEntry<T>>,
    path: Seq<char>,
    content: Seq<char>,
    other: Seq<char>,
    data: T,
    modified_at: u64,
)
    requires
        fingerprint(other) != fingerprint(content),
    ensures
        cached(stored(memory, path, content, data, modified_at), path, content) == Some(data),
        cached(stored(memory, path, content, data, modified_at), path, other) is None,
{
}

/// Persistence: the entry stored for a text by one cache, taken in by a fresh
/// cache, gives back the same value for the same text.
pub proof fn lemma_persisted_entry_found<T>(
    first: Map<Seq<char>, CacheEntry<T>>,
    path: Seq<char>,
    content: Seq<char>,
    data: T,
    modified_at: u64,
)
    ensures
        ({
            let entry = stored(first, path, content, data, modified_at)[path];
            cached(promoted(Map::empty(), path, content, entry), path, content) == Some(data)
        }),
{
}

pub fn hash_content(content: &str) -> (r: u64)
    ensures
        r == fingerprint(content@),
{
    let mut hasher = DefaultHasher::new();
    hasher.write(content.as_bytes());
    hasher.finish()
}

struct Slot<T> {
    path: String,
    entry: CacheEntry<T>,
}

/// A cache from `(file path, exact text)` to a value of type `T`. Entries
/// are held in buckets keyed by the fingerprint of their path.
pub struct IncrementalCache<T> {
    buckets: HashMap<u64, Vec<Slot<T>>>,
    contents: Ghost<Map<Seq<char>, CacheEntry<T>>>,
    entries: usize,
    cache_dir: String,
    version: String,
}

/// The cache's size and location.
#[derive(Debug)]
pub struct CacheStats {
    pub memory_entries: usize,
    pub cache_dir: String,
}

/// `n`, or `usize::MAX` when it is larger.
pub open spec fn at_most_usize(n: nat) -> nat {
    if n < usize::MAX as nat {
        n
    } else {
        usize::MAX as nat
    }
}

impl<T> IncrementalCache<T> {
    /// The entries held in memory, by file path.
    pub closed spec fn memory(&self) -> Map<Seq<char>, CacheEntry<T>> {
        self.contents@
    }

    pub closed spec fn dir(&self) -> Seq<char> {
        self.cache_dir@
    }

    pub closed spec fn version_of(&self) -> Seq<char> {
        self.version@
    }

    closed spec fn bucket(&self, h: u64) -> Seq<Slot<T>> {
        if self.buckets@.contains_key(h) {
            self.buckets@[h]@
        } else {
            Seq::empty()
        }
    }

    pub closed spec fn wf(&self) -> bool {
        &&& self.contents@.dom().finite()
        &&& self.entries == at_most_usize(self.contents@.len())
        &&& forall|h: u64, i: int|
            0 <= i < self.bucket(h).len() ==> fingerprint((#[trigger] self.bucket(h)[i]).path@) == h
                && self.contents@.contains_key(self.bucket(h)[i].path@)
                && self.contents@[self.bucket(h)[i].path@] == self.bucket(h)[i].entry
        &&& forall|h: u64, i: int, j: int|
            0 <= i < j < self.bucket(h).len() ==> (#[trigger] self.bucket(h)[i]).path@ != (
            #[trigger] self.bucket(h)[j]).path@
        &&& forall|k: Seq<char>|
            #[trigger] self.contents@.contains_key(k) ==> exists|i: int|
                0 <= i < self.bucket(fingerprint(k)).len() && (#[trigger] self.bucket(
                    fingerprint(k),
                )[i]).path@ == k
    }

    /// A well-formed cache holds finitely many entries in memory.
    pub proof fn lemma_memory_finite(&self)
        requires
            self.wf(),
        ensures
            self.memory().dom().finite(),
    {
    }

    /// An empty cache whose persisted entries live under `cache_dir` and are
    /// named with `version`.
    pub fn new(cache_dir: &str, version: &str) -> (r: Self)
        ensures
            r.wf(),
            r.memory().dom().finite(),
            r.memory() == Map::<Seq<char>, CacheEntry<T>>::empty(),
            r.dir() == cache_dir@,
            r.version_of() == version@,
    {
        let r = IncrementalCache {
            buckets: HashMap::new(),
            contents: Ghost(Map::empty()),
            entries: 0,
            cache_dir: cache_dir.to_owned(),
            version: version.to_owned(),
        };
        assert(r.contents@.dom() =~= Set::<Seq<char>>::empty());
        r
    }

    fn find(&self, file_path: &str) -> (r: Option<(u64, usize)>)
        requires
            self.wf(),
        ensures
            match r {
                Some((h, i)) => h == fingerprint(file_path@) && i < self.bucket(h).len()
                    && self.bucket(h)[i as int].path@ == file_path@,
                None => !self.memory().contains_key(file_path@),
            },
    {
        let h = hash_content(file_path);
        match self.buckets.get(&h) {
            Some(b) => {
                assert(b@ == self.bucket(h));
                let key = file_path.to_owned();
                let mut i: usize = 0;
                while i < b.len()
                    invariant
                        self.wf(),
                        b@ == self.bucket(h),
                        h == fingerprint(file_path@),
                        key@ == file_path@,
                        i <= b@.len(),
                        forall|j: int| 0 <= j < i ==> (#[trigger] b@[j]).path@ != file_path@,
                    decreases b@.len() - i,
                {
                    if b[i].path == key {
                        return Some((h, i));
                    }
                    i = i + 1;
                }
                None
            },
            None => {
                assert(self.bucket(h) =~= Seq::<Slot<T>>::empty());
                None
            },
        }
    }

    /// The memory tier's value for `file_path`, if it was stored for text
    /// with the same fingerprint as `content`.
    pub fn get(&self, file_path: &str, content: &str) -> (r: Option<&T>)
        requires
            self.wf(),
        ensures
            match r {
                Some(d) => cached(self.memory(), file_path@, content@) == Some(*d),
                None => cached(self.memory(), file_path@, content@) is None,
            },
    {
        let hash = hash_content(content);
        match self.find(file_path) {
            Some((h, i)) => match self.buckets.get(&h) {
                Some(b) => {
                    if b[i].entry.content_hash == hash {
                        Some(&b[i].entry.data)
                    } else {
                        None
                    }
                },
                None => None,
            },
            None => None,
        }
    }

    /// The whole entry held for `file_path`, whatever text it was made from.
    pub fn entry(&self, file_path: &str) -> (r: Option<&CacheEntry<T>>)
        requires
            self.wf(),
        ensures
            match r {
                Some(e) => self.memory().contains_key(file_path@) && *e == self.memory()[file_path@],
                None => !self.memory().contains_key(file_path@),
            },
    {
        match self.find(file_path) {
            Some((h, i)) => match self.buckets.get(&h) {
                Some(b) => Some(&b[i].entry),
                None => None,
            },
            None => None,
        }
    }

    fn insert(&mut self, file_path: &str, entry: CacheEntry<T>)
        requires
            old(self).wf(),
        ensures
            final(self).wf(),
            final(self).memory() == old(self).memory().insert(file_path@, entry),
            final(self).dir() == old(self).dir(),
            final(self).version_of() == old(self).version_of(),
    {
        let ghost before = self.contents@;
        let ghost e = entry;
        let ghost k = file_path@;
        let h = hash_content(file_path);
        let ghost old_bucket = old(self).bucket(h);
        let mut b: Vec<Slot<T>> = match self.buckets.remove(&h) {
            Some(b) => b,
            None => Vec::new(),
        };
        assert(b@ =~= old_bucket);
        let key = file_path.to_owned();
        let mut i: usize = 0;
        let mut found = false;
        while i < b.len() && !found
            invariant
                b@ == old_bucket,
                key@ == k,
                i <= b@.len(),
                found ==> i < b@.len() && b@[i as int].path@ == k,
                forall|j: int| 0 <= j < i ==> (#[trigger] b@[j]).path@ != k,
            decreases b@.len() - i + (if found { 0int } else { 1int }),
        {
            if b[i].path == key {
                found = true;
            } else {
                i = i + 1;
            }
        }
        let ghost old_len = before.len();
        if found {
            assert(before.contains_key(k)) by {
                assert(old(self).bucket(h)[i as int].path@ == k);
            }
            b.set(i, Slot { path: key, entry });
        } else {
            assert(!before.contains_key(k)) by {
                if before.contains_key(k) {
                    let j = choose|j: int|
                        0 <= j < old(self).bucket(fingerprint(k)).len() && (#[trigger] old(
                            self,
                        ).bucket(fingerprint(k))[j]).path@ == k;
                    assert(old_bucket[j].path@ == k);
                }
            }
            b.push(Slot { path: key, entry });
            self.entries = self.entries.saturating_add(1);
        }
        let ghost nb = b@;
        self.buckets.insert(h, b);
        self.contents = Ghost(before.insert(k, e));
        assert(self.contents@.dom() == before.dom().insert(k));
        assert(forall|g: u64| g != h ==> self.bucket(g) == old(self).bucket(g));
        assert(self.bucket(h) == nb);
        assert forall|g: u64, j: int| 0 <= j < self.bucket(g).len() implies fingerprint(
            (#[trigger] self.bucket(g)[j]).path@,
        ) == g && self.contents@.contains_key(self.bucket(g)[j].path@)
            && self.contents@[self.bucket(g)[j].path@] == self.bucket(g)[j].entry by {
            if g != h {
                assert(self.bucket(g)[j] == old(self).bucket(g)[j]);
                assert(fingerprint(old(self).bucket(g)[j].path@) == g);
            } else if j < old_bucket.len() && j != i {
                assert(nb[j] == old_bucket[j]);
                assert(old(self).bucket(h)[j] == old_bucket[j]);
            }
        }
        assert forall|g: u64, j1: int, j2: int|
            0 <= j1 < j2 < self.bucket(g).len() implies (#[trigger] self.bucket(g)[j1]).path@ != (
            #[trigger] self.bucket(g)[j2]).path@ by {
            if g != h {
                assert(self.bucket(g)[j1] == old(self).bucket(g)[j1]);
                assert(self.bucket(g)[j2] == old(self).bucket(g)[j2]);
            } else {
                if j1 < old_bucket.len() && j1 != i {
                    assert(old(self).bucket(h)[j1] == old_bucket[j1]);
                }
                if j2 < old_bucket.len() && j2 != i {
                    assert(old(self).bucket(h)[j2] == old_bucket[j2]);
                }
            }
        }
        assert forall|q: Seq<char>| #[trigger] self.contents@.contains_key(q) implies exists|j: int|
            0 <= j < self.bucket(fingerprint(q)).len() && (#[trigger] self.bucket(
                fingerprint(q),
            )[j]).path@ == q by {
            if q == k {
                if found {
                    assert(self.bucket(fingerprint(q))[i as int].path@ == q);
                } else {
                    assert(self.bucket(fingerprint(q))[old_bucket.len() as int].path@ == q);
                }
            } else {
                let j = choose|j: int|
                    0 <= j < old(self).bucket(fingerprint(q)).len() && (#[trigger] old(
                        self,
                    ).bucket(fingerprint(q))[j]).path@ == q;
                if fingerprint(q) == h {
                    assert(old_bucket[j].path@ == q);
                    assert(j != i || !found);
                    assert(self.bucket(h)[j] == old_bucket[j]);
                } else {
                    assert(self.bucket(fingerprint(q))[j] == old(self).bucket(fingerprint(q))[j]);
                }
            }
        }
    }

    /// Stores `data` for `file_path` as computed from `content`, stamped with
    /// `modified_at`; any earlier entry for the path is replaced.
    pub fn set(&mut self, file_path: &str, content: &str, data: T, modified_at: u64)
        requires
            old(self).wf(),
        ensures
            final(self).wf(),
            final(self).memory().dom().finite(),
            final(self).memory() == stored(old(self).memory(), file_path@, content@, data, modified_at),
            final(self).dir() == old(self).dir(),
            final(self).version_of() == old(self).version_of(),
    {
        let content_hash = hash_content(content);
        self.insert(file_path, CacheEntry { content_hash, modified_at, data });
    }

    /// Takes in an entry read back from the persistent tier. It is kept, and
    /// `true` returned, only if it was made from text with the same
    /// fingerprint as `content`; otherwise the cache is unchanged.
    pub fn promote(&mut self, file_path: &str, content: &str, stored: CacheEntry<T>) -> (r: bool)
        requires
            old(self).wf(),
        ensures
            final(self).wf(),
            final(self).memory().dom().finite(),
            r == (stored.content_hash == fingerprint(content@)),
            final(self).memory() == promoted(old(self).memory(), file_path@, content@, stored),
            final(self).dir() == old(self).dir(),
            final(self).version_of() == old(self).version_of(),
    {
        let content_hash = hash_content(content);
        if stored.content_hash == content_hash {
            self.insert(file_path, stored);
            true
        } else {
            false
        }
    }

    /// Empties the memory tier.
    pub fn clear(&mut self)
        requires
            old(self).wf(),
        ensures
            final(self).wf(),
            final(self).memory().dom().finite(),
            final(self).memory() == Map::<Seq<char>, CacheEntry<T>>::empty(),
            final(self).dir() == old(self).dir(),
            final(self).version_of() == old(self).version_of(),
    {
        self.buckets = HashMap::new();
        self.entries = 0;
        self.contents = Ghost(Map::empty());
        assert(self.contents@.dom() =~= Set::<Seq<char>>::empty());
    }

    /// The fingerprint that names `file_path`'s persisted entry for this
    /// cache's version.
    pub fn disk_key(&self, file_path: &str) -> (r: u64)
        ensures
            r == path_fingerprint(file_path@, self.version_of()),
    {
        let end: [u8; 1] = [PART_END];
        let mut hasher = DefaultHasher::new();
        hasher.write(file_path.as_bytes());
        hasher.write(&end);
        hasher.write(self.version.as_str().as_bytes());
        hasher.write(&end);
        assert(end@ =~= seq![PART_END]);
        assert(hasher@ =~= seq![
            encode_utf8(file_path@),
            seq![PART_END],
            encode_utf8(self.version@),
            seq![PART_END],
        ]);
        hasher.finish()
    }

    pub fn cache_dir(&self) -> (r: &str)
        ensures
            r@ == self.dir(),
    {
        self.cache_dir.as_str()
    }

    pub fn stats(&self) -> (r: CacheStats)
        requires
            self.wf(),
        ensures
            r.memory_entries == at_most_usize(self.memory().len()),
            r.cache_dir@ == self.dir(),
    {
        CacheStats { memory_entries: self.entries, cache_dir: self.cache_dir.clone() }
    }
}

} // verus!
