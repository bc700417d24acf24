//! Change-detection cache: a mapping from file path to the last seen
//! modification time and content hash of that file.
use vstd::prelude::*;

verus! {

/// A point in time as whole seconds from the Unix epoch (negative before
/// it) and nanoseconds past that second.
#[derive(Clone, Copy, Debug, PartialEq, Eq, Structural)]
pub struct Timestamp {
    pub secs: i64,
    pub nanos: u32,
}

/// What the cache records of one file.
#[derive(Debug)]
pub struct FileMetadata {
    pub modified: Timestamp,
    pub hash: Option<String>,
}

/// The mathematical value of a `FileMetadata`.
pub struct MetadataView {
    pub modified: Timestamp,
    pub hash: Option<Seq<char>>,
}

/// The view of an optional string.
pub open spec fn opt_view(o: Option<String>) -> Option<Seq<char>> {
    match o {
        Some(s) => Some(s@),
        None => None,
    }
}

impl View for FileMetadata {
    type V = MetadataView;

    open spec fn view(&self) -> MetadataView {
        MetadataView { modified: self.modified, hash: opt_view(self.hash) }
    }
}

/// The BLAKE3 digest of `content`, in lowercase hexadecimal.
pub uninterp spec fn blake3_hex(content: Seq<u8>) -> Seq<char>;

/// Every character of `s` is a lowercase hexadecimal digit.
pub open spec fn is_lower_hex(s: Seq<char>) -> bool {
    forall|i: int| 0 <= i < s.len() ==> ('0' <= #[trigger] s[i] <= '9' || 'a' <= s[i] <= 'f')
}

/// Relies on blake3::hash and Hash::to_hex: the 32-byte digest of the whole
/// input, written as 64 lowercase hexadecimal digits.
#[verifier::external_body]
fn content_hash(content: &[u8]) -> (r: String)
    ensures
        r@ == blake3_hex(content@),
        r@.len() == 64,
        is_lower_hex(r@),
{
    blake3::hash(content).to_hex().to_string()
}

/// The metadata of a file modified at `modified` whose bytes are `content`:
/// its hash is the BLAKE3 digest, 64 lowercase hexadecimal digits.
pub fn compute_file_metadata(modified: Timestamp, content: &Vec<u8>) -> (r: FileMetadata)
    ensures
        r@ == (MetadataView { modified, hash: Some(blake3_hex(content@)) }),
        r.hash matches Some(h) && h@.len() == 64 && is_lower_hex(h@),
{
    let hash = content_hash(content.as_slice());
    FileMetadata { modified, hash: Some(hash) }
}

/// A file is unchanged when the cache holds an entry for it whose timestamp
/// or whose hash equals the current one.
pub open spec fn changed(m: Map<Seq<char>, MetadataView>, path: Seq<char>, current: MetadataView) -> bool {
    !(m.contains_key(path) && (m[path].modified == current.modified || m[path].hash == current.hash))
}

/// The mapping after recording `current` for `path` if the file has changed.
pub open spec fn updated(m: Map<Seq<char>, MetadataView>, path: Seq<char>, current: MetadataView) -> Map<Seq<char>, MetadataView> {
    if changed(m, path, current) {
        m.insert(path, current)
    } else {
        m
    }
}

/// The mapping after recording each of `files` in turn.
pub open spec fn updated_all(m: Map<Seq<char>, MetadataView>, files: Seq<(Seq<char>, MetadataView)>) -> Map<Seq<char>, MetadataView>
    decreases files.len(),
{
    if files.len() == 0 {
        m
    } else {
        let last = files.last();
        updated(updated_all(m, files.drop_last()), last.0, last.1)
    }
}

/// The mapping that inserting each entry in turn builds from the empty one:
/// a later entry for a path replaces an earlier one.
pub open spec fn map_of_entries(s: Seq<(String, FileMetadata)>) -> Map<Seq<char>, MetadataView>
    decreases s.len(),
{
    if s.len() == 0 {
        Map::empty()
    } else {
        map_of_entries(s.drop_last()).insert(s.last().0@, s.last().1@)
    }
}

/// Some entry of `s` is for the path `k`.
pub open spec fn has_key(s: Seq<(String, FileMetadata)>, k: Seq<char>) -> bool {
    exists|i: int| 0 <= i < s.len() && s[i].0@ == k
}

/// The position of an entry of `s` for the path `k`.
pub open spec fn key_index(s: Seq<(String, FileMetadata)>, k: Seq<char>) -> int {
    choose|i: int| 0 <= i < s.len() && s[i].0@ == k
}

/// No two entries of `s` are for the same path.
pub open spec fn keys_unique(s: Seq<(String, FileMetadata)>) -> bool {
    forall|i: int, j: int| 0 <= i < s.len() && 0 <= j < s.len() && i != j ==> s[i].0@ != s[j].0@
}

/// The persistent mapping from path to metadata, one entry per path.
#[derive(Debug)]
pub struct FileCache {
    pub file_data: Vec<(String, FileMetadata)>,
}

impl View for FileCache {
    type V = Map<Seq<char>, MetadataView>;

    open spec fn view(&self) -> Map<Seq<char>, MetadataView> {
        entries_view(self.file_data@)
    }
}

/// The mapping that a sequence of entries with unique paths stands for.
pub open spec fn entries_view(s: Seq<(String, FileMetadata)>) -> Map<Seq<char>, MetadataView> {
    Map::new(|k: Seq<char>| has_key(s, k), |k: Seq<char>| s[key_index(s, k)].1@)
}

proof fn lemma_view_at(s: Seq<(String, FileMetadata)>, i: int)
    requires
        keys_unique(s),
        0 <= i < s.len(),
    ensures
        has_key(s, s[i].0@),
        key_index(s, s[i].0@) == i,
{
    assert(has_key(s, s[i].0@));
}

/// Writing the entry for `k` at position `i` of `s`, over the entry for
/// `k` there or after the last entry where `s` has none, keeps the paths
/// unique and records `mv` for `k`.
proof fn lemma_entry_written(
    s: Seq<(String, FileMetadata)>,
    t: Seq<(String, FileMetadata)>,
    i: int,
    k: Seq<char>,
    mv: MetadataView,
)
    requires
        keys_unique(s),
        0 <= i <= s.len(),
        i < s.len() ==> s[i].0@ == k && t.len() == s.len(),
        i == s.len() ==> !has_key(s, k) && t.len() == s.len() + 1,
        t[i].0@ == k,
        t[i].1@ == mv,
        forall|j: int| 0 <= j < s.len() && j != i ==> t[j] == s[j],
    ensures
        keys_unique(t),
        entries_view(t) == entries_view(s).insert(k, mv),
{
    assert(has_key(t, k));
    assert forall|a: int, b: int| 0 <= a < t.len() && 0 <= b < t.len() && a != b implies t[a].0@ != t[b].0@ by {
        if a != i && b != i {
            assert(t[a] == s[a] && t[b] == s[b]);
        } else if a == i && i == s.len() {
            assert(t[b] == s[b]);
        } else if b == i && i == s.len() {
            assert(t[a] == s[a]);
        } else if a == i {
            assert(t[b] == s[b]);
        } else {
            assert(t[a] == s[a]);
        }
    }
    assert forall|x: Seq<char>| #[trigger] entries_view(t).contains_key(x) == entries_view(s).insert(k, mv).contains_key(x) by {
        if has_key(t, x) {
            let j = choose|j: int| 0 <= j < t.len() && t[j].0@ == x;
            if j != i {
                assert(t[j] == s[j]);
            }
        }
        if has_key(s, x) {
            let j = choose|j: int| 0 <= j < s.len() && s[j].0@ == x;
            if j != i {
                assert(t[j] == s[j]);
            }
        }
    }
    assert forall|x: Seq<char>| #[trigger] entries_view(t).contains_key(x) implies entries_view(t)[x]
        == entries_view(s).insert(k, mv)[x] by {
        let j = choose|j: int| 0 <= j < t.len() && t[j].0@ == x;
        lemma_view_at(t, j);
        if j != i {
            assert(t[j] == s[j]);
            lemma_view_at(s, j);
        }
    }
    assert(entries_view(t) =~= entries_view(s).insert(k, mv));
}

impl FileCache {
    /// Paths are unique among the entries.
    pub open spec fn wf(&self) -> bool {
        keys_unique(self.file_data@)
    }

    /// The cache with no entries.
    pub fn new() -> (r: FileCache)
        ensures
            r.wf(),
            r@ == Map::<Seq<char>, MetadataView>::empty(),
    {
        let r = FileCache { file_data: Vec::new() };
        assert(r@ =~= Map::<Seq<char>, MetadataView>::empty());
        r
    }

    /// The position of the entry for `path`, if there is one.
    pub fn find(&self, path: &String) -> (r: Option<usize>)
        requires
            self.wf(),
        ensures
            r is None <==> !self@.contains_key(path@),
            r matches Some(i) ==> i < self.file_data@.len() && self.file_data@[i as int].0@ == path@,
    {
        let mut i: usize = 0;
        while i < self.file_data.len()
            invariant
                i <= self.file_data@.len(),
                forall|j: int| 0 <= j < i ==> self.file_data@[j].0@ != path@,
            decreases self.file_data@.len() - i,
        {
            if self.file_data[i].0 == *path {
                return Some(i);
            }
            i = i + 1;
        }
        None
    }

    /// Records `meta` for `path`, replacing an earlier entry for it.
    pub fn insert(&mut self, path: String, meta: FileMetadata)
        requires
            old(self).wf(),
        ensures
            final(self).wf(),
            final(self)@ == old(self)@.insert(path@, meta@),
    {
        let ghost before = self.file_data@;
        let ghost k = path@;
        let ghost mv = meta@;
        match self.find(&path) {
            Some(i) => {
                self.file_data.set(i, (path, meta));
                proof {
                    lemma_entry_written(before, self.file_data@, i as int, k, mv);
                }
            },
            None => {
                let ghost n = self.file_data@.len();
                self.file_data.push((path, meta));
                proof {
                    lemma_entry_written(before, self.file_data@, n as int, k, mv);
                }
            },
        }
    }
}

fn same_hash(a: &Option<String>, b: &Option<String>) -> (r: bool)
    ensures
        r == (opt_view(*a) == opt_view(*b)),
{
    match (a, b) {
        (Some(x), Some(y)) => *x == *y,
        (None, None) => true,
        _ => false,
    }
}

impl FileCache {
    /// The cache that inserting each of `entries` in turn builds.
    pub fn from_entries(entries: Vec<(String, FileMetadata)>) -> (r: FileCache)
        ensures
            r.wf(),
            r@ == map_of_entries(entries@),
    {
        let ghost all = entries@;
        let n: usize = entries.len();
        let mut rest = entries;
        let mut r = FileCache::new();
        let mut i: usize = 0;
        while rest.len() > 0
            invariant
                r.wf(),
                i <= all.len(),
                rest@ == all.skip(i as int),
                rest@.len() == all.len() - i,
                all.len() == n,
                r@ == map_of_entries(all.take(i as int)),
            decreases rest@.len(),
        {
            let (p, m) = rest.remove(0);
            proof {
                assert(all.take(i + 1).drop_last() =~= all.take(i as int));
                assert(all.take(i + 1).last() == all[i as int]);
            }
            r.insert(p, m);
            assert(rest@ =~= all.skip(i + 1));
            i = i + 1;
        }
        assert(all.take(i as int) =~= all);
        r
    }

    /// The entries in an order of their own, for storing.
    pub fn entries(&self) -> (r: &Vec<(String, FileMetadata)>)
        ensures
            r@ == self.file_data@,
    {
        &self.file_data
    }
}

/// A cache bound to the file that stores it.
#[derive(Debug)]
pub struct CacheContext {
    pub path: String,
    pub cache: FileCache,
}

impl CacheContext {
    pub open spec fn wf(&self) -> bool {
        self.cache.wf()
    }

    /// The cache stored at `path`: built from the entries read there, or
    /// empty where nothing was stored.
    pub fn load_or_default(path: String, stored: Option<Vec<(String, FileMetadata)>>) -> (r: CacheContext)
        ensures
            r.wf(),
            r.path == path,
            r.cache@ == match stored {
                Some(e) => map_of_entries(e@),
                None => Map::empty(),
            },
    {
        let cache = match stored {
            Some(e) => FileCache::from_entries(e),
            None => FileCache::new(),
        };
        CacheContext { path, cache }
    }

    /// Whether the file at `path`, now described by `current`, differs from
    /// what the cache recorded: it does unless its timestamp or its hash
    /// matches the recorded one.
    pub fn has_file_changed(&self, path: &String, current: &FileMetadata) -> (r: bool)
        requires
            self.wf(),
        ensures
            r == changed(self.cache@, path@, current@),
    {
        match self.cache.find(path) {
            Some(i) => {
                let recorded = &self.cache.file_data[i].1;
                proof {
                    lemma_view_at(self.cache.file_data@, i as int);
                }
                !(recorded.modified == current.modified || same_hash(&recorded.hash, &current.hash))
            },
            None => true,
        }
    }

    /// Records `current` for `path` when the file has changed, and says
    /// whether it had.
    pub fn update_file_if_changed(&mut self, path: &String, current: FileMetadata) -> (r: bool)
        requires
            old(self).wf(),
        ensures
            final(self).wf(),
            final(self).path == old(self).path,
            r == changed(old(self).cache@, path@, current@),
            final(self).cache@ == updated(old(self).cache@, path@, current@),
    {
        if self.has_file_changed(path, &current) {
            self.cache.insert(path.clone(), current);
            true
        } else {
            false
        }
    }
}

/// Storing a cache as its entries and building it again from them gives the
/// same mapping: the same paths, each with the same timestamp and hash.
pub proof fn lemma_cache_round_trip(c: FileCache)
    requires
        c.wf(),
    ensures
        map_of_entries(c.file_data@) == c@,
{
    lemma_entries_round_trip(c.file_data@);
}

proof fn lemma_entries_round_trip(s: Seq<(String, FileMetadata)>)
    requires
        keys_unique(s),
    ensures
        map_of_entries(s) == entries_view(s),
    decreases s.len(),
{
    if s.len() == 0 {
        assert(entries_view(s) =~= Map::empty());
    } else {
        let p = s.drop_last();
        let n = s.len() - 1;
        assert(keys_unique(p));
        lemma_entries_round_trip(p);
        lemma_view_at(s, n);
        assert forall|k: Seq<char>| #[trigger] entries_view(s).contains_key(k) == entries_view(p).insert(s[n].0@, s[n].1@).contains_key(k) by {
            if has_key(s, k) && k != s[n].0@ {
                let j = choose|j: int| 0 <= j < s.len() && s[j].0@ == k;
                assert(p[j] == s[j]);
            }
            if has_key(p, k) {
                let j = choose|j: int| 0 <= j < p.len() && p[j].0@ == k;
                assert(p[j] == s[j]);
            }
        }
        assert forall|k: Seq<char>| #[trigger] entries_view(s).contains_key(k) implies entries_view(s)[k] == entries_view(p).insert(s[n].0@, s[n].1@)[k] by {
            let j = choose|j: int| 0 <= j < s.len() && s[j].0@ == k;
            lemma_view_at(s, j);
            if j != n {
                assert(p[j] == s[j]);
                lemma_view_at(p, j);
            }
        }
        assert(entries_view(s) =~= entries_view(p).insert(s[n].0@, s[n].1@));
    }
}

/// A path that the cache does not hold always counts as changed.
pub proof fn lemma_new_file_changed(m: Map<Seq<char>, MetadataView>, path: Seq<char>, current: MetadataView)
    requires
        !m.contains_key(path),
    ensures
        changed(m, path, current),
{
}

/// Once a file has been checked and recorded, checking it again without
/// touching it finds it unchanged.
pub proof fn lemma_stable_after_update(m: Map<Seq<char>, MetadataView>, path: Seq<char>, current: MetadataView)
    ensures
        !changed(updated(m, path, current), path, current),
{
}

/// A file whose timestamp and hash both differ from the recorded ones counts
/// as changed; once recorded, it counts as unchanged until it is touched again.
pub proof fn lemma_edit_detected_once(
    m: Map<Seq<char>, MetadataView>,
    path: Seq<char>,
    current: MetadataView,
)
    requires
        m.contains_key(path),
        m[path].modified != current.modified,
        m[path].hash != current.hash,
    ensures
        changed(m, path, current),
        updated(m, path, current) == m.insert(path, current),
        !changed(updated(m, path, current), path, current),
        updated(updated(m, path, current), path, current) == updated(m, path, current),
{
}

/// Checking the same files a second time, none of them touched in between,
/// finds every one of them unchanged: a second build rebuilds nothing.
pub proof fn lemma_second_pass_rebuilds_nothing(
    m: Map<Seq<char>, MetadataView>,
    files: Seq<(Seq<char>, MetadataView)>,
)
    requires
        forall|i: int, j: int| 0 <= i < files.len() && 0 <= j < files.len() && i != j ==> files[i].0 != files[j].0,
    ensures
        forall|i: int| 0 <= i < files.len() ==> !changed(updated_all(m, files), files[i].0, files[i].1),
        updated_all(updated_all(m, files), files) == updated_all(m, files),
    decreases files.len(),
{
    if files.len() > 0 {
        let p = files.drop_last();
        let n = files.len() - 1;
        lemma_second_pass_rebuilds_nothing(m, p);
        let mid = updated_all(m, p);
        assert forall|i: int| 0 <= i < files.len() implies !changed(updated_all(m, files), files[i].0, files[i].1) by {
            if i != n {
                assert(p[i] == files[i]);
                assert(files[i].0 != files[n].0);
            }
        }
        lemma_unchanged_fixed(updated_all(m, files), files);
    }
}

proof fn lemma_unchanged_fixed(m: Map<Seq<char>, MetadataView>, files: Seq<(Seq<char>, MetadataView)>)
    requires
        forall|i: int| 0 <= i < files.len() ==> !changed(m, files[i].0, files[i].1),
    ensures
        updated_all(m, files) == m,
    decreases files.len(),
{
    if files.len() > 0 {
        let p = files.drop_last();
        assert forall|i: int| 0 <= i < p.len() implies !changed(m, p[i].0, p[i].1) by {
            assert(p[i] == files[i]);
        }
        lemma_unchanged_fixed(m, p);
    }
}

} // verus!
