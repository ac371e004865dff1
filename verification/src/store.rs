//! The durable source of truth: folder registration, the cache-entry ledger,
//! and the media-metadata table, together with the dedup oracle. The tables
//! are modeled in memory with their schema invariants (unique folder paths,
//! unique `(folder, hash)` entry keys, unique media file paths, referential
//! integrity); persisting them is the embedding shell's concern.

use vstd::prelude::*;
use vstd::string::*;
use vstd::seq_lib::*;
use crate::strkit::str_eq;

verus! {

broadcast use vstd::seq::Seq::lemma_filter_push, vstd::seq::Seq::lemma_take_succ_push;

/// One registered library folder.
pub struct FolderRow {
    pub id: i64,
    pub path: String,
    pub folder_hash: String,
    pub total_files: i64,
}

/// One cache-ledger entry: a source file's content identity tied to the
/// derivative written for it.
pub struct CacheEntryRow {
    pub id: i64,
    pub folder_id: i64,
    pub original_path: String,
    pub file_hash: String,
    pub cached_path: String,
    pub media_type: String,
    pub file_size: i64,
    pub cached_size: i64,
}

/// One media-metadata row, keyed by file path; timestamps are seconds since
/// the Unix epoch.
pub struct MediaFileDb {
    pub id: i64,
    pub folder_id: i64,
    pub file_path: String,
    pub file_hash: String,
    pub file_size: i64,
    pub width: i32,
    pub height: i32,
    pub taken_at: Option<i64>,
    pub modified_at: i64,
    pub thumbnail_path: Option<String>,
    pub media_type: String,
    pub created_at: i64,
}

/// Aggregate ledger statistics; sums are wide enough that they cannot
/// overflow whatever the table holds.
pub struct CacheStats {
    pub entry_count: usize,
    pub original_size: i128,
    pub cached_size: i128,
}

/// A storage operation that could not be carried out.
#[derive(Clone, Copy, Debug, PartialEq, Eq, Structural)]
pub enum StoreError {
    /// No registered folder carries the given id.
    UnknownFolder,
    /// The row-id counter is exhausted.
    StorageFull,
}

impl Clone for FolderRow {
    fn clone(&self) -> (r: Self)
        ensures
            r == *self,
    {
        FolderRow {
            id: self.id,
            path: self.path.clone(),
            folder_hash: self.folder_hash.clone(),
            total_files: self.total_files,
        }
    }
}

impl Clone for CacheEntryRow {
    fn clone(&self) -> (r: Self)
        ensures
            r == *self,
    {
        CacheEntryRow {
            id: self.id,
            folder_id: self.folder_id,
            original_path: self.original_path.clone(),
            file_hash: self.file_hash.clone(),
            cached_path: self.cached_path.clone(),
            media_type: self.media_type.clone(),
            file_size: self.file_size,
            cached_size: self.cached_size,
        }
    }
}

impl Clone for MediaFileDb {
    fn clone(&self) -> (r: Self)
        ensures
            r == *self,
    {
        MediaFileDb {
            id: self.id,
            folder_id: self.folder_id,
            file_path: self.file_path.clone(),
            file_hash: self.file_hash.clone(),
            file_size: self.file_size,
            width: self.width,
            height: self.height,
            taken_at: self.taken_at,
            modified_at: self.modified_at,
            thumbnail_path: match &self.thumbnail_path {
                Some(s) => Some(s.clone()),
                None => None,
            },
            media_type: self.media_type.clone(),
            created_at: self.created_at,
        }
    }
}

pub open spec fn seq_has_path(s: Seq<FolderRow>, p: Seq<char>) -> bool {
    exists|i: int| 0 <= i < s.len() && (#[trigger] s[i]).path@ == p
}

/// The folder row registered under this path.
pub open spec fn seq_folder(s: Seq<FolderRow>, p: Seq<char>) -> FolderRow {
    let i = choose|i: int| 0 <= i < s.len() && (#[trigger] s[i]).path@ == p;
    s[i]
}

pub open spec fn seq_has_fid(s: Seq<FolderRow>, id: i64) -> bool {
    exists|i: int| 0 <= i < s.len() && (#[trigger] s[i]).id == id
}

pub open spec fn folders_distinct(s: Seq<FolderRow>) -> bool {
    forall|i: int, j: int|
        0 <= i < j < s.len() ==> s[i].path@ != s[j].path@ && s[i].id != s[j].id
}

pub open spec fn entry_keys_distinct(s: Seq<CacheEntryRow>) -> bool {
    forall|i: int, j: int|
        0 <= i < j < s.len()
            ==> !(s[i].folder_id == s[j].folder_id && s[i].file_hash@ == s[j].file_hash@)
}

pub open spec fn media_paths_distinct(s: Seq<MediaFileDb>) -> bool {
    forall|i: int, j: int| 0 <= i < j < s.len() ==> s[i].file_path@ != s[j].file_path@
}

/// The dedup index, cache ledger and media table, with a store-wide row-id
/// counter.
pub struct CacheStore {
    pub folders: Vec<FolderRow>,
    pub entries: Vec<CacheEntryRow>,
    pub media: Vec<MediaFileDb>,
    pub next_id: i64,
}

/// With distinct paths, the row at a matching index is the registered one.
proof fn lemma_folder_at(s: Seq<FolderRow>, i: int)
    requires
        folders_distinct(s),
        0 <= i < s.len(),
    ensures
        seq_has_path(s, s[i].path@),
        seq_folder(s, s[i].path@) == s[i],
{
    let p = s[i].path@;
    assert(seq_has_path(s, p));
    let j = choose|j: int| 0 <= j < s.len() && (#[trigger] s[j]).path@ == p;
    if i != j {
        if i < j {
            assert(s[i].path@ != s[j].path@);
        } else {
            assert(s[j].path@ != s[i].path@);
        }
    }
}

impl CacheStore {
    pub open spec fn wf(self) -> bool {
        &&& 1 <= self.next_id
        &&& folders_distinct(self.folders@)
        &&& forall|i: int| 0 <= i < self.folders@.len()
                ==> 1 <= (#[trigger] self.folders@[i]).id < self.next_id
        &&& entry_keys_distinct(self.entries@)
        &&& forall|i: int| 0 <= i < self.entries@.len()
                ==> seq_has_fid(self.folders@, (#[trigger] self.entries@[i]).folder_id)
        &&& media_paths_distinct(self.media@)
        &&& forall|i: int| 0 <= i < self.media@.len()
                ==> seq_has_fid(self.folders@, (#[trigger] self.media@[i]).folder_id)
    }

    /// An empty store.
    pub fn new() -> (s: CacheStore)
        ensures
            s.wf(),
            s.folders@.len() == 0,
            s.entries@.len() == 0,
            s.media@.len() == 0,
            s.next_id == 1,
    {
        CacheStore {
            folders: Vec::new(),
            entries: Vec::new(),
            media: Vec::new(),
            next_id: 1,
        }
    }

    /// Index of the folder row registered under this path, if any.
    fn find_folder(&self, path: &str) -> (r: Option<usize>)
        ensures
            match r {
                Some(i) => i < self.folders@.len() && self.folders@[i as int].path@ == path@,
                None => !seq_has_path(self.folders@, path@),
            },
    {
        for i in 0..self.folders.len()
            invariant
                forall|j: int| 0 <= j < i ==> (#[trigger] self.folders@[j]).path@ != path@,
        {
            if str_eq(self.folders[i].path.as_str(), path) {
                return Some(i);
            }
        }
        None
    }

    /// Index of the folder row carrying this id, if any.
    fn find_folder_by_id(&self, id: i64) -> (r: Option<usize>)
        ensures
            match r {
                Some(i) => i < self.folders@.len() && self.folders@[i as int].id == id,
                None => !seq_has_fid(self.folders@, id),
            },
    {
        for i in 0..self.folders.len()
            invariant
                forall|j: int| 0 <= j < i ==> (#[trigger] self.folders@[j]).id != id,
        {
            if self.folders[i].id == id {
                return Some(i);
            }
        }
        None
    }

    /// The id registered for a folder path.
    pub fn get_folder_id(&self, path: &str) -> (r: Option<i64>)
        requires
            self.wf(),
        ensures
            r is Some <==> seq_has_path(self.folders@, path@),
            r is Some ==> r.unwrap() == seq_folder(self.folders@, path@).id,
    {
        match self.find_folder(path) {
            Some(i) => {
                proof {
                    lemma_folder_at(self.folders@, i as int);
                }
                Some(self.folders[i].id)
            }
            None => None,
        }
    }

    /// Register a folder path, upserting by its globally unique path: an
    /// already-registered path keeps its id (its stored hash is refreshed
    /// and its entries stay owned); a new path gets the next fresh id.
    pub fn add_library_folder(&mut self, path: &str, folder_hash: &str) -> (r: Result<
        i64,
        StoreError,
    >)
        requires
            old(self).wf(),
        ensures
            final(self).wf(),
            r is Err <==> (!seq_has_path(old(self).folders@, path@) && old(self).next_id
                == i64::MAX),
            r is Err ==> final(self).folders@ == old(self).folders@ && final(self).next_id == old(
                self,
            ).next_id,
            r is Ok ==> seq_has_path(final(self).folders@, path@) && seq_folder(
                final(self).folders@,
                path@,
            ).id == r.unwrap(),
            r is Ok && seq_has_path(old(self).folders@, path@) ==> {
                &&& r.unwrap() == seq_folder(old(self).folders@, path@).id
                &&& exists|i: int|
                    0 <= i < old(self).folders@.len() && old(self).folders@[i].path@ == path@
                        && final(self).folders@ == old(self).folders@.update(
                        i,
                        (FolderRow {
                            folder_hash: seq_folder(final(self).folders@, path@).folder_hash,
                            ..old(self).folders@[i]
                        }),
                    )
                &&& seq_folder(final(self).folders@, path@).folder_hash@ == folder_hash@
                &&& final(self).next_id == old(self).next_id
            },
            r is Ok && !seq_has_path(old(self).folders@, path@) ==> {
                &&& r.unwrap() == old(self).next_id
                &&& final(self).folders@ == old(self).folders@.push(seq_folder(
                    final(self).folders@,
                    path@,
                ))
                &&& seq_folder(final(self).folders@, path@) == (FolderRow {
                    id: old(self).next_id,
                    path: seq_folder(final(self).folders@, path@).path,
                    folder_hash: seq_folder(final(self).folders@, path@).folder_hash,
                    total_files: 0,
                })
                &&& seq_folder(final(self).folders@, path@).folder_hash@ == folder_hash@
                &&& final(self).next_id == old(self).next_id + 1
            },
            forall|q: Seq<char>| q != path@
                ==> #[trigger] seq_has_path(final(self).folders@, q) == seq_has_path(
                    old(self).folders@,
                    q,
                ),
            forall|q: Seq<char>| q != path@ && seq_has_path(old(self).folders@, q)
                ==> #[trigger] seq_folder(final(self).folders@, q) == seq_folder(
                    old(self).folders@,
                    q,
                ),
            final(self).entries@ == old(self).entries@,
            final(self).media@ == old(self).media@,
    {
        let ghost fs = self.folders@;
        match self.find_folder(path) {
            Some(i) => {
                let ghost gi = i as int;
                proof {
                    lemma_folder_at(fs, gi);
                }
                let id = self.folders[i].id;
                let slot = &mut self.folders[i];
                slot.folder_hash = folder_hash.to_owned();
                proof {
                    assert(self.folders@[gi] == (FolderRow {
                        folder_hash: self.folders@[gi].folder_hash,
                        ..fs[gi]
                    }));
                    assert(self.folders@ == fs.update(gi, self.folders@[gi]));
                    lemma_folder_update_keeps_others(fs, self.folders@, gi);
                    assert(seq_folder(self.folders@, path@) == self.folders@[gi]);
                    lemma_same_fids_update(fs, self.folders@, gi);
                }
                Ok(id)
            }
            None => {
                if self.next_id == i64::MAX {
                    return Err(StoreError::StorageFull);
                }
                let id = self.next_id;
                let row = FolderRow {
                    id,
                    path: path.to_owned(),
                    folder_hash: folder_hash.to_owned(),
                    total_files: 0,
                };
                self.folders.push(row);
                self.next_id = self.next_id + 1;
                proof {
                    lemma_folder_push_keeps_others(fs, self.folders@.last());
                    assert(self.folders@ == fs.push(self.folders@.last()));
                    assert(seq_folder(self.folders@, path@) == self.folders@.last());
                    assert forall|k: int| 0 <= k < self.entries@.len() implies seq_has_fid(
                        self.folders@,
                        (#[trigger] self.entries@[k]).folder_id,
                    ) by {
                        let w = choose|w: int|
                            0 <= w < fs.len() && (#[trigger] fs[w]).id == self.entries@[k].folder_id;
                        assert(self.folders@[w].id == self.entries@[k].folder_id);
                    }
                    assert forall|k: int| 0 <= k < self.media@.len() implies seq_has_fid(
                        self.folders@,
                        (#[trigger] self.media@[k]).folder_id,
                    ) by {
                        let w = choose|w: int|
                            0 <= w < fs.len() && (#[trigger] fs[w]).id == self.media@[k].folder_id;
                        assert(self.folders@[w].id == self.media@[k].folder_id);
                    }
                }
                Ok(id)
            }
        }
    }
}

/// Replacing the folder row at one index, keeping its path and id, leaves
/// every other path's registration untouched.
proof fn lemma_folder_update_keeps_others(a: Seq<FolderRow>, b: Seq<FolderRow>, i: int)
    requires
        folders_distinct(a),
        0 <= i < a.len(),
        b == a.update(i, b[i]),
        b.len() == a.len(),
        b[i].path@ == a[i].path@,
        b[i].id == a[i].id,
    ensures
        folders_distinct(b),
        seq_has_path(b, b[i].path@),
        seq_folder(b, b[i].path@) == b[i],
        forall|q: Seq<char>| q != b[i].path@
            ==> #[trigger] seq_has_path(b, q) == seq_has_path(a, q),
        forall|q: Seq<char>| q != b[i].path@ && seq_has_path(a, q)
            ==> #[trigger] seq_folder(b, q) == seq_folder(a, q),
{
    let p = b[i].path@;
    assert forall|k: int, l: int| 0 <= k < l < b.len() implies b[k].path@ != b[l].path@ && b[k].id
        != b[l].id by {
        assert(a[k].path@ != a[l].path@ && a[k].id != a[l].id);
    }
    lemma_folder_at(b, i);
    assert forall|q: Seq<char>| q != p implies #[trigger] seq_has_path(b, q) == seq_has_path(
        a,
        q,
    ) by {
        if seq_has_path(a, q) {
            let j = choose|j: int| 0 <= j < a.len() && (#[trigger] a[j]).path@ == q;
            assert(j != i);
            assert(b[j].path@ == q);
        }
        if seq_has_path(b, q) {
            let j = choose|j: int| 0 <= j < b.len() && (#[trigger] b[j]).path@ == q;
            assert(j != i);
            assert(a[j].path@ == q);
        }
    }
    assert forall|q: Seq<char>| q != p && seq_has_path(a, q) implies #[trigger] seq_folder(b, q)
        == seq_folder(a, q) by {
        let j = choose|j: int| 0 <= j < a.len() && (#[trigger] a[j]).path@ == q;
        assert(j != i);
        lemma_folder_at(a, j);
        lemma_folder_at(b, j);
    }
}

/// An update that keeps a row's id keeps every id lookup.
proof fn lemma_same_fids_update(a: Seq<FolderRow>, b: Seq<FolderRow>, i: int)
    requires
        0 <= i < a.len(),
        b == a.update(i, b[i]),
        b.len() == a.len(),
        b[i].id == a[i].id,
    ensures
        forall|id: i64| #[trigger] seq_has_fid(b, id) == seq_has_fid(a, id),
{
    assert forall|id: i64| #[trigger] seq_has_fid(b, id) == seq_has_fid(a, id) by {
        if seq_has_fid(a, id) {
            let j = choose|j: int| 0 <= j < a.len() && (#[trigger] a[j]).id == id;
            assert(b[j].id == id);
        }
        if seq_has_fid(b, id) {
            let j = choose|j: int| 0 <= j < b.len() && (#[trigger] b[j]).id == id;
            assert(a[j].id == id);
        }
    }
}

/// Appending a folder row under a fresh path registers it and leaves every
/// other path's registration untouched.
proof fn lemma_folder_push_keeps_others(a: Seq<FolderRow>, t: FolderRow)
    requires
        folders_distinct(a),
        !seq_has_path(a, t.path@),
        forall|i: int| 0 <= i < a.len() ==> (#[trigger] a[i]).id != t.id,
    ensures
        folders_distinct(a.push(t)),
        seq_has_path(a.push(t), t.path@),
        seq_folder(a.push(t), t.path@) == t,
        forall|q: Seq<char>| q != t.path@
            ==> #[trigger] seq_has_path(a.push(t), q) == seq_has_path(a, q),
        forall|q: Seq<char>| q != t.path@ && seq_has_path(a, q)
            ==> #[trigger] seq_folder(a.push(t), q) == seq_folder(a, q),
{
    let b = a.push(t);
    let p = t.path@;
    assert forall|k: int, l: int| 0 <= k < l < b.len() implies b[k].path@ != b[l].path@ && b[k].id
        != b[l].id by {
        if l < a.len() {
            assert(a[k].path@ != a[l].path@ && a[k].id != a[l].id);
        } else {
            assert(b[l] == t);
            assert(a[k].path@ != p);
        }
    }
    assert(b[a.len() as int] == t);
    lemma_folder_at(b, a.len() as int);
    assert forall|q: Seq<char>| q != p implies #[trigger] seq_has_path(b, q) == seq_has_path(
        a,
        q,
    ) by {
        if seq_has_path(a, q) {
            let j = choose|j: int| 0 <= j < a.len() && (#[trigger] a[j]).path@ == q;
            assert(b[j].path@ == q);
        }
        if seq_has_path(b, q) {
            let j = choose|j: int| 0 <= j < b.len() && (#[trigger] b[j]).path@ == q;
            assert(j != a.len() as int);
            assert(a[j].path@ == q);
        }
    }
    assert forall|q: Seq<char>| q != p && seq_has_path(a, q) implies #[trigger] seq_folder(b, q)
        == seq_folder(a, q) by {
        let j = choose|j: int| 0 <= j < a.len() && (#[trigger] a[j]).path@ == q;
        lemma_folder_at(a, j);
        lemma_folder_at(b, j);
    }
}


/// What the ledger holds for one folder.
pub open spec fn entries_of_folder(es: Seq<CacheEntryRow>, fid: i64) -> Seq<CacheEntryRow> {
    es.filter(|e: CacheEntryRow| e.folder_id == fid)
}

/// What the ledger holds outside one folder.
pub open spec fn entries_not_of_folder(es: Seq<CacheEntryRow>, fid: i64) -> Seq<CacheEntryRow> {
    es.filter(|e: CacheEntryRow| e.folder_id != fid)
}

/// Every ledger row carrying one content hash.
pub open spec fn entries_with_hash(es: Seq<CacheEntryRow>, h: Seq<char>) -> Seq<CacheEntryRow> {
    es.filter(|e: CacheEntryRow| e.file_hash@ == h)
}

/// The ledger with every row of one content hash purged.
pub open spec fn entries_without_hash(es: Seq<CacheEntryRow>, h: Seq<char>) -> Seq<CacheEntryRow> {
    es.filter(|e: CacheEntryRow| e.file_hash@ != h)
}

/// The ledger with the one row of a `(folder, hash)` key removed.
pub open spec fn entries_without_key(es: Seq<CacheEntryRow>, fid: i64, h: Seq<char>) -> Seq<
    CacheEntryRow,
> {
    es.filter(|e: CacheEntryRow| !(e.folder_id == fid && e.file_hash@ == h))
}

/// The media table outside one folder.
pub open spec fn media_not_of_folder(ms: Seq<MediaFileDb>, fid: i64) -> Seq<MediaFileDb> {
    ms.filter(|m: MediaFileDb| m.folder_id != fid)
}

/// The media table with one file path's row removed.
pub open spec fn media_without_path(ms: Seq<MediaFileDb>, p: Seq<char>) -> Seq<MediaFileDb> {
    ms.filter(|m: MediaFileDb| m.file_path@ != p)
}

/// The cached path recorded first for a content hash, front to back.
pub open spec fn first_cached_path(es: Seq<CacheEntryRow>, h: Seq<char>) -> Option<Seq<char>>
    decreases es.len(),
{
    if es.len() == 0 {
        Option::None
    } else if es[0].file_hash@ == h {
        Option::Some(es[0].cached_path@)
    } else {
        first_cached_path(es.drop_first(), h)
    }
}

/// Total source bytes recorded in the ledger.
pub open spec fn sum_original(es: Seq<CacheEntryRow>) -> int
    decreases es.len(),
{
    if es.len() == 0 {
        0
    } else {
        sum_original(es.drop_last()) + es.last().file_size
    }
}

/// Total derivative bytes recorded in the ledger.
pub open spec fn sum_cached(es: Seq<CacheEntryRow>) -> int
    decreases es.len(),
{
    if es.len() == 0 {
        0
    } else {
        sum_cached(es.drop_last()) + es.last().cached_size
    }
}

/// Filtering keeps every pairwise relation the table had.
proof fn lemma_filter_keeps_pairwise<A>(
    s: Seq<A>,
    pred: spec_fn(A) -> bool,
    rel: spec_fn(A, A) -> bool,
)
    requires
        forall|i: int, j: int| 0 <= i < j < s.len() ==> rel(s[i], s[j]),
        forall|i: int, j: int| 0 <= i < j < s.len() ==> rel(s[j], s[i]),
    ensures
        forall|i: int, j: int|
            0 <= i < j < s.filter(pred).len() ==> rel(s.filter(pred)[i], s.filter(pred)[j]),
        forall|i: int, j: int|
            0 <= i < j < s.filter(pred).len() ==> rel(s.filter(pred)[j], s.filter(pred)[i]),
    decreases s.len(),
{
    reveal(Seq::filter);
    if s.len() > 0 {
        let rest = s.drop_last();
        assert forall|i: int, j: int| 0 <= i < j < rest.len() implies rel(rest[i], rest[j]) && rel(
            rest[j],
            rest[i],
        ) by {
            assert(rest[i] == s[i] && rest[j] == s[j]);
        }
        lemma_filter_keeps_pairwise(rest, pred, rel);
        let sub = rest.filter(pred);
        let f = s.filter(pred);
        if pred(s.last()) {
            assert(f == sub.push(s.last()));
            assert forall|i: int, j: int| 0 <= i < j < f.len() implies rel(f[i], f[j]) && rel(
                f[j],
                f[i],
            ) by {
                if j < f.len() - 1 {
                    assert(f[i] == sub[i] && f[j] == sub[j]);
                } else {
                    assert(f[j] == s.last());
                    assert(f[i] == sub[i]);
                    sub.lemma_index_contains(i);
                    rest.lemma_filter_contains_rev(pred, sub[i]);
                    let w = choose|w: int| 0 <= w < rest.len() && rest[w] == sub[i];
                    assert(rest[w] == s[w]);
                    assert(rel(s[w], s[s.len() - 1]) && rel(s[s.len() - 1], s[w]));
                }
            }
        } else {
            assert(f == sub);
        }
    }
}

/// Filtering keeps every rowwise property the table had.
proof fn lemma_filter_keeps_all<A>(s: Seq<A>, pred: spec_fn(A) -> bool, prop: spec_fn(A) -> bool)
    requires
        forall|i: int| 0 <= i < s.len() ==> prop(s[i]),
    ensures
        forall|k: int| 0 <= k < s.filter(pred).len() ==> prop(s.filter(pred)[k]),
{
    let f = s.filter(pred);
    assert forall|k: int| 0 <= k < f.len() implies prop(f[k]) by {
        f.lemma_index_contains(k);
        s.lemma_filter_contains_rev(pred, f[k]);
        let w = choose|w: int| 0 <= w < s.len() && s[w] == f[k];
    }
}

/// Removing the folder row at one index unregisters its path and leaves
/// every other path's registration, and every other id, untouched.
proof fn lemma_folder_remove_keeps_others(a: Seq<FolderRow>, i: int)
    requires
        folders_distinct(a),
        0 <= i < a.len(),
    ensures
        folders_distinct(a.remove(i)),
        !seq_has_path(a.remove(i), a[i].path@),
        forall|q: Seq<char>| q != a[i].path@
            ==> #[trigger] seq_has_path(a.remove(i), q) == seq_has_path(a, q),
        forall|q: Seq<char>| q != a[i].path@ && seq_has_path(a, q)
            ==> #[trigger] seq_folder(a.remove(i), q) == seq_folder(a, q),
        forall|id: i64| id != a[i].id
            ==> #[trigger] seq_has_fid(a.remove(i), id) == seq_has_fid(a, id),
{
    let b = a.remove(i);
    let p = a[i].path@;
    let shift = |j: int| if j < i { j } else { j + 1 };
    assert forall|k: int, l: int| 0 <= k < l < b.len() implies b[k].path@ != b[l].path@ && b[k].id
        != b[l].id by {
        assert(b[k] == a[shift(k)]);
        assert(b[l] == a[shift(l)]);
    }
    if seq_has_path(b, p) {
        let j = choose|j: int| 0 <= j < b.len() && (#[trigger] b[j]).path@ == p;
        assert(b[j] == a[shift(j)]);
        assert(shift(j) != i);
    }
    assert forall|q: Seq<char>| q != p implies #[trigger] seq_has_path(b, q) == seq_has_path(
        a,
        q,
    ) by {
        if seq_has_path(a, q) {
            let j = choose|j: int| 0 <= j < a.len() && (#[trigger] a[j]).path@ == q;
            assert(j != i);
            if j < i {
                assert(b[j] == a[j]);
            } else {
                assert(b[j - 1] == a[j]);
            }
        }
        if seq_has_path(b, q) {
            let j = choose|j: int| 0 <= j < b.len() && (#[trigger] b[j]).path@ == q;
            assert(b[j] == a[shift(j)]);
        }
    }
    assert forall|q: Seq<char>| q != p && seq_has_path(a, q) implies #[trigger] seq_folder(b, q)
        == seq_folder(a, q) by {
        let j = choose|j: int| 0 <= j < a.len() && (#[trigger] a[j]).path@ == q;
        assert(j != i);
        lemma_folder_at(a, j);
        if j < i {
            assert(b[j] == a[j]);
            lemma_folder_at(b, j);
        } else {
            assert(b[j - 1] == a[j]);
            lemma_folder_at(b, j - 1);
        }
    }
    assert forall|id: i64| id != a[i].id implies #[trigger] seq_has_fid(b, id) == seq_has_fid(
        a,
        id,
    ) by {
        if seq_has_fid(a, id) {
            let j = choose|j: int| 0 <= j < a.len() && (#[trigger] a[j]).id == id;
            assert(j != i);
            if j < i {
                assert(b[j] == a[j]);
            } else {
                assert(b[j - 1] == a[j]);
            }
        }
        if seq_has_fid(b, id) {
            let j = choose|j: int| 0 <= j < b.len() && (#[trigger] b[j]).id == id;
            assert(b[j] == a[shift(j)]);
        }
    }
}

/// Walk the ledger once: pull out the cached paths and hashes of one
/// folder's rows (in table order) and keep only the other folders' rows.
fn extract_folder_entries(entries: &mut Vec<CacheEntryRow>, fid: i64) -> (r: (
    Vec<String>,
    Vec<String>,
))
    ensures
        final(entries)@ == entries_not_of_folder(old(entries)@, fid),
        r.0@.len() == entries_of_folder(old(entries)@, fid).len(),
        r.1@.len() == entries_of_folder(old(entries)@, fid).len(),
        forall|k: int| 0 <= k < r.0@.len()
            ==> (#[trigger] r.0@[k])@ == entries_of_folder(old(entries)@, fid)[k].cached_path@,
        forall|k: int| 0 <= k < r.1@.len()
            ==> (#[trigger] r.1@[k])@ == entries_of_folder(old(entries)@, fid)[k].file_hash@,
{
    let ghost es = entries@;
    let mut kept: Vec<CacheEntryRow> = Vec::new();
    let mut paths: Vec<String> = Vec::new();
    let mut hashes: Vec<String> = Vec::new();
    let n = entries.len();
    assert(es.take(0) =~= Seq::<CacheEntryRow>::empty());
    for i in 0..n
        invariant
            n == es.len(),
            entries@ == es,
            kept@ == entries_not_of_folder(es.take(i as int), fid),
            paths@.len() == entries_of_folder(es.take(i as int), fid).len(),
            hashes@.len() == entries_of_folder(es.take(i as int), fid).len(),
            forall|k: int| 0 <= k < paths@.len()
                ==> (#[trigger] paths@[k])@ == entries_of_folder(es.take(i as int), fid)[k].cached_path@,
            forall|k: int| 0 <= k < hashes@.len()
                ==> (#[trigger] hashes@[k])@ == entries_of_folder(es.take(i as int), fid)[k].file_hash@,
    {
        proof {
            assert(es.take(i + 1) =~= es.take(i as int).push(es[i as int]));
        }
        let e = &entries[i];
        if e.folder_id == fid {
            paths.push(e.cached_path.clone());
            hashes.push(e.file_hash.clone());
        } else {
            kept.push(e.clone());
        }
    }
    proof {
        assert(es.take(n as int) =~= es);
    }
    *entries = kept;
    (paths, hashes)
}

/// Keep only the media rows of other folders.
fn drop_media_of_folder(media: &mut Vec<MediaFileDb>, fid: i64)
    ensures
        final(media)@ == media_not_of_folder(old(media)@, fid),
{
    let ghost ms = media@;
    let mut kept: Vec<MediaFileDb> = Vec::new();
    let n = media.len();
    assert(ms.take(0) =~= Seq::<MediaFileDb>::empty());
    for i in 0..n
        invariant
            n == ms.len(),
            media@ == ms,
            kept@ == media_not_of_folder(ms.take(i as int), fid),
    {
        proof {
            assert(ms.take(i + 1) =~= ms.take(i as int).push(ms[i as int]));
        }
        let m = &media[i];
        if m.folder_id != fid {
            kept.push(m.clone());
        }
    }
    proof {
        assert(ms.take(n as int) =~= ms);
    }
    *media = kept;
}

impl CacheStore {
    /// Unregister a folder: its row goes, its ledger rows and media rows
    /// cascade away, and the cached paths and hashes its entries held are
    /// returned so the caller can delete the derivative files. Entries of
    /// every other folder are untouched.
    pub fn remove_library_folder(&mut self, path: &str) -> (r: (Vec<String>, Vec<String>))
        requires
            old(self).wf(),
        ensures
            final(self).wf(),
            !seq_has_path(old(self).folders@, path@) ==> {
                &&& r.0@.len() == 0
                &&& r.1@.len() == 0
                &&& final(self).folders@ == old(self).folders@
                &&& final(self).entries@ == old(self).entries@
                &&& final(self).media@ == old(self).media@
            },
            seq_has_path(old(self).folders@, path@) ==> {
                let fid = seq_folder(old(self).folders@, path@).id;
                &&& final(self).entries@ == entries_not_of_folder(old(self).entries@, fid)
                &&& final(self).media@ == media_not_of_folder(old(self).media@, fid)
                &&& !seq_has_path(final(self).folders@, path@)
                &&& exists|i: int|
                    0 <= i < old(self).folders@.len() && old(self).folders@[i].path@ == path@
                        && final(self).folders@ == old(self).folders@.remove(i)
                &&& r.0@.len() == entries_of_folder(old(self).entries@, fid).len()
                &&& r.1@.len() == entries_of_folder(old(self).entries@, fid).len()
                &&& forall|k: int| 0 <= k < r.0@.len()
                        ==> (#[trigger] r.0@[k])@ == entries_of_folder(old(self).entries@, fid)[k].cached_path@
                &&& forall|k: int| 0 <= k < r.1@.len()
                        ==> (#[trigger] r.1@[k])@ == entries_of_folder(old(self).entries@, fid)[k].file_hash@
            },
            forall|q: Seq<char>| q != path@
                ==> #[trigger] seq_has_path(final(self).folders@, q) == seq_has_path(
                    old(self).folders@,
                    q,
                ),
            forall|q: Seq<char>| q != path@ && seq_has_path(old(self).folders@, q)
                ==> #[trigger] seq_folder(final(self).folders@, q) == seq_folder(
                    old(self).folders@,
                    q,
                ),
            final(self).next_id == old(self).next_id,
    {
        let ghost fs = self.folders@;
        let ghost es = self.entries@;
        let ghost ms = self.media@;
        match self.find_folder(path) {
            Some(i) => {
                let ghost gi = i as int;
                proof {
                    lemma_folder_at(fs, gi);
                }
                let fid = self.folders[i].id;
                let r = extract_folder_entries(&mut self.entries, fid);
                drop_media_of_folder(&mut self.media, fid);
                self.folders.remove(i);
                proof {
                    assert(self.folders@ == fs.remove(gi));
                    lemma_folder_remove_keeps_others(fs, gi);
                    lemma_filter_keeps_pairwise(
                        es,
                        |e: CacheEntryRow| e.folder_id != fid,
                        |a: CacheEntryRow, b: CacheEntryRow|
                            !(a.folder_id == b.folder_id && a.file_hash@ == b.file_hash@),
                    );
                    lemma_filter_keeps_all(
                        es,
                        |e: CacheEntryRow| e.folder_id != fid,
                        |e: CacheEntryRow| seq_has_fid(fs, e.folder_id),
                    );
                    assert forall|k: int| 0 <= k < self.entries@.len() implies seq_has_fid(
                        self.folders@,
                        (#[trigger] self.entries@[k]).folder_id,
                    ) by {
                        es.lemma_filter_pred(|e: CacheEntryRow| e.folder_id != fid, k);
                        assert(seq_has_fid(fs, self.entries@[k].folder_id));
                        assert(self.entries@[k].folder_id != fid);
                        assert(fs[gi].id == fid);
                    }
                    lemma_filter_keeps_pairwise(
                        ms,
                        |m: MediaFileDb| m.folder_id != fid,
                        |a: MediaFileDb, b: MediaFileDb| a.file_path@ != b.file_path@,
                    );
                    lemma_filter_keeps_all(
                        ms,
                        |m: MediaFileDb| m.folder_id != fid,
                        |m: MediaFileDb| seq_has_fid(fs, m.folder_id),
                    );
                    assert forall|k: int| 0 <= k < self.media@.len() implies seq_has_fid(
                        self.folders@,
                        (#[trigger] self.media@[k]).folder_id,
                    ) by {
                        ms.lemma_filter_pred(|m: MediaFileDb| m.folder_id != fid, k);
                        assert(seq_has_fid(fs, self.media@[k].folder_id));
                        assert(self.media@[k].folder_id != fid);
                        assert(fs[gi].id == fid);
                    }
                }
                r
            }
            None => (Vec::new(), Vec::new()),
        }
    }

    /// Clear a folder's ledger rows without unregistering the folder,
    /// returning the cached paths and hashes the rows held.
    pub fn clear_folder_cache(&mut self, path: &str) -> (r: (Vec<String>, Vec<String>))
        requires
            old(self).wf(),
        ensures
            final(self).wf(),
            final(self).folders@ == old(self).folders@,
            final(self).media@ == old(self).media@,
            final(self).next_id == old(self).next_id,
            !seq_has_path(old(self).folders@, path@) ==> {
                &&& r.0@.len() == 0
                &&& r.1@.len() == 0
                &&& final(self).entries@ == old(self).entries@
            },
            seq_has_path(old(self).folders@, path@) ==> {
                let fid = seq_folder(old(self).folders@, path@).id;
                &&& final(self).entries@ == entries_not_of_folder(old(self).entries@, fid)
                &&& r.0@.len() == entries_of_folder(old(self).entries@, fid).len()
                &&& r.1@.len() == entries_of_folder(old(self).entries@, fid).len()
                &&& forall|k: int| 0 <= k < r.0@.len()
                        ==> (#[trigger] r.0@[k])@ == entries_of_folder(old(self).entries@, fid)[k].cached_path@
                &&& forall|k: int| 0 <= k < r.1@.len()
                        ==> (#[trigger] r.1@[k])@ == entries_of_folder(old(self).entries@, fid)[k].file_hash@
            },
    {
        let ghost fs = self.folders@;
        let ghost es = self.entries@;
        match self.find_folder(path) {
            Some(i) => {
                let ghost gi = i as int;
                proof {
                    lemma_folder_at(fs, gi);
                }
                let fid = self.folders[i].id;
                let r = extract_folder_entries(&mut self.entries, fid);
                proof {
                    lemma_filter_keeps_pairwise(
                        es,
                        |e: CacheEntryRow| e.folder_id != fid,
                        |a: CacheEntryRow, b: CacheEntryRow|
                            !(a.folder_id == b.folder_id && a.file_hash@ == b.file_hash@),
                    );
                    lemma_filter_keeps_all(
                        es,
                        |e: CacheEntryRow| e.folder_id != fid,
                        |e: CacheEntryRow| seq_has_fid(fs, e.folder_id),
                    );
                }
                r
            }
            None => (Vec::new(), Vec::new()),
        }
    }

    /// Every registered folder as `(path, folder_hash)`, most recently
    /// registered first.
    pub fn get_all_folders(&self) -> (r: Vec<(String, String)>)
        ensures
            r@.len() == self.folders@.len(),
            forall|k: int| 0 <= k < r@.len() ==> {
                &&& (#[trigger] r@[k]).0@ == self.folders@[self.folders@.len() - 1 - k].path@
                &&& r@[k].1@ == self.folders@[self.folders@.len() - 1 - k].folder_hash@
            },
    {
        let mut out: Vec<(String, String)> = Vec::new();
        let n = self.folders.len();
        for k in 0..n
            invariant
                n == self.folders@.len(),
                out@.len() == k,
                forall|j: int| 0 <= j < k ==> {
                    &&& (#[trigger] out@[j]).0@ == self.folders@[n - 1 - j].path@
                    &&& out@[j].1@ == self.folders@[n - 1 - j].folder_hash@
                },
        {
            let row = &self.folders[n - 1 - k];
            out.push((row.path.clone(), row.folder_hash.clone()));
        }
        out
    }

    /// Update a folder's recorded file count; a missing id changes nothing.
    pub fn update_folder_stats(&mut self, folder_id: i64, total_files: i64)
        requires
            old(self).wf(),
        ensures
            final(self).wf(),
            final(self).entries@ == old(self).entries@,
            final(self).media@ == old(self).media@,
            final(self).next_id == old(self).next_id,
            !seq_has_fid(old(self).folders@, folder_id) ==> final(self).folders@ == old(
                self,
            ).folders@,
            seq_has_fid(old(self).folders@, folder_id) ==> exists|i: int|
                0 <= i < old(self).folders@.len() && old(self).folders@[i].id == folder_id
                    && final(self).folders@ == old(self).folders@.update(
                    i,
                    (FolderRow { total_files: total_files, ..old(self).folders@[i] }),
                ),
    {
        let ghost fs = self.folders@;
        match self.find_folder_by_id(folder_id) {
            Some(i) => {
                let ghost gi = i as int;
                let slot = &mut self.folders[i];
                slot.total_files = total_files;
                proof {
                    assert(self.folders@[gi] == (FolderRow {
                        total_files: total_files,
                        ..fs[gi]
                    }));
                    assert(self.folders@ == fs.update(gi, self.folders@[gi]));
                    lemma_folder_update_keeps_others(fs, self.folders@, gi);
                    lemma_same_fids_update(fs, self.folders@, gi);
                }
            }
            None => {}
        }
    }
}


/// A ledger with no row carrying `h` answers `None`.
proof fn lemma_first_cached_none(es: Seq<CacheEntryRow>, h: Seq<char>)
    requires
        forall|i: int| 0 <= i < es.len() ==> (#[trigger] es[i]).file_hash@ != h,
    ensures
        first_cached_path(es, h) is None,
    decreases es.len(),
{
    if es.len() > 0 {
        assert forall|i: int| 0 <= i < es.drop_first().len() implies (#[trigger] es.drop_first()[i]).file_hash@ != h by {
            assert(es.drop_first()[i] == es[i + 1]);
        }
        lemma_first_cached_none(es.drop_first(), h);
    }
}

/// The first row carrying `h` decides the answer.
proof fn lemma_first_cached_at(es: Seq<CacheEntryRow>, h: Seq<char>, i: int)
    requires
        0 <= i < es.len(),
        es[i].file_hash@ == h,
        forall|j: int| 0 <= j < i ==> (#[trigger] es[j]).file_hash@ != h,
    ensures
        first_cached_path(es, h) == Option::Some(es[i].cached_path@),
    decreases es.len(),
{
    if i > 0 {
        assert forall|j: int| 0 <= j < i - 1 implies (#[trigger] es.drop_first()[j]).file_hash@ != h by {
            assert(es.drop_first()[j] == es[j + 1]);
        }
        assert(es.drop_first()[i - 1] == es[i]);
        lemma_first_cached_at(es.drop_first(), h, i - 1);
    }
}

impl CacheStore {
    /// Index of the first ledger row carrying this hash, if any.
    fn find_entry_by_hash(&self, file_hash: &str) -> (r: Option<usize>)
        ensures
            match r {
                Some(i) => {
                    &&& i < self.entries@.len()
                    &&& self.entries@[i as int].file_hash@ == file_hash@
                    &&& forall|j: int| 0 <= j < i ==> (#[trigger] self.entries@[j]).file_hash@ != file_hash@
                },
                None => forall|j: int|
                    0 <= j < self.entries@.len() ==> (#[trigger] self.entries@[j]).file_hash@ != file_hash@,
            },
    {
        for i in 0..self.entries.len()
            invariant
                forall|j: int| 0 <= j < i ==> (#[trigger] self.entries@[j]).file_hash@ != file_hash@,
        {
            if str_eq(self.entries[i].file_hash.as_str(), file_hash) {
                return Some(i);
            }
        }
        None
    }

    /// The dedup lookup: the cached path recorded for this content hash,
    /// across all folders.
    pub fn get_cached_path(&self, file_hash: &str) -> (r: Option<String>)
        ensures
            r is Some <==> exists|i: int|
                0 <= i < self.entries@.len() && (#[trigger] self.entries@[i]).file_hash@ == file_hash@,
            match r {
                Some(p) => first_cached_path(self.entries@, file_hash@) == Option::Some(p@),
                None => first_cached_path(self.entries@, file_hash@) is None,
            },
    {
        match self.find_entry_by_hash(file_hash) {
            Some(i) => {
                proof {
                    lemma_first_cached_at(self.entries@, file_hash@, i as int);
                }
                Some(self.entries[i].cached_path.clone())
            }
            None => {
                proof {
                    lemma_first_cached_none(self.entries@, file_hash@);
                }
                None
            }
        }
    }

    /// Every original path recorded for this content hash, in table order.
    pub fn paths_with_hash(&self, file_hash: &str) -> (r: Vec<String>)
        ensures
            r@.len() == entries_with_hash(self.entries@, file_hash@).len(),
            forall|k: int| 0 <= k < r@.len()
                ==> (#[trigger] r@[k])@ == entries_with_hash(self.entries@, file_hash@)[k].original_path@,
    {
        let ghost es = self.entries@;
        let mut out: Vec<String> = Vec::new();
        let n = self.entries.len();
        assert(es.take(0) =~= Seq::<CacheEntryRow>::empty());
        for i in 0..n
            invariant
                n == es.len(),
                self.entries@ == es,
                out@.len() == entries_with_hash(es.take(i as int), file_hash@).len(),
                forall|k: int| 0 <= k < out@.len()
                    ==> (#[trigger] out@[k])@ == entries_with_hash(es.take(i as int), file_hash@)[k].original_path@,
        {
            proof {
                assert(es.take(i + 1) =~= es.take(i as int).push(es[i as int]));
            }
            if str_eq(self.entries[i].file_hash.as_str(), file_hash) {
                out.push(self.entries[i].original_path.clone());
            }
        }
        proof {
            assert(es.take(n as int) =~= es);
        }
        out
    }

    /// The self-healing dedup oracle. The caller reports whether any of the
    /// recorded original paths still exists on disk; on a miss every stale
    /// row of this hash is purged, so the hash stays absent afterwards.
    pub fn check_file_exists(&mut self, file_hash: &str, found_on_disk: bool) -> (r: bool)
        requires
            old(self).wf(),
        ensures
            final(self).wf(),
            r == found_on_disk,
            found_on_disk ==> final(self).entries@ == old(self).entries@,
            !found_on_disk ==> final(self).entries@ == entries_without_hash(
                old(self).entries@,
                file_hash@,
            ),
            final(self).folders@ == old(self).folders@,
            final(self).media@ == old(self).media@,
            final(self).next_id == old(self).next_id,
    {
        if found_on_disk {
            return true;
        }
        let ghost es = self.entries@;
        let ghost fs = self.folders@;
        let mut kept: Vec<CacheEntryRow> = Vec::new();
        let n = self.entries.len();
        assert(es.take(0) =~= Seq::<CacheEntryRow>::empty());
        for i in 0..n
            invariant
                n == es.len(),
                self.entries@ == es,
                kept@ == entries_without_hash(es.take(i as int), file_hash@),
        {
            proof {
                assert(es.take(i + 1) =~= es.take(i as int).push(es[i as int]));
            }
            if !str_eq(self.entries[i].file_hash.as_str(), file_hash) {
                kept.push(self.entries[i].clone());
            }
        }
        proof {
            assert(es.take(n as int) =~= es);
        }
        self.entries = kept;
        proof {
            lemma_filter_keeps_pairwise(
                es,
                |e: CacheEntryRow| e.file_hash@ != file_hash@,
                |a: CacheEntryRow, b: CacheEntryRow|
                    !(a.folder_id == b.folder_id && a.file_hash@ == b.file_hash@),
            );
            lemma_filter_keeps_all(
                es,
                |e: CacheEntryRow| e.file_hash@ != file_hash@,
                |e: CacheEntryRow| seq_has_fid(fs, e.folder_id),
            );
        }
        false
    }

    /// Record (or idempotently re-record) a cache entry under its
    /// `(folder, hash)` key: the key's prior row, if any, is replaced.
    pub fn add_cache_entry(
        &mut self,
        folder_id: i64,
        original_path: &str,
        file_hash: &str,
        cached_path: &str,
        media_type: &str,
        file_size: i64,
        cached_size: i64,
    ) -> (r: Result<(), StoreError>)
        requires
            old(self).wf(),
        ensures
            final(self).wf(),
            r == Err::<(), StoreError>(StoreError::UnknownFolder) <==> !seq_has_fid(
                old(self).folders@,
                folder_id,
            ),
            r == Err::<(), StoreError>(StoreError::StorageFull) <==> (seq_has_fid(
                old(self).folders@,
                folder_id,
            ) && old(self).next_id == i64::MAX),
            r is Err ==> final(self).entries@ == old(self).entries@ && final(self).next_id == old(
                self,
            ).next_id,
            r is Ok ==> {
                let added = final(self).entries@.last();
                &&& final(self).entries@ == entries_without_key(
                    old(self).entries@,
                    folder_id,
                    file_hash@,
                ).push(added)
                &&& added.id == old(self).next_id
                &&& added.folder_id == folder_id
                &&& added.original_path@ == original_path@
                &&& added.file_hash@ == file_hash@
                &&& added.cached_path@ == cached_path@
                &&& added.media_type@ == media_type@
                &&& added.file_size == file_size
                &&& added.cached_size == cached_size
                &&& final(self).next_id == old(self).next_id + 1
            },
            final(self).folders@ == old(self).folders@,
            final(self).media@ == old(self).media@,
    {
        let ghost es = self.entries@;
        let ghost fs = self.folders@;
        match self.find_folder_by_id(folder_id) {
            Some(_) => {}
            None => {
                return Err(StoreError::UnknownFolder);
            }
        }
        if self.next_id == i64::MAX {
            return Err(StoreError::StorageFull);
        }
        let mut kept: Vec<CacheEntryRow> = Vec::new();
        let n = self.entries.len();
        assert(es.take(0) =~= Seq::<CacheEntryRow>::empty());
        for i in 0..n
            invariant
                n == es.len(),
                self.entries@ == es,
                kept@ == entries_without_key(es.take(i as int), folder_id, file_hash@),
        {
            proof {
                assert(es.take(i + 1) =~= es.take(i as int).push(es[i as int]));
            }
            let e = &self.entries[i];
            if !(e.folder_id == folder_id && str_eq(e.file_hash.as_str(), file_hash)) {
                kept.push(e.clone());
            }
        }
        proof {
            assert(es.take(n as int) =~= es);
        }
        let row = CacheEntryRow {
            id: self.next_id,
            folder_id,
            original_path: original_path.to_owned(),
            file_hash: file_hash.to_owned(),
            cached_path: cached_path.to_owned(),
            media_type: media_type.to_owned(),
            file_size,
            cached_size,
        };
        kept.push(row);
        self.entries = kept;
        self.next_id = self.next_id + 1;
        proof {
            let pred = |e: CacheEntryRow| !(e.folder_id == folder_id && e.file_hash@ == file_hash@);
            lemma_filter_keeps_pairwise(
                es,
                pred,
                |a: CacheEntryRow, b: CacheEntryRow|
                    !(a.folder_id == b.folder_id && a.file_hash@ == b.file_hash@),
            );
            lemma_filter_keeps_all(es, pred, |e: CacheEntryRow| seq_has_fid(fs, e.folder_id));
            let purged = entries_without_key(es, folder_id, file_hash@);
            let added = self.entries@.last();
            assert(self.entries@ == purged.push(added));
            assert forall|i: int, j: int| 0 <= i < j < self.entries@.len() implies !(
                self.entries@[i].folder_id == self.entries@[j].folder_id
                && self.entries@[i].file_hash@ == self.entries@[j].file_hash@) by {
                if j < purged.len() {
                    assert(self.entries@[i] == purged[i] && self.entries@[j] == purged[j]);
                } else {
                    assert(self.entries@[i] == purged[i]);
                    es.lemma_filter_pred(pred, i);
                }
            }
        }
        Ok(())
    }

    /// Number of ledger rows.
    pub fn get_total_entry_count(&self) -> (r: usize)
        ensures
            r == self.entries@.len(),
    {
        self.entries.len()
    }

    /// Number of media rows.
    pub fn get_media_files_count(&self) -> (r: usize)
        ensures
            r == self.media@.len(),
    {
        self.media.len()
    }

    /// Aggregate ledger statistics: row count and exact byte sums.
    pub fn get_cache_stats(&self) -> (r: CacheStats)
        ensures
            r.entry_count == self.entries@.len(),
            r.original_size == sum_original(self.entries@),
            r.cached_size == sum_cached(self.entries@),
    {
        let ghost es = self.entries@;
        let mut orig: i128 = 0;
        let mut cach: i128 = 0;
        let n = self.entries.len();
        assert(es.take(0) =~= Seq::<CacheEntryRow>::empty());
        for i in 0..n
            invariant
                n == es.len(),
                self.entries@ == es,
                orig == sum_original(es.take(i as int)),
                cach == sum_cached(es.take(i as int)),
                -(i as int) * 0x8000_0000_0000_0000 <= orig as int
                    <= (i as int) * 0x7fff_ffff_ffff_ffff,
                -(i as int) * 0x8000_0000_0000_0000 <= cach as int
                    <= (i as int) * 0x7fff_ffff_ffff_ffff,
        {
            proof {
                let t = es.take(i + 1);
                assert(t =~= es.take(i as int).push(es[i as int]));
                assert(t.drop_last() =~= es.take(i as int));
                assert(t.last() == es[i as int]);
                assert(usize::MAX <= 0xffff_ffff_ffff_ffff) by (nonlinear_arith);
                assert((i as int) + 1 <= 0x1_0000_0000_0000_0000);
            }
            orig = orig + (self.entries[i].file_size as i128);
            cach = cach + (self.entries[i].cached_size as i128);
        }
        proof {
            assert(es.take(n as int) =~= es);
        }
        CacheStats { entry_count: n, original_size: orig, cached_size: cach }
    }

    /// The most recent ledger rows (up to 100), newest first, as
    /// `(hash, original path, media type)`.
    pub fn get_all_cache_entries(&self) -> (r: Vec<(String, String, String)>)
        ensures
            r@.len() == if self.entries@.len() <= 100 { self.entries@.len() } else { 100 },
            forall|k: int| 0 <= k < r@.len() ==> {
                let e = self.entries@[self.entries@.len() - 1 - k];
                &&& (#[trigger] r@[k]).0@ == e.file_hash@
                &&& r@[k].1@ == e.original_path@
                &&& r@[k].2@ == e.media_type@
            },
    {
        let n = self.entries.len();
        let count: usize = if n <= 100 { n } else { 100 };
        let mut out: Vec<(String, String, String)> = Vec::new();
        for k in 0..count
            invariant
                count <= n == self.entries@.len(),
                out@.len() == k,
                forall|j: int| 0 <= j < k ==> {
                    let e = self.entries@[n - 1 - j];
                    &&& (#[trigger] out@[j]).0@ == e.file_hash@
                    &&& out@[j].1@ == e.original_path@
                    &&& out@[j].2@ == e.media_type@
                },
        {
            let e = &self.entries[n - 1 - k];
            out.push((e.file_hash.clone(), e.original_path.clone(), e.media_type.clone()));
        }
        out
    }

    /// Index of the media row stored under this file path, if any.
    fn find_media_by_path(&self, file_path: &str) -> (r: Option<usize>)
        ensures
            match r {
                Some(i) => i < self.media@.len() && self.media@[i as int].file_path@ == file_path@,
                None => forall|j: int|
                    0 <= j < self.media@.len() ==> (#[trigger] self.media@[j]).file_path@ != file_path@,
            },
    {
        for i in 0..self.media.len()
            invariant
                forall|j: int| 0 <= j < i ==> (#[trigger] self.media@[j]).file_path@ != file_path@,
        {
            if str_eq(self.media[i].file_path.as_str(), file_path) {
                return Some(i);
            }
        }
        None
    }

    /// Record (or re-record) a media row under its globally unique file
    /// path: the path's prior row, if any, is replaced.
    pub fn upsert_media_file(
        &mut self,
        folder_id: i64,
        file_path: &str,
        file_hash: &str,
        file_size: i64,
        width: i32,
        height: i32,
        taken_at: Option<i64>,
        modified_at: i64,
        thumbnail_path: Option<&str>,
        media_type: &str,
        created_at: i64,
    ) -> (r: Result<(), StoreError>)
        requires
            old(self).wf(),
        ensures
            final(self).wf(),
            r == Err::<(), StoreError>(StoreError::UnknownFolder) <==> !seq_has_fid(
                old(self).folders@,
                folder_id,
            ),
            r == Err::<(), StoreError>(StoreError::StorageFull) <==> (seq_has_fid(
                old(self).folders@,
                folder_id,
            ) && old(self).next_id == i64::MAX),
            r is Err ==> final(self).media@ == old(self).media@ && final(self).next_id == old(
                self,
            ).next_id,
            r is Ok ==> {
                let added = final(self).media@.last();
                &&& final(self).media@ == media_without_path(old(self).media@, file_path@).push(
                    added,
                )
                &&& added.id == old(self).next_id
                &&& added.folder_id == folder_id
                &&& added.file_path@ == file_path@
                &&& added.file_hash@ == file_hash@
                &&& added.file_size == file_size
                &&& added.width == width
                &&& added.height == height
                &&& added.taken_at == taken_at
                &&& added.modified_at == modified_at
                &&& (match added.thumbnail_path {
                    Some(t) => thumbnail_path is Some && t@ == thumbnail_path.unwrap()@,
                    None => thumbnail_path is None,
                })
                &&& added.media_type@ == media_type@
                &&& added.created_at == created_at
                &&& final(self).next_id == old(self).next_id + 1
            },
            final(self).folders@ == old(self).folders@,
            final(self).entries@ == old(self).entries@,
    {
        let ghost ms = self.media@;
        let ghost fs = self.folders@;
        match self.find_folder_by_id(folder_id) {
            Some(_) => {}
            None => {
                return Err(StoreError::UnknownFolder);
            }
        }
        if self.next_id == i64::MAX {
            return Err(StoreError::StorageFull);
        }
        let mut kept: Vec<MediaFileDb> = Vec::new();
        let n = self.media.len();
        assert(ms.take(0) =~= Seq::<MediaFileDb>::empty());
        for i in 0..n
            invariant
                n == ms.len(),
                self.media@ == ms,
                kept@ == media_without_path(ms.take(i as int), file_path@),
        {
            proof {
                assert(ms.take(i + 1) =~= ms.take(i as int).push(ms[i as int]));
            }
            let m = &self.media[i];
            if !str_eq(m.file_path.as_str(), file_path) {
                kept.push(m.clone());
            }
        }
        proof {
            assert(ms.take(n as int) =~= ms);
        }
        let row = MediaFileDb {
            id: self.next_id,
            folder_id,
            file_path: file_path.to_owned(),
            file_hash: file_hash.to_owned(),
            file_size,
            width,
            height,
            taken_at,
            modified_at,
            thumbnail_path: match thumbnail_path {
                Some(t) => Some(t.to_owned()),
                None => None,
            },
            media_type: media_type.to_owned(),
            created_at,
        };
        kept.push(row);
        self.media = kept;
        self.next_id = self.next_id + 1;
        proof {
            let pred = |m: MediaFileDb| m.file_path@ != file_path@;
            lemma_filter_keeps_pairwise(
                ms,
                pred,
                |a: MediaFileDb, b: MediaFileDb| a.file_path@ != b.file_path@,
            );
            lemma_filter_keeps_all(ms, pred, |m: MediaFileDb| seq_has_fid(fs, m.folder_id));
            let purged = media_without_path(ms, file_path@);
            let added = self.media@.last();
            assert(self.media@ == purged.push(added));
            assert forall|i: int, j: int| 0 <= i < j < self.media@.len() implies
                self.media@[i].file_path@ != self.media@[j].file_path@ by {
                if j < purged.len() {
                    assert(self.media@[i] == purged[i] && self.media@[j] == purged[j]);
                } else {
                    assert(self.media@[i] == purged[i]);
                    ms.lemma_filter_pred(pred, i);
                }
            }
        }
        Ok(())
    }

    /// Every media row, in table order.
    pub fn load_all_media_files(&self) -> (r: Vec<MediaFileDb>)
        ensures
            r@ == self.media@,
    {
        let mut out: Vec<MediaFileDb> = Vec::new();
        let n = self.media.len();
        for i in 0..n
            invariant
                n == self.media@.len(),
                out@.len() == i,
                forall|j: int| 0 <= j < i ==> out@[j] == self.media@[j],
        {
            out.push(self.media[i].clone());
        }
        proof {
            assert(out@ =~= self.media@);
        }
        out
    }

    /// Forget the media row stored under one file path.
    pub fn delete_media_file_by_path(&mut self, file_path: &str)
        requires
            old(self).wf(),
        ensures
            final(self).wf(),
            final(self).media@ == media_without_path(old(self).media@, file_path@),
            final(self).folders@ == old(self).folders@,
            final(self).entries@ == old(self).entries@,
            final(self).next_id == old(self).next_id,
    {
        let ghost ms = self.media@;
        let ghost fs = self.folders@;
        let mut kept: Vec<MediaFileDb> = Vec::new();
        let n = self.media.len();
        assert(ms.take(0) =~= Seq::<MediaFileDb>::empty());
        for i in 0..n
            invariant
                n == ms.len(),
                self.media@ == ms,
                kept@ == media_without_path(ms.take(i as int), file_path@),
        {
            proof {
                assert(ms.take(i + 1) =~= ms.take(i as int).push(ms[i as int]));
            }
            let m = &self.media[i];
            if !str_eq(m.file_path.as_str(), file_path) {
                kept.push(m.clone());
            }
        }
        proof {
            assert(ms.take(n as int) =~= ms);
        }
        self.media = kept;
        proof {
            let pred = |m: MediaFileDb| m.file_path@ != file_path@;
            lemma_filter_keeps_pairwise(
                ms,
                pred,
                |a: MediaFileDb, b: MediaFileDb| a.file_path@ != b.file_path@,
            );
            lemma_filter_keeps_all(ms, pred, |m: MediaFileDb| seq_has_fid(fs, m.folder_id));
        }
    }
}

/// Removing a folder splits the ledger exactly: every row either belongs to
/// the folder (and is returned) or survives untouched, and nothing else.
pub proof fn lemma_folder_cascade(es: Seq<CacheEntryRow>, fid: i64)
    ensures
        entries_of_folder(es, fid).len() + entries_not_of_folder(es, fid).len() == es.len(),
        forall|i: int| 0 <= i < es.len() && (#[trigger] es[i]).folder_id == fid
            ==> entries_of_folder(es, fid).contains(es[i]),
        forall|i: int| 0 <= i < es.len() && (#[trigger] es[i]).folder_id != fid
            ==> entries_not_of_folder(es, fid).contains(es[i]),
        forall|k: int| 0 <= k < entries_of_folder(es, fid).len()
            ==> (#[trigger] entries_of_folder(es, fid)[k]).folder_id == fid,
        forall|k: int| 0 <= k < entries_not_of_folder(es, fid).len()
            ==> (#[trigger] entries_not_of_folder(es, fid)[k]).folder_id != fid,
        forall|k: int| 0 <= k < entries_not_of_folder(es, fid).len()
            ==> es.contains(#[trigger] entries_not_of_folder(es, fid)[k]),
    decreases es.len(),
{
    reveal(Seq::filter);
    let own = |e: CacheEntryRow| e.folder_id == fid;
    let other = |e: CacheEntryRow| e.folder_id != fid;
    if es.len() > 0 {
        lemma_folder_cascade(es.drop_last(), fid);
        assert(es.drop_last().push(es.last()) =~= es);
    }
    assert forall|i: int| 0 <= i < es.len() && (#[trigger] es[i]).folder_id == fid implies
        entries_of_folder(es, fid).contains(es[i]) by {
        es.lemma_filter_contains(own, i);
    }
    assert forall|i: int| 0 <= i < es.len() && (#[trigger] es[i]).folder_id != fid implies
        entries_not_of_folder(es, fid).contains(es[i]) by {
        es.lemma_filter_contains(other, i);
    }
    assert forall|k: int| 0 <= k < entries_of_folder(es, fid).len() implies (#[trigger]
    entries_of_folder(es, fid)[k]).folder_id == fid by {
        es.lemma_filter_pred(own, k);
    }
    assert forall|k: int| 0 <= k < entries_not_of_folder(es, fid).len() implies (#[trigger]
    entries_not_of_folder(es, fid)[k]).folder_id != fid by {
        es.lemma_filter_pred(other, k);
    }
    assert forall|k: int| 0 <= k < entries_not_of_folder(es, fid).len() implies es.contains(
        #[trigger] entries_not_of_folder(es, fid)[k],
    ) by {
        entries_not_of_folder(es, fid).lemma_index_contains(k);
        es.lemma_filter_contains_rev(other, entries_not_of_folder(es, fid)[k]);
    }
}

/// Once a miss has purged a hash, the ledger holds no row for it: the next
/// lookup finds no recorded paths, so the oracle's verdict stays false and
/// the entries are not re-created.
pub proof fn lemma_self_healing(es: Seq<CacheEntryRow>, h: Seq<char>)
    ensures
        forall|k: int| 0 <= k < entries_without_hash(es, h).len()
            ==> (#[trigger] entries_without_hash(es, h)[k]).file_hash@ != h,
        entries_with_hash(entries_without_hash(es, h), h).len() == 0,
        first_cached_path(entries_without_hash(es, h), h) is None,
{
    lemma_without_hash_pred(es, h);
    lemma_no_hits(entries_without_hash(es, h), h);
    lemma_first_cached_none(entries_without_hash(es, h), h);
}

/// Every row surviving a hash purge carries a different hash.
proof fn lemma_without_hash_pred(es: Seq<CacheEntryRow>, h: Seq<char>)
    ensures
        forall|k: int| 0 <= k < entries_without_hash(es, h).len()
            ==> (#[trigger] entries_without_hash(es, h)[k]).file_hash@ != h,
    decreases es.len(),
{
    reveal(Seq::filter);
    if es.len() > 0 {
        lemma_without_hash_pred(es.drop_last(), h);
        let f = entries_without_hash(es, h);
        let sub = entries_without_hash(es.drop_last(), h);
        if es.last().file_hash@ != h {
            assert(f == sub.push(es.last()));
        } else {
            assert(f == sub);
        }
    }
}

/// A ledger in which no row carries `h` has an empty `h` slice.
proof fn lemma_no_hits(es: Seq<CacheEntryRow>, h: Seq<char>)
    requires
        forall|k: int| 0 <= k < es.len() ==> (#[trigger] es[k]).file_hash@ != h,
    ensures
        entries_with_hash(es, h).len() == 0,
    decreases es.len(),
{
    reveal(Seq::filter);
    if es.len() > 0 {
        assert forall|k: int| 0 <= k < es.drop_last().len() implies (#[trigger] es.drop_last()[k]).file_hash@ != h by {
            assert(es.drop_last()[k] == es[k]);
        }
        lemma_no_hits(es.drop_last(), h);
        assert(es.last() == es[es.len() - 1]);
    }
}

} // verus!
