//! Scanning and library bookkeeping around the store: the media record a
//! scan produces for each file, stable ids derived from file paths, path
//! normalization and longest-prefix folder ownership, rescan ghost
//! eviction (records whose files vanished from disk), and the save/load
//! round between scan results and the media table.

use vstd::prelude::*;
use vstd::string::*;
use crate::media::MediaType;
use crate::store::{CacheStore, MediaFileDb, FolderRow, StoreError, media_without_path,
    seq_has_fid};
use crate::strkit::{contains_str, is_prefix, str_starts_with};

verus! {

/// One scanned media file, as the shell displays and persists it;
/// timestamps are seconds since the Unix epoch.
pub struct MediaFile {
    pub id: i64,
    pub file_path: String,
    pub file_hash: String,
    pub file_size: i64,
    pub width: i32,
    pub height: i32,
    pub taken_at: Option<i64>,
    pub modified_at: i64,
    pub thumbnail_path: Option<String>,
    pub media_type: MediaType,
    pub created_at: i64,
}

/// Relies on std::time::SystemTime::now; nothing is promised of the clock
/// (a pre-epoch clock reads as zero).
#[verifier::external_body]
fn now_secs() -> u64 {
    match std::time::SystemTime::now().duration_since(std::time::UNIX_EPOCH) {
        Ok(d) => d.as_secs(),
        Err(_) => 0,
    }
}

impl MediaFile {
    /// A freshly scanned file: no id, no capture date, no thumbnail yet;
    /// both timestamps read the clock.
    pub fn new(
        file_path: String,
        file_hash: String,
        file_size: i64,
        width: i32,
        height: i32,
        media_type: MediaType,
    ) -> (r: MediaFile)
        ensures
            r.id == 0,
            r.file_path == file_path,
            r.file_hash == file_hash,
            r.file_size == file_size,
            r.width == width,
            r.height == height,
            r.taken_at is None,
            r.thumbnail_path is None,
            r.media_type == media_type,
            r.modified_at == r.created_at,
            r.modified_at >= 0,
    {
        let t = now_secs();
        let ts: i64 = if t > 0x7fff_ffff_ffff_ffff {
            i64::MAX
        } else {
            t as i64
        };
        MediaFile {
            id: 0,
            file_path,
            file_hash,
            file_size,
            width,
            height,
            taken_at: None,
            modified_at: ts,
            thumbnail_path: None,
            media_type,
            created_at: ts,
        }
    }
}

/// The 64-bit value the standard hasher assigns to a string; a function of
/// the string alone.
pub uninterp spec fn path_id_of(p: Seq<char>) -> u64;

/// Relies on std::hash::DefaultHasher: instances created through `new` are
/// documented to hash identically, so the value depends on the string
/// alone.
#[verifier::external_body]
fn hash_path_u64(path: &str) -> (r: u64)
    ensures
        r == path_id_of(path@),
{
    let mut h = std::collections::hash_map::DefaultHasher::new();
    std::hash::Hash::hash(path, &mut h);
    std::hash::Hasher::finish(&h)
}

/// Assign a scanned file its display id: the path's hash, masked to stay a
/// nonnegative 64-bit integer.
pub fn assign_media_id(file: &mut MediaFile)
    ensures
        final(file).id == (path_id_of(old(file).file_path@) & 0x7fff_ffff_ffff_ffff) as i64,
        final(file).id >= 0,
        *final(file) == (MediaFile { id: final(file).id, ..*old(file) }),
{
    let h = hash_path_u64(file.file_path.as_str());
    let masked = h & 0x7fff_ffff_ffff_ffff;
    proof {
        assert(masked <= 0x7fff_ffff_ffff_ffff) by (bit_vector)
            requires
                masked == h & 0x7fff_ffff_ffff_ffff,
        ;
    }
    file.id = masked as i64;
}

/// What standard lowercasing makes of a string; a function of the
/// characters alone.
pub uninterp spec fn lower_of(s: Seq<char>) -> Seq<char>;

/// Relies on str::to_lowercase: the result depends on the characters
/// alone.
#[verifier::external_body]
fn lowercase(s: &str) -> (r: String)
    ensures
        r@ == lower_of(s@),
{
    s.to_lowercase()
}

/// Backslashes turned to slashes, for platform-independent comparisons.
pub open spec fn slashes_of(p: Seq<char>) -> Seq<char> {
    p.map_values(|c: char| if c == '\\' { '/' } else { c })
}

/// Relies on str::replace with a single-character pattern and a
/// single-character replacement: each matching character is substituted in
/// place.
#[verifier::external_body]
fn slashify(s: &str) -> (r: String)
    ensures
        r@ == slashes_of(s@),
{
    s.replace('\\', "/")
}

/// A file path as ownership comparisons see it: forward slashes,
/// lowercased.
pub open spec fn normalized_path_of(p: Seq<char>) -> Seq<char> {
    lower_of(slashes_of(p))
}

/// A folder path as ownership comparisons see it: normalized, with a
/// trailing slash so that prefix matching respects path components.
pub open spec fn normalized_dir_of(p: Seq<char>) -> Seq<char> {
    let l = normalized_path_of(p);
    if l.len() > 0 && l.last() == '/' {
        l
    } else {
        l + "/"@
    }
}

/// Normalize a file path for comparison.
pub fn normalize_path(p: &str) -> (r: String)
    ensures
        r@ == normalized_path_of(p@),
{
    lowercase(slashify(p).as_str())
}

/// Normalize a folder path for prefix matching.
pub fn normalize_dir(p: &str) -> (r: String)
    ensures
        r@ == normalized_dir_of(p@),
{
    let mut l = normalize_path(p);
    let n = l.as_str().unicode_len();
    if n > 0 && l.as_str().get_char(n - 1) == '/' {
        l
    } else {
        l.append("/");
        l
    }
}

/// Whether some registered folder owns this file path, by normalized
/// prefix.
pub open spec fn has_owner(fs: Seq<FolderRow>, file_path: Seq<char>) -> bool {
    exists|j: int|
        0 <= j < fs.len() && is_prefix(
            normalized_dir_of((#[trigger] fs[j]).path@),
            normalized_path_of(file_path),
        )
}

impl CacheStore {
    /// The folder that owns a file path: among the registered folders whose
    /// normalized path (with trailing slash) prefixes the file's normalized
    /// path, one of maximal prefix length; None when no folder matches.
    pub fn find_owner_folder(&self, file_path: &str) -> (r: Option<i64>)
        ensures
            r is Some <==> has_owner(self.folders@, file_path@),
            r is Some ==> exists|j: int|
                0 <= j < self.folders@.len() && (#[trigger] self.folders@[j]).id == r.unwrap()
                    && is_prefix(
                    normalized_dir_of(self.folders@[j].path@),
                    normalized_path_of(file_path@),
                ) && (forall|l: int|
                    0 <= l < self.folders@.len() && is_prefix(
                        normalized_dir_of((#[trigger] self.folders@[l]).path@),
                        normalized_path_of(file_path@),
                    ) ==> normalized_dir_of(self.folders@[l].path@).len() <= normalized_dir_of(
                        self.folders@[j].path@,
                    ).len()),
    {
        let target = normalize_path(file_path);
        let mut best: Option<(usize, i64)> = None;
        let ghost fs = self.folders@;
        let ghost fp = file_path@;
        for i in 0..self.folders.len()
            invariant
                fs == self.folders@,
                fp == file_path@,
                target@ == normalized_path_of(fp),
                match best {
                    Some((blen, bid)) => exists|j: int|
                        0 <= j < i && (#[trigger] fs[j]).id == bid && is_prefix(
                            normalized_dir_of(fs[j].path@),
                            normalized_path_of(fp),
                        ) && normalized_dir_of(fs[j].path@).len() == blen && (forall|l: int|
                            0 <= l < i && is_prefix(
                                normalized_dir_of((#[trigger] fs[l]).path@),
                                normalized_path_of(fp),
                            ) ==> normalized_dir_of(fs[l].path@).len() <= blen),
                    None => forall|l: int|
                        0 <= l < i ==> !is_prefix(
                            normalized_dir_of((#[trigger] fs[l]).path@),
                            normalized_path_of(fp),
                        ),
                },
        {
            let dir = normalize_dir(self.folders[i].path.as_str());
            if str_starts_with(target.as_str(), dir.as_str()) {
                let dlen = dir.as_str().unicode_len();
                let take = match best {
                    Some((blen, _)) => dlen > blen,
                    None => true,
                };
                if take {
                    best = Some((dlen, self.folders[i].id));
                }
            }
        }
        match best {
            Some((_, id)) => Some(id),
            None => None,
        }
    }
}

/// How many of a batch of scanned files no registered folder owns.
pub open spec fn count_unowned(fs: Seq<FolderRow>, files: Seq<MediaFile>) -> nat
    decreases files.len(),
{
    if files.len() == 0 {
        0
    } else {
        count_unowned(fs, files.drop_last()) + if has_owner(fs, files.last().file_path@) {
            0nat
        } else {
            1nat
        }
    }
}

/// Whether the media table holds a row for this file path.
pub open spec fn media_has_path(ms: Seq<MediaFileDb>, p: Seq<char>) -> bool {
    exists|i: int| 0 <= i < ms.len() && (#[trigger] ms[i]).file_path@ == p
}

/// A purge of one path keeps every other path present.
proof fn lemma_purge_keeps_path(ms: Seq<MediaFileDb>, key: Seq<char>, q: Seq<char>)
    requires
        media_has_path(ms, q),
        q != key,
    ensures
        media_has_path(media_without_path(ms, key), q),
    decreases ms.len(),
{
    reveal(Seq::filter);
    let f = media_without_path(ms, key);
    let sub = media_without_path(ms.drop_last(), key);
    let i = choose|i: int| 0 <= i < ms.len() && (#[trigger] ms[i]).file_path@ == q;
    if i == ms.len() - 1 {
        assert(ms.last().file_path@ == q);
        assert(f == sub.push(ms.last()));
        assert(f[f.len() - 1].file_path@ == q);
    } else {
        assert(ms.drop_last()[i] == ms[i]);
        assert(media_has_path(ms.drop_last(), q));
        lemma_purge_keeps_path(ms.drop_last(), key, q);
        let w = choose|w: int| 0 <= w < sub.len() && (#[trigger] sub[w]).file_path@ == q;
        if ms.last().file_path@ != key {
            assert(f == sub.push(ms.last()));
        } else {
            assert(f == sub);
        }
        assert(f[w].file_path@ == q);
    }
}

/// An upsert of one path keeps every other path present.
proof fn lemma_upsert_keeps_paths(ms: Seq<MediaFileDb>, added: MediaFileDb, key: Seq<char>, q: Seq<char>)
    requires
        media_has_path(ms, q),
        q != key,
    ensures
        media_has_path(media_without_path(ms, key).push(added), q),
{
    lemma_purge_keeps_path(ms, key, q);
    let f = media_without_path(ms, key);
    let w = choose|w: int| 0 <= w < f.len() && (#[trigger] f[w]).file_path@ == q;
    assert(f.push(added)[w].file_path@ == q);
}

/// Persist a batch of scanned files into the media table. Each file is
/// matched to its owning folder by normalized longest-prefix; files no
/// folder owns are counted as errors, the rest are upserted under their
/// path. Returns `(saved, errors)`.
pub fn save_media_files(store: &mut CacheStore, files: &Vec<MediaFile>) -> (r: (usize, usize))
    requires
        old(store).wf(),
    ensures
        final(store).wf(),
        final(store).folders@ == old(store).folders@,
        final(store).entries@ == old(store).entries@,
        r.0 + r.1 == files@.len(),
        old(store).next_id + files@.len() <= i64::MAX ==> {
            &&& r.1 == count_unowned(old(store).folders@, files@)
            &&& forall|i: int|
                0 <= i < files@.len() && has_owner(
                    old(store).folders@,
                    (#[trigger] files@[i]).file_path@,
                ) ==> media_has_path(final(store).media@, files@[i].file_path@)
        },
{
    let ghost fs = store.folders@;
    let ghost fseq = files@;
    let ghost id0 = store.next_id;
    let mut saved: usize = 0;
    let mut errors: usize = 0;
    let n = files.len();
    assert(fseq.take(0) =~= Seq::<MediaFile>::empty());
    for i in 0..n
        invariant
            n == fseq.len(),
            files@ == fseq,
            store.wf(),
            store.folders@ == fs,
            store.entries@ == old(store).entries@,
            saved + errors == i,
            store.next_id >= id0,
            id0 + fseq.len() <= i64::MAX ==> {
                &&& store.next_id <= id0 + i
                &&& errors == count_unowned(fs, fseq.take(i as int))
                &&& forall|j: int|
                    0 <= j < i && has_owner(fs, (#[trigger] fseq[j]).file_path@)
                        ==> media_has_path(store.media@, fseq[j].file_path@)
            },
    {
        proof {
            assert(fseq.take(i + 1) =~= fseq.take(i as int).push(fseq[i as int]));
            assert(fseq.take(i + 1).drop_last() =~= fseq.take(i as int));
        }
        let file = &files[i];
        let ghost media_before = store.media@;
        match store.find_owner_folder(file.file_path.as_str()) {
            Some(folder_id) => {
                let thumb: Option<&str> = match &file.thumbnail_path {
                    Some(t) => Some(t.as_str()),
                    None => None,
                };
                let outcome = store.upsert_media_file(
                    folder_id,
                    file.file_path.as_str(),
                    file.file_hash.as_str(),
                    file.file_size,
                    file.width,
                    file.height,
                    file.taken_at,
                    file.modified_at,
                    thumb,
                    crate::media::media_type_str(file.media_type).as_str(),
                    file.created_at,
                );
                match outcome {
                    Ok(()) => {
                        saved = saved + 1;
                        proof {
                            if id0 + fseq.len() <= i64::MAX {
                                assert forall|j: int|
                                    0 <= j < i + 1 && has_owner(
                                        fs,
                                        (#[trigger] fseq[j]).file_path@,
                                    ) implies media_has_path(store.media@, fseq[j].file_path@) by {
                                    if j < i && fseq[j].file_path@ != fseq[i as int].file_path@ {
                                        lemma_upsert_keeps_paths(
                                            media_before,
                                            store.media@.last(),
                                            fseq[i as int].file_path@,
                                            fseq[j].file_path@,
                                        );
                                    } else {
                                        assert(store.media@.last().file_path@ == fseq[i as int].file_path@);
                                        assert(store.media@[store.media@.len() - 1].file_path@
                                            == fseq[j].file_path@);
                                    }
                                }
                            }
                        }
                    }
                    Err(e) => {
                        errors = errors + 1;
                        proof {
                            if id0 + fseq.len() <= i64::MAX {
                                assert(seq_has_fid(fs, folder_id));
                                assert(store.next_id <= id0 + i);
                                assert(id0 + i < i64::MAX);
                                assert(e == StoreError::UnknownFolder || e
                                    == StoreError::StorageFull);
                                assert(outcome == Err::<(), StoreError>(e));
                                assert(false);
                            }
                        }
                    }
                }
            }
            None => {
                errors = errors + 1;
            }
        }
    }
    proof {
        assert(fseq.take(n as int) =~= fseq);
    }
    (saved, errors)
}

/// One media row read back as a scanned file; rows whose stored media type
/// is unrecognized are the load's concern, not this conversion's.
pub open spec fn row_known(m: MediaFileDb) -> bool {
    m.media_type@ == "image"@ || m.media_type@ == "video"@
}

pub open spec fn row_to_media(m: MediaFileDb) -> MediaFile {
    MediaFile {
        id: m.id,
        file_path: m.file_path,
        file_hash: m.file_hash,
        file_size: m.file_size,
        width: m.width,
        height: m.height,
        taken_at: m.taken_at,
        modified_at: m.modified_at,
        thumbnail_path: m.thumbnail_path,
        media_type: if m.media_type@ == "image"@ {
            MediaType::Image
        } else {
            MediaType::Video
        },
        created_at: m.created_at,
    }
}

/// Load the media table back as scanned files, silently skipping rows
/// whose stored media type is unrecognized.
pub fn load_media_files(store: &CacheStore) -> (r: Vec<MediaFile>)
    ensures
        r@ == store.media@.filter(|m: MediaFileDb| row_known(m)).map_values(
            |m: MediaFileDb| row_to_media(m),
        ),
{
    broadcast use vstd::seq::Seq::lemma_filter_push, vstd::seq::Seq::lemma_push_map_commute;

    let ghost ms = store.media@;
    let ghost keep = |m: MediaFileDb| row_known(m);
    let ghost conv = |m: MediaFileDb| row_to_media(m);
    let mut out: Vec<MediaFile> = Vec::new();
    let n = store.media.len();
    assert(ms.take(0) =~= Seq::<MediaFileDb>::empty());
    for i in 0..n
        invariant
            n == ms.len(),
            store.media@ == ms,
            keep == (|m: MediaFileDb| row_known(m)),
            conv == (|m: MediaFileDb| row_to_media(m)),
            out@ == ms.take(i as int).filter(keep).map_values(conv),
    {
        proof {
            assert(ms.take(i + 1) =~= ms.take(i as int).push(ms[i as int]));
        }
        let m = &store.media[i];
        let kind = crate::media::media_type_from_str(m.media_type.as_str());
        proof {
            let t = ms.take(i as int);
            t.lemma_filter_push(ms[i as int], keep);
            if row_known(ms[i as int]) {
                assert(t.push(ms[i as int]).filter(keep) == t.filter(keep).push(ms[i as int]));
                t.filter(keep).lemma_push_map_commute(conv, ms[i as int]);
            } else {
                assert(t.push(ms[i as int]).filter(keep) == t.filter(keep));
            }
        }
        match kind {
            Some(t) => {
                let converted = MediaFile {
                    id: m.id,
                    file_path: m.file_path.clone(),
                    file_hash: m.file_hash.clone(),
                    file_size: m.file_size,
                    width: m.width,
                    height: m.height,
                    taken_at: m.taken_at,
                    modified_at: m.modified_at,
                    thumbnail_path: match &m.thumbnail_path {
                        Some(s) => Some(s.clone()),
                        None => None,
                    },
                    media_type: t,
                    created_at: m.created_at,
                };
                proof {
                    assert(converted == row_to_media(ms[i as int]));
                }
                out.push(converted);
            }
            None => {}
        }
    }
    proof {
        assert(ms.take(n as int) =~= ms);
    }
    out
}

/// Which recorded paths a rescan should evict: those lying under the
/// folder (compared case-insensitively on normalized slashes) whose files
/// the walk no longer found on disk.
pub open spec fn is_stale(folder: Seq<char>, disk_lowered: Seq<Seq<char>>, p: Seq<char>) -> bool {
    is_prefix(normalized_path_of(folder), normalized_path_of(p)) && !disk_lowered.contains(
        normalized_path_of(p),
    )
}

/// The ghost-eviction pass of a rescan: of the recorded paths, keep those
/// under the folder that the walk did not find. Paths are compared
/// lowercased with forward slashes; the returned paths are the recorded
/// originals, in order.
pub fn stale_media_paths(db_paths: &Vec<String>, disk_paths: &Vec<String>, folder_path: &str) -> (r:
    Vec<String>)
    ensures
        ({
            let disk_lowered = disk_paths@.map_values(|s: String| normalized_path_of(s@));
            let views = db_paths@.map_values(|s: String| s@);
            let flt = views.filter(|p: Seq<char>| is_stale(folder_path@, disk_lowered, p));
            &&& r@.len() == flt.len()
            &&& forall|k: int| 0 <= k < r@.len() ==> (#[trigger] r@[k])@ == flt[k]
        }),
{
    broadcast use vstd::seq::Seq::lemma_filter_push;

    let ghost disk_lowered = disk_paths@.map_values(|s: String| normalized_path_of(s@));
    let ghost views = db_paths@.map_values(|s: String| s@);
    let ghost pred = |p: Seq<char>| is_stale(folder_path@, disk_lowered, p);
    let folder_norm = normalize_path(folder_path);
    let mut lowered_disk: Vec<String> = Vec::new();
    for i in 0..disk_paths.len()
        invariant
            lowered_disk@.len() == i,
            forall|j: int| 0 <= j < i
                ==> (#[trigger] lowered_disk@[j])@ == normalized_path_of(disk_paths@[j]@),
    {
        lowered_disk.push(normalize_path(disk_paths[i].as_str()));
    }
    proof {
        assert(lowered_disk@.map_values(|s: String| s@) =~= disk_lowered);
    }
    let mut out: Vec<String> = Vec::new();
    let n = db_paths.len();
    assert(views.take(0) =~= Seq::<Seq<char>>::empty());
    for i in 0..n
        invariant
            n == db_paths@.len(),
            views == db_paths@.map_values(|s: String| s@),
            disk_lowered == disk_paths@.map_values(|s: String| normalized_path_of(s@)),
            pred == (|p: Seq<char>| is_stale(folder_path@, disk_lowered, p)),
            folder_norm@ == normalized_path_of(folder_path@),
            lowered_disk@.map_values(|s: String| s@) == disk_lowered,
            out@.len() == views.take(i as int).filter(pred).len(),
            forall|k: int| 0 <= k < out@.len()
                ==> (#[trigger] out@[k])@ == views.take(i as int).filter(pred)[k],
    {
        proof {
            assert(views.take(i + 1) =~= views.take(i as int).push(views[i as int]));
            assert(views[i as int] == db_paths@[i as int]@);
        }
        let norm = normalize_path(db_paths[i].as_str());
        let under = str_starts_with(norm.as_str(), folder_norm.as_str());
        let found = contains_str(&lowered_disk, norm.as_str());
        proof {
            assert((under && !found) == pred(views[i as int]));
            let t = views.take(i as int);
            t.lemma_filter_push(views[i as int], pred);
            if pred(views[i as int]) {
                assert(t.push(views[i as int]).filter(pred) == t.filter(pred).push(
                    views[i as int],
                ));
            } else {
                assert(t.push(views[i as int]).filter(pred) == t.filter(pred));
            }
        }
        if under && !found {
            out.push(db_paths[i].clone());
        }
    }
    proof {
        assert(views.take(n as int) =~= views);
    }
    out
}

} // verus!
