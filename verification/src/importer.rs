//! The import pipeline's decisions: date-bucketed destination directories
//! (`Year/YYYY-MM-DD`), conflict-safe renaming (`name_1.ext`, `name_2.ext`,
//! ...) that preserves every file, and assembly of the candidate records the
//! shell streams while scanning an import source.

use vstd::prelude::*;
use vstd::string::*;
use vstd::seq_lib::*;
use vstd::set_lib::lemma_len_subset;
use crate::strkit::{contains_str, dec_rep, u64_to_string, lemma_dec_rep_injective,
    lemma_append_cancel, lemma_prepend_cancel, join_path};
use crate::media::{scan_back, scan_back_exec, file_name_of, media_type_of, MediaType};

verus! {

/// The proleptic-Gregorian UTC date of an epoch-second count; a function of
/// the seconds alone.
pub uninterp spec fn civil_of(secs: i64) -> (i64, u32, u32);

/// Relies on chrono::DateTime::<Utc>::from_timestamp and the Datelike
/// accessors year/month/day: month is documented to lie in 1..=12 and day
/// in 1..=31; only out-of-range second counts yield None, and every count
/// from the epoch through 9999-12-31 23:59:59 UTC (253402300799) lies well
/// inside the supported range (about 262,000 years either way).
#[verifier::external_body]
fn civil_from_secs(secs: i64) -> (r: Option<(i64, u32, u32)>)
    ensures
        r is Some ==> r.unwrap() == civil_of(secs),
        r is Some ==> 1 <= r.unwrap().1 <= 12 && 1 <= r.unwrap().2 <= 31,
        0 <= secs <= 253402300799 ==> r is Some,
{
    match chrono::DateTime::from_timestamp(secs, 0) {
        Some(dt) => Some((
            chrono::Datelike::year(&dt) as i64,
            chrono::Datelike::month(&dt),
            chrono::Datelike::day(&dt),
        )),
        None => None,
    }
}

/// A year's magnitude zero-padded to at least four digits.
pub open spec fn pad4(m: nat) -> Seq<char> {
    if m < 10 {
        "000"@ + dec_rep(m)
    } else if m < 100 {
        "00"@ + dec_rep(m)
    } else if m < 1000 {
        "0"@ + dec_rep(m)
    } else {
        dec_rep(m)
    }
}

/// A year as the date buckets render it: its magnitude zero-padded to four
/// digits, after a leading minus for years before year zero.
pub open spec fn year4(y: int) -> Seq<char> {
    if y < 0 {
        seq!['-'] + pad4((-y) as nat)
    } else {
        pad4(y as nat)
    }
}

/// A nonnegative field zero-padded to two digits.
pub open spec fn two2(v: int) -> Seq<char> {
    if v < 10 {
        "0"@ + dec_rep(v as nat)
    } else {
        dec_rep(v as nat)
    }
}

/// The `YYYY-MM-DD` bucket name.
pub open spec fn date_text(y: int, m: int, d: int) -> Seq<char> {
    year4(y) + "-"@ + two2(m) + "-"@ + two2(d)
}

/// Render a magnitude as `pad4` names it.
fn format_pad4(m: u64) -> (r: String)
    ensures
        r@ == pad4(m as nat),
{
    if m < 10 {
        let mut s: String = "000".to_owned();
        s.append(u64_to_string(m).as_str());
        s
    } else if m < 100 {
        let mut s: String = "00".to_owned();
        s.append(u64_to_string(m).as_str());
        s
    } else if m < 1000 {
        let mut s: String = "0".to_owned();
        s.append(u64_to_string(m).as_str());
        s
    } else {
        u64_to_string(m)
    }
}

/// Render a year as `year4` names it.
pub fn format_year(y: i64) -> (r: String)
    ensures
        r@ == year4(y as int),
{
    if y < 0 {
        let mag: u64 = if y == i64::MIN {
            9223372036854775808
        } else {
            (-y) as u64
        };
        proof {
            assert(mag as nat == (-(y as int)) as nat);
        }
        let mut s: String = "-".to_owned();
        s.append(format_pad4(mag).as_str());
        proof {
            reveal_strlit("-");
            assert("-"@ =~= seq!['-']);
        }
        s
    } else {
        format_pad4(y as u64)
    }
}

/// Render a nonnegative field as `two2` names it.
pub fn format_two(v: u32) -> (r: String)
    ensures
        r@ == two2(v as int),
{
    if v < 10 {
        let mut s: String = "0".to_owned();
        s.append(u64_to_string(v as u64).as_str());
        s
    } else {
        u64_to_string(v as u64)
    }
}

/// Render the `YYYY-MM-DD` bucket name.
pub fn format_date(y: i64, m: u32, d: u32) -> (r: String)
    ensures
        r@ == date_text(y as int, m as int, d as int),
{
    let mut s = format_year(y);
    s.append("-");
    s.append(format_two(m).as_str());
    s.append("-");
    s.append(format_two(d).as_str());
    proof {
        assert(s@ =~= date_text(y as int, m as int, d as int));
    }
    s
}

/// The file name's stem: everything before its last dot, provided that dot
/// is not the leading character; otherwise the whole name.
pub open spec fn stem_of(name: Seq<char>) -> Seq<char> {
    let d = scan_back(name, |c: char| c == '.');
    if d >= 2 {
        name.subrange(0, d - 1)
    } else {
        name
    }
}

/// The file name's extension under the same split; empty when there is none.
pub open spec fn ext_of(name: Seq<char>) -> Seq<char> {
    let d = scan_back(name, |c: char| c == '.');
    if d >= 2 {
        name.subrange(d, name.len() as int)
    } else {
        Seq::empty()
    }
}

/// The k-th conflict rename of a name: `stem_k` or `stem_k.ext`.
pub open spec fn renamed(stem: Seq<char>, ext: Seq<char>, k: nat) -> Seq<char> {
    if ext.len() == 0 {
        stem + "_"@ + dec_rep(k)
    } else {
        stem + "_"@ + dec_rep(k) + "."@ + ext
    }
}

/// Distinct rename counters give distinct names.
pub proof fn lemma_renamed_injective(stem: Seq<char>, ext: Seq<char>, k1: nat, k2: nat)
    requires
        k1 != k2,
    ensures
        renamed(stem, ext, k1) != renamed(stem, ext, k2),
{
    lemma_dec_rep_injective(k1, k2);
    if ext.len() == 0 {
        if renamed(stem, ext, k1) == renamed(stem, ext, k2) {
            lemma_prepend_cancel(dec_rep(k1), dec_rep(k2), stem + "_"@);
        }
    } else {
        if renamed(stem, ext, k1) == renamed(stem, ext, k2) {
            lemma_append_cancel(
                stem + "_"@ + dec_rep(k1) + "."@,
                stem + "_"@ + dec_rep(k2) + "."@,
                ext,
            );
            lemma_append_cancel(stem + "_"@ + dec_rep(k1), stem + "_"@ + dec_rep(k2), "."@);
            lemma_prepend_cancel(dec_rep(k1), dec_rep(k2), stem + "_"@);
        }
    }
}

/// What the conflict-renaming pass promises: the chosen name collides with
/// nothing already present; a free base name is kept as it is; otherwise
/// the first free numeric rename is taken, every smaller counter being in
/// use.
pub open spec fn is_conflict_free_name(vs: Seq<Seq<char>>, base: Seq<char>, n: Seq<char>) -> bool {
    &&& !vs.contains(n)
    &&& (!vs.contains(base) ==> n == base)
    &&& (vs.contains(base) ==> exists|k: nat|
        1 <= k && n == renamed(stem_of(base), ext_of(base), k) && (forall|k2: nat|
            1 <= k2 < k ==> vs.contains(renamed(stem_of(base), ext_of(base), k2))))
}

/// Build the k-th conflict rename.
fn build_renamed(stem: &str, ext: &str, k: usize) -> (r: String)
    ensures
        r@ == renamed(stem@, ext@, k as nat),
{
    let mut s: String = stem.to_owned();
    s.append("_");
    s.append(u64_to_string(k as u64).as_str());
    if ext.unicode_len() > 0 {
        s.append(".");
        s.append(ext);
        proof {
            assert(s@ =~= renamed(stem@, ext@, k as nat));
        }
        s
    } else {
        proof {
            assert(s@ =~= renamed(stem@, ext@, k as nat));
        }
        s
    }
}

/// Choose the destination file name: the base name when it is free in the
/// bucket, else the first numeric rename (`stem_1.ext`, `stem_2.ext`, ...)
/// that is. Both imported files survive a conflict.
pub fn unique_target_name(file_name: &str, existing: &Vec<String>) -> (r: String)
    requires
        existing@.len() < usize::MAX,
    ensures
        is_conflict_free_name(existing@.map_values(|s: String| s@), file_name@, r@),
{
    let ghost vs = existing@.map_values(|s: String| s@);
    if !contains_str(existing, file_name) {
        return file_name.to_owned();
    }
    let n = file_name.unicode_len();
    proof {
        crate::media::lemma_scan_back(file_name@, |c: char| c == '.');
    }
    let d = scan_back_exec(file_name, true);
    let stem: String;
    let ext: String;
    if d >= 2 {
        stem = file_name.substring_char(0, d - 1).to_owned();
        ext = file_name.substring_char(d, n).to_owned();
    } else {
        stem = file_name.to_owned();
        ext = String::new();
    }
    proof {
        crate::media::lemma_scan_back(file_name@, |c: char| c == '.');
        assert(stem@ =~= stem_of(file_name@));
        assert(ext@ =~= ext_of(file_name@));
        vs.lemma_cardinality_of_set();
    }
    let ghost gstem = stem_of(file_name@);
    let ghost gext = ext_of(file_name@);
    let mut k: usize = 1;
    let ghost mut cands: Seq<Seq<char>> = Seq::empty();
    loop
        invariant
            1 <= k <= existing@.len() + 1,
            existing@.len() < usize::MAX,
            vs == existing@.map_values(|s: String| s@),
            stem@ == gstem,
            ext@ == gext,
            gstem == stem_of(file_name@),
            gext == ext_of(file_name@),
            vs.contains(file_name@),
            cands.len() == k - 1,
            forall|j: int| 0 <= j < cands.len() ==> cands[j] == renamed(gstem, gext, (j + 1) as nat),
            forall|j: int| 0 <= j < cands.len() ==> vs.contains(#[trigger] cands[j]),
        decreases existing@.len() + 1 - k,
    {
        let cand = build_renamed(stem.as_str(), ext.as_str(), k);
        if !contains_str(existing, cand.as_str()) {
            proof {
                assert(vs.contains(file_name@));
                assert(1 <= k as nat && cand@ == renamed(gstem, gext, k as nat));
                assert forall|k2: nat| 1 <= k2 < k as nat implies vs.contains(
                    renamed(gstem, gext, k2),
                ) by {
                    assert(cands[k2 - 1] == renamed(gstem, gext, k2));
                }
            }
            return cand;
        }
        proof {
            // the candidate was taken: record it; all recorded names are
            // distinct, so after existing.len() + 1 tries the names tried
            // would outnumber the names present, which cannot happen
            let prev = cands;
            cands = cands.push(cand@);
            assert(cands.len() == k as int);
            assert(cands[k - 1] == renamed(gstem, gext, k as nat));
            assert forall|j: int| 0 <= j < cands.len() implies cands[j] == renamed(
                gstem,
                gext,
                (j + 1) as nat,
            ) by {
                if j < k - 1 {
                    assert(cands[j] == prev[j]);
                }
            }
            assert forall|i: int, j: int|
                0 <= i < cands.len() && 0 <= j < cands.len() && i != j implies cands[i]
                != cands[j] by {
                assert(cands[i] == renamed(gstem, gext, (i + 1) as nat));
                assert(cands[j] == renamed(gstem, gext, (j + 1) as nat));
                lemma_renamed_injective(gstem, gext, (i + 1) as nat, (j + 1) as nat);
            }
            assert(cands.no_duplicates());
            cands.unique_seq_to_set();
            assert forall|x: Seq<char>| cands.to_set().contains(x) implies vs.to_set().contains(
                x,
            ) by {
                let j = choose|j: int| 0 <= j < cands.len() && cands[j] == x;
            }
            assert(cands.to_set().subset_of(vs.to_set()));
            seq_to_set_is_finite(vs);
            lemma_len_subset(cands.to_set(), vs.to_set());
            assert(k <= vs.to_set().len());
            vs.lemma_cardinality_of_set();
            assert(vs.to_set().len() <= vs.len());
        }
        k = k + 1;
    }
}

/// Where one import lands: the year directory, the date bucket inside it,
/// the conflict-free file name, and the full destination path.
pub struct ImportPlan {
    pub year_dir: String,
    pub date_dir: String,
    pub file_name: String,
    pub dest_path: String,
}

/// Plan one file's import: bucket the destination by the file's
/// modification date and pick a conflict-free name against what the bucket
/// already holds. Every timestamp from the epoch through the year 9999
/// plans; None only when the timestamp lies outside the calendar's range.
pub fn plan_import(
    dest_folder: &str,
    modified_secs: i64,
    file_name: &str,
    existing: &Vec<String>,
) -> (r: Option<ImportPlan>)
    requires
        existing@.len() < usize::MAX,
    ensures
        0 <= modified_secs <= 253402300799 ==> r is Some,
        r is Some ==> {
            let p = r.unwrap();
            let y = civil_of(modified_secs).0;
            let m = civil_of(modified_secs).1;
            let d = civil_of(modified_secs).2;
            &&& p.year_dir@ == dest_folder@ + "/"@ + year4(y as int)
            &&& p.date_dir@ == p.year_dir@ + "/"@ + date_text(y as int, m as int, d as int)
            &&& is_conflict_free_name(
                existing@.map_values(|s: String| s@),
                file_name@,
                p.file_name@,
            )
            &&& p.dest_path@ == p.date_dir@ + "/"@ + p.file_name@
        },
{
    match civil_from_secs(modified_secs) {
        Some((y, m, d)) => {
            let year_dir = join_path(dest_folder, format_year(y).as_str());
            let date_dir = join_path(year_dir.as_str(), format_date(y, m, d).as_str());
            let name = unique_target_name(file_name, existing);
            let dest_path = join_path(date_dir.as_str(), name.as_str());
            Some(ImportPlan { year_dir, date_dir, file_name: name, dest_path })
        }
        None => None,
    }
}

/// One candidate found while scanning an import source, as streamed to the
/// shell: identification first, the hash and duplicate verdict filled in by
/// the slower dedup pass.
pub struct ImportCandidate {
    pub file_path: String,
    pub file_name: String,
    pub file_size: u64,
    pub file_hash: String,
    pub is_duplicate: bool,
    pub media_type: String,
    pub modified_at: String,
    pub thumbnail_path: Option<String>,
    pub checking_duplicate: Option<bool>,
}

/// The displayed `YYYY-MM-DD HH:MM:SS` form of a timestamp.
pub open spec fn timestamp_text(secs: i64) -> Seq<char> {
    let y = civil_of(secs).0;
    let m = civil_of(secs).1;
    let d = civil_of(secs).2;
    let rem = secs as int % 86400;
    date_text(y as int, m as int, d as int) + " "@ + two2(rem / 3600) + ":"@ + two2(
        (rem % 3600) / 60,
    ) + ":"@ + two2(rem % 60)
}

/// Render a timestamp for display; the date part comes from the calendar,
/// the time of day from the remainder within the day. Every timestamp
/// through the year 9999 renders.
pub fn format_timestamp(secs: i64) -> (r: Option<String>)
    requires
        secs >= 0,
    ensures
        secs <= 253402300799 ==> r is Some,
        r is Some ==> r.unwrap()@ == timestamp_text(secs),
{
    match civil_from_secs(secs) {
        Some((y, m, d)) => {
            let rem = secs % 86400;
            let h = (rem / 3600) as u32;
            let mi = ((rem % 3600) / 60) as u32;
            let se = (rem % 60) as u32;
            let mut s = format_date(y, m, d);
            s.append(" ");
            s.append(format_two(h).as_str());
            s.append(":");
            s.append(format_two(mi).as_str());
            s.append(":");
            s.append(format_two(se).as_str());
            proof {
                assert(s@ =~= timestamp_text(secs));
            }
            Some(s)
        }
        None => None,
    }
}

/// Assemble the fast preview record for one file of an import source: name
/// and classification now, hash empty and duplicate verdict unset until the
/// dedup pass fills them in. Every timestamp through the year 9999 yields
/// a candidate.
pub fn create_preview_candidate(file_path: &str, file_size: u64, modified_secs: i64) -> (r: Option<
    ImportCandidate,
>)
    requires
        modified_secs >= 0,
    ensures
        modified_secs <= 253402300799 ==> r is Some,
        r is Some ==> {
            let c = r.unwrap();
            &&& c.file_path@ == file_path@
            &&& c.file_name@ == file_name_of(file_path@)
            &&& c.file_size == file_size
            &&& c.file_hash@.len() == 0
            &&& !c.is_duplicate
            &&& c.media_type@ == (match media_type_of(file_path@) {
                Some(MediaType::Image) => "image"@,
                Some(MediaType::Video) => "video"@,
                None => "unknown"@,
            })
            &&& c.modified_at@ == timestamp_text(modified_secs)
            &&& c.thumbnail_path is None
            &&& c.checking_duplicate is None
        },
{
    let modified_at = match format_timestamp(modified_secs) {
        Some(s) => s,
        None => {
            return None;
        }
    };
    let n = file_path.unicode_len();
    proof {
        crate::media::lemma_scan_back(file_path@, |c: char| crate::media::is_sep(c));
    }
    let ns = scan_back_exec(file_path, false);
    let name = file_path.substring_char(ns, n).to_owned();
    proof {
        assert(name@ =~= file_name_of(file_path@));
    }
    let media_type: String = match crate::media::is_media_file(file_path) {
        Some(MediaType::Image) => "image".to_owned(),
        Some(MediaType::Video) => "video".to_owned(),
        None => "unknown".to_owned(),
    };
    Some(ImportCandidate {
        file_path: file_path.to_owned(),
        file_name: name,
        file_size,
        file_hash: String::new(),
        is_duplicate: false,
        media_type,
        modified_at,
        thumbnail_path: None,
        checking_duplicate: None,
    })
}

} // verus!
