//! Media classification: which files count as images or videos, decided by
//! the file name's extension against a fixed extension table, compared
//! case-insensitively for ASCII letters.

use vstd::prelude::*;
use vstd::string::*;

verus! {

#[derive(Clone, Copy, Debug, PartialEq, Eq, Structural)]
pub enum MediaType {
    Image,
    Video,
}

pub open spec fn is_sep(c: char) -> bool {
    c == '/' || c == '\\'
}

/// Index just past the last character satisfying `t`, or 0 when none does.
pub open spec fn scan_back(p: Seq<char>, t: spec_fn(char) -> bool) -> int
    decreases p.len(),
{
    if p.len() == 0 {
        0
    } else if t(p.last()) {
        p.len() as int
    } else {
        scan_back(p.drop_last(), t)
    }
}

/// Where the file name begins: just past the last path separator.
pub open spec fn name_start_of(p: Seq<char>) -> int {
    scan_back(p, |c: char| is_sep(c))
}

/// The file name: everything after the last path separator.
pub open spec fn file_name_of(p: Seq<char>) -> Seq<char> {
    p.subrange(name_start_of(p), p.len() as int)
}

/// The extension: what follows the file name's last dot, provided that dot
/// is not the name's first character (a leading dot marks a hidden file,
/// not an extension).
pub open spec fn extension_of(p: Seq<char>) -> Option<Seq<char>> {
    let name = file_name_of(p);
    let d = scan_back(name, |c: char| c == '.') - 1;
    if d >= 1 {
        Some(name.subrange(d + 1, name.len() as int))
    } else {
        None
    }
}

/// Case-insensitive match of one character against a lowercase one.
pub open spec fn char_ieq(c: char, d: char) -> bool {
    c == d || ('A' <= c && c <= 'Z' && (c as u32) + 32 == (d as u32))
}

/// Case-insensitive match of a string against a lowercase one.
pub open spec fn lower_eq(a: Seq<char>, b: Seq<char>) -> bool {
    a.len() == b.len() && forall|i: int| 0 <= i < a.len() ==> char_ieq(a[i], b[i])
}

pub open spec fn is_image_ext(e: Seq<char>) -> bool {
    ||| lower_eq(e, "jpg"@)
    ||| lower_eq(e, "jpeg"@)
    ||| lower_eq(e, "png"@)
    ||| lower_eq(e, "gif"@)
    ||| lower_eq(e, "webp"@)
    ||| lower_eq(e, "heic"@)
    ||| lower_eq(e, "heif"@)
}

pub open spec fn is_video_ext(e: Seq<char>) -> bool {
    ||| lower_eq(e, "mp4"@)
    ||| lower_eq(e, "mov"@)
    ||| lower_eq(e, "avi"@)
    ||| lower_eq(e, "mkv"@)
    ||| lower_eq(e, "webm"@)
    ||| lower_eq(e, "m4v"@)
}

/// How a path is classified: by its extension, images first.
pub open spec fn media_type_of(p: Seq<char>) -> Option<MediaType> {
    match extension_of(p) {
        Option::None => Option::None,
        Option::Some(e) => if is_image_ext(e) {
            Option::Some(MediaType::Image)
        } else if is_video_ext(e) {
            Option::Some(MediaType::Video)
        } else {
            Option::None
        },
    }
}

/// `scan_back` names the unique cut: nothing at or after it satisfies `t`,
/// and the character just before it (if any) does.
pub proof fn lemma_scan_back(p: Seq<char>, t: spec_fn(char) -> bool)
    ensures
        0 <= scan_back(p, t) <= p.len(),
        forall|j: int| scan_back(p, t) <= j < p.len() ==> !t(p[j]),
        scan_back(p, t) > 0 ==> t(p[scan_back(p, t) - 1]),
    decreases p.len(),
{
    if p.len() > 0 && !t(p.last()) {
        lemma_scan_back(p.drop_last(), t);
        assert forall|j: int| scan_back(p, t) <= j < p.len() implies !t(p[j]) by {
            if j < p.len() - 1 {
                assert(p.drop_last()[j] == p[j]);
            }
        }
        if scan_back(p, t) > 0 {
            assert(p.drop_last()[scan_back(p, t) - 1] == p[scan_back(p, t) - 1]);
        }
    }
}

/// Any index with those two properties is `scan_back`'s value.
proof fn lemma_scan_back_unique(p: Seq<char>, t: spec_fn(char) -> bool, k: int)
    requires
        0 <= k <= p.len(),
        forall|j: int| k <= j < p.len() ==> !t(p[j]),
        k > 0 ==> t(p[k - 1]),
    ensures
        scan_back(p, t) == k,
    decreases p.len(),
{
    if p.len() == 0 {
    } else if t(p.last()) {
        assert(k > p.len() - 1);
    } else {
        assert(k < p.len());
        lemma_scan_back_unique(p.drop_last(), t, k);
    }
}

/// One left-to-right step of `scan_back`, matching how the scanning loop
/// walks the string.
proof fn lemma_scan_back_step(p: Seq<char>, t: spec_fn(char) -> bool, i: int)
    requires
        0 <= i < p.len(),
    ensures
        scan_back(p.take(i + 1), t) == if t(p[i]) { i + 1 } else { scan_back(p.take(i), t) },
{
    let q = p.take(i + 1);
    assert(q.last() == p[i]);
    if !t(p[i]) {
        assert(q.drop_last() =~= p.take(i));
    }
}

/// Index just past the last character of `s` satisfying the selected class
/// (separators or dots), or 0 when none does.
pub(crate) fn scan_back_exec(s: &str, dots: bool) -> (r: usize)
    ensures
        dots ==> r == scan_back(s@, |c: char| c == '.'),
        !dots ==> r == scan_back(s@, |c: char| is_sep(c)),
{
    let ghost t = if dots { |c: char| c == '.' } else { |c: char| is_sep(c) };
    let n = s.unicode_len();
    let mut r: usize = 0;
    assert(s@.take(0) =~= Seq::<char>::empty());
    for i in 0..n
        invariant
            n == s@.len(),
            r == scan_back(s@.take(i as int), t),
            r <= i,
            t == (if dots { |c: char| c == '.' } else { |c: char| is_sep(c) }),
    {
        let c = s.get_char(i);
        let hit = if dots { c == '.' } else { c == '/' || c == '\\' };
        proof {
            lemma_scan_back_step(s@, t, i as int);
        }
        if hit {
            r = i + 1;
        }
    }
    proof {
        assert(s@.take(n as int) =~= s@);
    }
    r
}

/// The file name's extension, as `extension_of` names it.
pub fn extension_str(path: &str) -> (r: Option<String>)
    ensures
        match r {
            Some(e) => extension_of(path@) == Some(e@),
            None => extension_of(path@) is None,
        },
{
    let n = path.unicode_len();
    let ns = scan_back_exec(path, false);
    let de = scan_back_exec(path, true);
    proof {
        lemma_scan_back(path@, |c: char| is_sep(c));
        lemma_scan_back(path@, |c: char| c == '.');
        let name = file_name_of(path@);
        assert(name =~= path@.subrange(ns as int, n as int));
        if de as int > ns as int {
            // the last dot lies inside the name: rebase the scan to it
            assert(name[de - 1 - ns as int] == path@[de as int - 1]);
            assert forall|j: int| de - ns as int <= j < name.len() implies !((|c: char| c == '.')(name[j])) by {
                assert(name[j] == path@[j + ns]);
            }
            lemma_scan_back_unique(name, |c: char| c == '.', de - ns as int);
        } else {
            // every dot (if any) lies before the name: the name has none
            assert forall|j: int| 0 <= j < name.len() implies !((|c: char| c == '.')(name[j])) by {
                assert(name[j] == path@[j + ns]);
            }
            lemma_scan_back_unique(name, |c: char| c == '.', 0);
        }
    }
    if de >= 2 && ns <= de - 2 {
        let e = path.substring_char(de, n);
        proof {
            let name = file_name_of(path@);
            assert(e@ =~= name.subrange(de - ns as int, name.len() as int));
        }
        Some(e.to_owned())
    } else {
        None
    }
}

/// Case-insensitive comparison against a lowercase pattern.
fn matches_lower(e: &str, lower: &str) -> (r: bool)
    ensures
        r == lower_eq(e@, lower@),
{
    let n = e.unicode_len();
    if n != lower.unicode_len() {
        return false;
    }
    for i in 0..n
        invariant
            n == e@.len() == lower@.len(),
            forall|j: int| 0 <= j < i ==> char_ieq(e@[j], lower@[j]),
    {
        let c = e.get_char(i);
        let d = lower.get_char(i);
        let ok = c == d || ('A' <= c && c <= 'Z' && (c as u32) + 32 == (d as u32));
        if !ok {
            return false;
        }
    }
    true
}

/// Classify a path as image or video by its extension, or neither.
pub fn is_media_file(path: &str) -> (r: Option<MediaType>)
    ensures
        r == media_type_of(path@),
{
    match extension_str(path) {
        Some(e) => {
            let ext = e.as_str();
            if matches_lower(ext, "jpg") || matches_lower(ext, "jpeg")
                || matches_lower(ext, "png") || matches_lower(ext, "gif")
                || matches_lower(ext, "webp") || matches_lower(ext, "heic")
                || matches_lower(ext, "heif") {
                Some(MediaType::Image)
            } else if matches_lower(ext, "mp4") || matches_lower(ext, "mov")
                || matches_lower(ext, "avi") || matches_lower(ext, "mkv")
                || matches_lower(ext, "webm") || matches_lower(ext, "m4v") {
                Some(MediaType::Video)
            } else {
                None
            }
        }
        None => None,
    }
}

/// The stored text form of a media type.
pub open spec fn media_type_text(t: MediaType) -> Seq<char> {
    match t {
        MediaType::Image => "image"@,
        MediaType::Video => "video"@,
    }
}

/// Render a media type as the text the store persists.
pub fn media_type_str(t: MediaType) -> (r: String)
    ensures
        r@ == media_type_text(t),
{
    match t {
        MediaType::Image => "image".to_owned(),
        MediaType::Video => "video".to_owned(),
    }
}

/// Read a stored text form back; unrecognized values yield nothing.
pub fn media_type_from_str(s: &str) -> (r: Option<MediaType>)
    ensures
        r == (if s@ == "image"@ {
            Some(MediaType::Image)
        } else if s@ == "video"@ {
            Some(MediaType::Video)
        } else {
            None::<MediaType>
        }),
{
    if crate::strkit::str_eq(s, "image") {
        Some(MediaType::Image)
    } else if crate::strkit::str_eq(s, "video") {
        Some(MediaType::Video)
    } else {
        None
    }
}

} // verus!
