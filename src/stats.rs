//! Panel counts of one chapter folder and of the whole library, and the file
//! names that reconciliation takes for panel images.

use vstd::prelude::*;
use crate::paths::{is_panel_image, is_panel_path};
use crate::records::MangaPanel;
use crate::text::{chars_of, str_eq};

verus! {

broadcast use vstd::seq_lib::group_seq_properties;

/// The lowercase form of a string, as `str::to_lowercase` gives it.
pub uninterp spec fn lower_of(s: Seq<char>) -> Seq<char>;

/// Relies on `str::to_lowercase`: the result depends on the characters alone.
#[verifier::external_body]
pub(crate) fn lowercase(s: &str) -> (r: String)
    ensures
        r@ == lower_of(s@),
{
    s.to_lowercase()
}

/// `pat` occurs in `s`.
pub open spec fn occurs_in(s: Seq<char>, pat: Seq<char>) -> bool {
    exists|i: int| 0 <= i && i + pat.len() <= s.len() && #[trigger] s.subrange(i, i + pat.len()) == pat
}

/// Whether `pat` occurs in `s`.
pub fn contains_str(s: &str, pat: &str) -> (r: bool)
    ensures
        r == occurs_in(s@, pat@),
{
    let a = chars_of(s);
    let b = chars_of(pat);
    if b.len() > a.len() {
        return false;
    }
    let mut i: usize = 0;
    while i <= a.len() - b.len()
        invariant
            a@ == s@,
            b@ == pat@,
            b.len() <= a.len(),
            i <= a.len() - b.len() + 1,
            forall|k: int| 0 <= k < i ==> #[trigger] s@.subrange(k, k + pat@.len()) != pat@,
        decreases a.len() - i,
    {
        let mut j: usize = 0;
        let mut same = true;
        while j < b.len()
            invariant
                a@ == s@,
                b@ == pat@,
                i + b.len() <= a.len(),
                j <= b.len(),
                same == forall|m: int| 0 <= m < j ==> a@[i + m] == b@[m],
            decreases b.len() - j,
        {
            if a[i + j] != b[j] {
                same = false;
            }
            j = j + 1;
        }
        if same {
            assert(s@.subrange(i as int, i + pat@.len()) =~= pat@);
            return true;
        }
        assert(exists|m: int| 0 <= m < b.len() && a@[i + m] != b@[m]);
        assert(s@.subrange(i as int, i + pat@.len()) != pat@) by {
            let m = choose|m: int| 0 <= m < b.len() && a@[i + m] != b@[m];
            assert(s@.subrange(i as int, i + pat@.len())[m] == a@[i + m]);
        }
        i = i + 1;
    }
    false
}

/// A file name that reconciliation takes for a panel image: its lowercase
/// form holds one of the known image format names.
pub open spec fn is_image_name_spec(name: Seq<char>) -> bool {
    let l = lower_of(name);
    ||| occurs_in(l, "jpg"@)
    ||| occurs_in(l, "jpeg"@)
    ||| occurs_in(l, "png"@)
    ||| occurs_in(l, "gif"@)
    ||| occurs_in(l, "bmp"@)
    ||| occurs_in(l, "ico"@)
    ||| occurs_in(l, "tif"@)
    ||| occurs_in(l, "tiff"@)
    ||| occurs_in(l, "webp"@)
    ||| occurs_in(l, "svg"@)
    ||| occurs_in(l, "pdf"@)
}

/// Whether reconciliation takes a file name for a panel image.
pub fn is_image_name(name: &str) -> (r: bool)
    ensures
        r == is_image_name_spec(name@),
{
    let l = lowercase(name);
    let l = l.as_str();
    contains_str(l, "jpg") || contains_str(l, "jpeg") || contains_str(l, "png") || contains_str(
        l,
        "gif",
    ) || contains_str(l, "bmp") || contains_str(l, "ico") || contains_str(l, "tif")
        || contains_str(l, "tiff") || contains_str(l, "webp") || contains_str(l, "svg")
        || contains_str(l, "pdf")
}

/// The panels marked read.
pub open spec fn read_panels(t: Seq<MangaPanel>) -> Seq<MangaPanel> {
    t.filter(|p: MangaPanel| p.is_read)
}

/// The panels not marked read.
pub open spec fn unread_panels(t: Seq<MangaPanel>) -> Seq<MangaPanel> {
    t.filter(|p: MangaPanel| !p.is_read)
}

/// Counts panels: all of them, those read, and those not read (each count
/// taken as a `u32`).
pub fn count_global_manga_panels(manga_panels: &Vec<MangaPanel>) -> (r: (u32, u32, u32))
    ensures
        r == (manga_panels@.len() as u32, read_panels(manga_panels@).len() as u32, unread_panels(
            manga_panels@,
        ).len() as u32),
{
    let ghost t = manga_panels@;
    let ghost fr = |p: MangaPanel| p.is_read;
    let ghost fu = |p: MangaPanel| !p.is_read;
    let mut read: usize = 0;
    let mut unread: usize = 0;
    let mut i: usize = 0;
    while i < manga_panels.len()
        invariant
            t == manga_panels@,
            i <= t.len(),
            fr == (|p: MangaPanel| p.is_read),
            fu == (|p: MangaPanel| !p.is_read),
            read == t.take(i as int).filter(fr).len(),
            unread == t.take(i as int).filter(fu).len(),
            read + unread == i,
        decreases manga_panels.len() - i,
    {
        proof {
            assert(t.take(i + 1) =~= t.take(i as int).push(t[i as int]));
            t.take(i as int).lemma_filter_push(t[i as int], fr);
            t.take(i as int).lemma_filter_push(t[i as int], fu);
        }
        if manga_panels[i].is_read {
            read = read + 1;
        } else {
            unread = unread + 1;
        }
        i = i + 1;
    }
    assert(t.take(t.len() as int) =~= t);
    (manga_panels.len() as u32, read as u32, unread as u32)
}

/// The image files of a folder listing, by extension.
pub open spec fn image_files(entries: Seq<String>) -> Seq<String> {
    entries.filter(|e: String| is_panel_path(e@))
}

/// The paths of a list of files.
pub open spec fn path_views(s: Seq<String>) -> Seq<Seq<char>> {
    s.map_values(|e: String| e@)
}

/// The panels marked read whose file is among `images`.
pub open spec fn read_present(panels: Seq<MangaPanel>, images: Seq<String>) -> Seq<MangaPanel> {
    panels.filter(|p: MangaPanel| p.is_read && path_views(images).contains(p.full_path@))
}

/// The counts of one chapter folder from its listing and its panel rows:
/// `(0, 0, 0)` when it has no image or no read panel among them; else the
/// images, the read panels still present, and the rest, never below zero.
pub open spec fn folder_counts(entries: Seq<String>, panels: Seq<MangaPanel>) -> (u32, u32, u32) {
    let images = image_files(entries);
    let read = read_present(panels, images);
    if images.len() == 0 || read.len() == 0 {
        (0u32, 0u32, 0u32)
    } else {
        let t = images.len() as u32;
        let r = read.len() as u32;
        (t, r, if t > r { (t - r) as u32 } else { 0u32 })
    }
}

/// Whether `p` is one of `files`.
pub(crate) fn listed(files: &Vec<String>, p: &str) -> (r: bool)
    ensures
        r == path_views(files@).contains(p@),
{
    let mut i: usize = 0;
    while i < files.len()
        invariant
            i <= files@.len(),
            forall|j: int| 0 <= j < i ==> files@[j]@ != p@,
        decreases files.len() - i,
    {
        if str_eq(files[i].as_str(), p) {
            assert(path_views(files@)[i as int] == p@);
            return true;
        }
        i = i + 1;
    }
    proof {
        if path_views(files@).contains(p@) {
            let j = choose|j: int| 0 <= j < path_views(files@).len() && path_views(files@)[j] == p@;
            assert(files@[j]@ == p@);
        }
    }
    false
}

/// Counts the panels of one chapter folder from the paths listed directly in
/// it and its panel rows: the image files (by extension), the panels marked
/// read whose file is still listed, and the remaining ones, clamped at zero;
/// all zero when either of the first two is zero.
pub fn count_manga_panels(dir_entries: &Vec<String>, manga_panels: &Vec<MangaPanel>) -> (r: (
    u32,
    u32,
    u32,
))
    ensures
        r == folder_counts(dir_entries@, manga_panels@),
        r.1 > r.0 ==> r.2 == 0,
{
    let ghost fi = |e: String| is_panel_path(e@);
    let mut images: Vec<String> = Vec::new();
    let mut i: usize = 0;
    while i < dir_entries.len()
        invariant
            i <= dir_entries@.len(),
            fi == (|e: String| is_panel_path(e@)),
            images@ == dir_entries@.take(i as int).filter(fi),
        decreases dir_entries.len() - i,
    {
        proof {
            let t = dir_entries@;
            assert(t.take(i + 1) =~= t.take(i as int).push(t[i as int]));
            t.take(i as int).lemma_filter_push(t[i as int], fi);
        }
        if is_panel_image(dir_entries[i].as_str()) {
            images.push(dir_entries[i].clone());
        }
        i = i + 1;
    }
    assert(dir_entries@.take(dir_entries@.len() as int) =~= dir_entries@);
    let ghost im = images@;
    let ghost fr = |p: MangaPanel| p.is_read && path_views(im).contains(p.full_path@);
    let mut read: usize = 0;
    let mut k: usize = 0;
    while k < manga_panels.len()
        invariant
            k <= manga_panels@.len(),
            im == images@,
            fr == (|p: MangaPanel| p.is_read && path_views(im).contains(p.full_path@)),
            read == manga_panels@.take(k as int).filter(fr).len(),
            read <= k,
        decreases manga_panels.len() - k,
    {
        proof {
            let t = manga_panels@;
            assert(t.take(k + 1) =~= t.take(k as int).push(t[k as int]));
            t.take(k as int).lemma_filter_push(t[k as int], fr);
        }
        if manga_panels[k].is_read && listed(&images, manga_panels[k].full_path.as_str()) {
            read = read + 1;
        }
        k = k + 1;
    }
    assert(manga_panels@.take(manga_panels@.len() as int) =~= manga_panels@);
    if images.len() == 0 || read == 0 {
        return (0, 0, 0);
    }
    let total = images.len() as u32;
    let done = read as u32;
    let remaining = if total > done {
        total - done
    } else {
        0
    };
    (total, done, remaining)
}

} // verus!
