//! Choosing the cover panel of a chapter folder and of a series folder from
//! what their directories list.

use vstd::prelude::*;
use crate::records::LibraryError;
use crate::text::str_eq;
use crate::paths::{
    file_name_of, is_panel_image, is_panel_path, opt_view, ordering_number, ordering_number_spec,
    path_file_name,
};

verus! {

/// The number that orders the image files of a folder: the trailing number
/// of the file name, or 0 where there is none.
pub open spec fn cover_key(p: Seq<char>) -> u32 {
    match path_file_name(p) {
        Some(n) => ordering_number_spec(n),
        None => 0,
    }
}

/// Entry `i` is the cover of a listing: an image whose number is the least,
/// and the first listed among those with that number.
pub open spec fn is_cover_at(entries: Seq<String>, i: int) -> bool {
    &&& 0 <= i < entries.len()
    &&& is_panel_path(entries[i]@)
    &&& forall|j: int|
        0 <= j < entries.len() && is_panel_path(#[trigger] entries[j]@) ==> cover_key(entries[i]@)
            < cover_key(entries[j]@) || (cover_key(entries[i]@) == cover_key(entries[j]@) && i
            <= j)
}

/// The listing holds an image file.
pub open spec fn has_image(entries: Seq<String>) -> bool {
    exists|j: int| 0 <= j < entries.len() && is_panel_path(#[trigger] entries[j]@)
}

/// `c` is the cover that a listing gives, if any.
pub open spec fn is_cover_of(entries: Seq<String>, c: Option<String>) -> bool {
    match c {
        Some(p) => exists|i: int| is_cover_at(entries, i) && #[trigger] entries[i] == p,
        None => !has_image(entries),
    }
}

fn cover_number(p: &str) -> (r: u32)
    ensures
        r == cover_key(p@),
{
    match file_name_of(p) {
        Some(n) => ordering_number(n.as_str()),
        None => 0,
    }
}

/// The cover of a chapter folder, from the paths listed directly in it: of
/// the image files (by extension), the one with the least trailing number
/// (0 where there is none), the first listed among equals; none when the
/// folder holds no image.
pub fn get_manga_folder_cover_panel_path(entries: &Vec<String>) -> (r: Option<String>)
    ensures
        is_cover_of(entries@, r),
{
    let mut best: Option<usize> = None;
    let mut best_key: u32 = 0;
    let mut i: usize = 0;
    while i < entries.len()
        invariant
            i <= entries@.len(),
            best is None ==> forall|j: int| 0 <= j < i ==> !is_panel_path(#[trigger] entries@[j]@),
            best matches Some(b) ==> {
                &&& b < i
                &&& is_panel_path(entries@[b as int]@)
                &&& best_key == cover_key(entries@[b as int]@)
                &&& forall|j: int|
                    0 <= j < i && is_panel_path(#[trigger] entries@[j]@) ==> best_key < cover_key(
                        entries@[j]@,
                    ) || (best_key == cover_key(entries@[j]@) && b <= j)
            },
        decreases entries.len() - i,
    {
        if is_panel_image(entries[i].as_str()) {
            let k = cover_number(entries[i].as_str());
            let better = match best {
                None => true,
                Some(_) => k < best_key,
            };
            if better {
                best = Some(i);
                best_key = k;
            }
        }
        i = i + 1;
    }
    match best {
        Some(b) => {
            let c = entries[b].clone();
            assert(is_cover_at(entries@, b as int));
            Some(c)
        },
        None => None,
    }
}

/// What a search for a series cover comes to.
pub enum CoverSearch {
    /// The cover found.
    Found(Seq<char>),
    /// No folder searched holds an image.
    Missing,
    /// A folder the search had to look into could not be listed.
    Unreadable,
}

/// A directory tree as read from disk: each folder's path with its listing
/// (each entry's path, and whether it is a folder), or none where the
/// folder could not be listed.
pub type DirTree = Vec<(String, Option<Vec<(String, bool)>>)>;

/// The listing of `dir`: the first record of it in the tree; none when the
/// folder could not be listed or was not read.
pub open spec fn listing_in(tree: Seq<(String, Option<Vec<(String, bool)>>)>, dir: Seq<char>) -> Option<
    Seq<(String, bool)>,
>
    decreases tree.len(),
{
    if tree.len() == 0 {
        None
    } else if tree[0].0@ == dir {
        match tree[0].1 {
            Some(v) => Some(v@),
            None => None,
        }
    } else {
        listing_in(tree.drop_first(), dir)
    }
}

/// The paths of a listing's entries.
pub open spec fn entry_paths(l: Seq<(String, bool)>) -> Seq<String> {
    l.map_values(|e: (String, bool)| e.0)
}

/// The cover of a listing, if it holds an image.
pub open spec fn cover_pick(entries: Seq<String>) -> Option<Seq<char>> {
    if has_image(entries) {
        Some(entries[choose|i: int| is_cover_at(entries, i)]@)
    } else {
        None
    }
}

/// The cover search under `dir`: its subfolders in listing order, each
/// giving its own cover if its listing holds an image, else the cover found
/// under it; the first found wins. `fuel` bounds the depth.
pub open spec fn cover_under(
    tree: Seq<(String, Option<Vec<(String, bool)>>)>,
    dir: Seq<char>,
    fuel: nat,
) -> CoverSearch
    decreases fuel, 0nat,
{
    if fuel == 0 {
        CoverSearch::Missing
    } else {
        match listing_in(tree, dir) {
            None => CoverSearch::Unreadable,
            Some(l) => cover_in_subfolders(tree, l, 0, (fuel - 1) as nat),
        }
    }
}

/// The cover search through the subfolders of listing `l` from entry `i` on.
pub open spec fn cover_in_subfolders(
    tree: Seq<(String, Option<Vec<(String, bool)>>)>,
    l: Seq<(String, bool)>,
    i: int,
    fuel: nat,
) -> CoverSearch
    decreases fuel, l.len() - i,
{
    if i < 0 || i >= l.len() {
        CoverSearch::Missing
    } else if !l[i].1 {
        cover_in_subfolders(tree, l, i + 1, fuel)
    } else {
        match listing_in(tree, l[i].0@) {
            None => CoverSearch::Unreadable,
            Some(sub) => match cover_pick(entry_paths(sub)) {
                Some(c) => CoverSearch::Found(c),
                None => match cover_under(tree, l[i].0@, fuel) {
                    CoverSearch::Found(c) => CoverSearch::Found(c),
                    CoverSearch::Unreadable => CoverSearch::Unreadable,
                    CoverSearch::Missing => cover_in_subfolders(tree, l, i + 1, fuel),
                },
            },
        }
    }
}

/// What a search result says, as a `CoverSearch`.
pub open spec fn search_outcome(r: Result<Option<String>, LibraryError>) -> CoverSearch {
    match r {
        Ok(Some(c)) => CoverSearch::Found(c@),
        Ok(None) => CoverSearch::Missing,
        Err(_) => CoverSearch::Unreadable,
    }
}

/// A listing has at most one cover.
proof fn lemma_cover_unique(entries: Seq<String>, i: int, j: int)
    requires
        is_cover_at(entries, i),
        is_cover_at(entries, j),
    ensures
        i == j,
{
    assert(is_panel_path(entries[j]@));
    assert(is_panel_path(entries[i]@));
}

/// The listing of `dir` in the tree.
fn listing_of<'a>(tree: &'a DirTree, dir: &str) -> (r: Option<&'a Vec<(String, bool)>>)
    ensures
        match r {
            Some(v) => listing_in(tree@, dir@) == Some(v@),
            None => listing_in(tree@, dir@) is None,
        },
{
    let mut i: usize = 0;
    assert(tree@.skip(0) =~= tree@);
    while i < tree.len()
        invariant
            i <= tree@.len(),
            listing_in(tree@, dir@) == listing_in(tree@.skip(i as int), dir@),
        decreases tree.len() - i,
    {
        assert(tree@.skip(i as int).drop_first() =~= tree@.skip(i + 1));
        assert(tree@.skip(i as int)[0] == tree@[i as int]);
        if str_eq(tree[i].0.as_str(), dir) {
            return match &tree[i].1 {
                Some(v) => Some(v),
                None => None,
            };
        }
        i = i + 1;
    }
    None
}

/// The cover of one listing.
fn listing_cover(l: &Vec<(String, bool)>) -> (r: Option<String>)
    ensures
        opt_view(r) == cover_pick(entry_paths(l@)),
{
    let mut paths: Vec<String> = Vec::new();
    let mut i: usize = 0;
    while i < l.len()
        invariant
            i <= l@.len(),
            paths@ == entry_paths(l@.take(i as int)),
        decreases l.len() - i,
    {
        paths.push(l[i].0.clone());
        assert(paths@ =~= entry_paths(l@.take(i + 1)));
        i = i + 1;
    }
    assert(l@.take(l@.len() as int) =~= l@);
    let r = get_manga_folder_cover_panel_path(&paths);
    proof {
        let e = paths@;
        if r is Some {
            let c = r->0;
            let k = choose|k: int| is_cover_at(e, k) && #[trigger] e[k] == c;
            let m = choose|m: int| is_cover_at(e, m);
            lemma_cover_unique(e, k, m);
        }
    }
    r
}

fn search_under(tree: &DirTree, dir: &str, fuel: usize) -> (r: Result<Option<String>, LibraryError>)
    ensures
        search_outcome(r) == cover_under(tree@, dir@, fuel as nat),
        r is Err ==> r == Err::<Option<String>, LibraryError>(LibraryError::UnreadableFolder),
    decreases fuel, 0nat,
{
    if fuel == 0 {
        return Ok(None);
    }
    match listing_of(tree, dir) {
        None => Err(LibraryError::UnreadableFolder),
        Some(l) => search_subfolders(tree, l, 0, fuel - 1),
    }
}

fn search_subfolders(tree: &DirTree, l: &Vec<(String, bool)>, i: usize, fuel: usize) -> (r: Result<
    Option<String>,
    LibraryError,
>)
    requires
        i <= l@.len(),
    ensures
        search_outcome(r) == cover_in_subfolders(tree@, l@, i as int, fuel as nat),
        r is Err ==> r == Err::<Option<String>, LibraryError>(LibraryError::UnreadableFolder),
    decreases fuel, l@.len() - i,
{
    if i >= l.len() {
        return Ok(None);
    }
    if !l[i].1 {
        return search_subfolders(tree, l, i + 1, fuel);
    }
    let sub = l[i].0.as_str();
    match listing_of(tree, sub) {
        None => Err(LibraryError::UnreadableFolder),
        Some(sl) => match listing_cover(sl) {
            Some(c) => Ok(Some(c)),
            None => match search_under(tree, sub, fuel) {
                Ok(Some(c)) => Ok(Some(c)),
                Err(e) => Err(e),
                Ok(None) => search_subfolders(tree, l, i + 1, fuel),
            },
        },
    }
}

/// The cover of the series folder at `root`, searched in the tree read from
/// disk: its subfolders in listing order, each giving the cover of its own
/// listing when that holds an image, else the cover found by the same
/// search under it; the first found wins and ends the search. None when no
/// folder searched holds an image; fails when a folder the search reaches
/// could not be listed. The search goes at most as deep as the tree has
/// folders.
pub fn get_parent_folder_cover_panel_path(root: &str, tree: &DirTree) -> (r: Result<
    Option<String>,
    LibraryError,
>)
    ensures
        search_outcome(r) == cover_under(tree@, root@, tree@.len() as nat),
        r is Err ==> r == Err::<Option<String>, LibraryError>(LibraryError::UnreadableFolder),
{
    search_under(tree, root, tree.len())
}

} // verus!
