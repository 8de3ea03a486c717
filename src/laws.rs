//! Properties that hold across several operations of the library.

use vstd::prelude::*;
use crate::model::{
    LibraryView, add_watchtime, chart_add, delete_folder_spec, global_stats_of,
    is_panel_candidate, manga_refresh, panel_refresh, parent_refresh, reconcile_all,
    reconcile_rows, refreshed, reset_times, sat_add, select_manga, select_parent, the_row,
    time_sum, upsert_manga, upsert_mangas, upsert_panel, upsert_panels, upsert_parent, upsert_parents,
};
use crate::navigation::{has_predecessor, has_successor, precedes};
use crate::stats::{image_files, path_views, read_present};
use crate::records::{Chart, MangaFolder, MangaPanel, ParentFolder, Row};
use crate::table::{
    has_key, keys_unique, lemma_push_keeps_unique, lemma_update_keeps_unique,
    lemma_update_where_at,
};
use crate::text::has_prefix;

verus! {

broadcast use vstd::seq_lib::group_seq_properties;

/// Exactly one row of the table has key `k`.
pub open spec fn exactly_one<R: Row>(t: Seq<R>, k: Seq<char>) -> bool {
    &&& has_key(t, k)
    &&& forall|i: int, j: int|
        0 <= i < t.len() && 0 <= j < t.len() && t[i].key() == k && t[j].key() == k ==> i == j
}

proof fn lemma_unique_one<R: Row>(t: Seq<R>, k: Seq<char>)
    requires
        keys_unique(t),
        has_key(t, k),
    ensures
        exactly_one(t, k),
{
    assert forall|i: int, j: int|
        0 <= i < t.len() && 0 <= j < t.len() && t[i].key() == k && t[j].key() == k implies i
        == j by {
        if i < j {
            assert(t[i].key() != t[j].key());
        } else if j < i {
            assert(t[j].key() != t[i].key());
        }
    }
}

/// Registering a series folder at a path already registered updates its row
/// in place: the table keeps its length and one row for the path, which
/// takes the later `is_expanded`.
pub proof fn upsert_parent_twice(t: Seq<ParentFolder>, a: ParentFolder, b: ParentFolder)
    requires
        keys_unique(t),
        a.key() == b.key(),
    ensures
        upsert_parents(upsert_parents(t, seq![a]), seq![b]) == upsert_parent(upsert_parent(t, a), b),
        upsert_parent(upsert_parent(t, a), b).len() == upsert_parent(t, a).len(),
        exactly_one(upsert_parent(upsert_parent(t, a), b), b.key()),
        forall|i: int|
            0 <= i < upsert_parent(upsert_parent(t, a), b).len() && (#[trigger] upsert_parent(
                upsert_parent(t, a),
                b,
            )[i]).key() == b.key() ==> upsert_parent(upsert_parent(t, a), b)[i].is_expanded
                == b.is_expanded,
{
    assert(seq![a].drop_last() =~= Seq::<ParentFolder>::empty());
    assert(seq![b].drop_last() =~= Seq::<ParentFolder>::empty());
    let e = Seq::<ParentFolder>::empty();
    assert(upsert_parents(t, e) == t);
    assert(upsert_parents(t, seq![a]) == upsert_parent(t, a));
    let t1 = upsert_parent(t, a);
    assert(upsert_parents(t1, e) == t1);
    assert(upsert_parents(t1, seq![b]) == upsert_parent(t1, b));
    crate::model::lemma_upsert_parent(t, a);
    let i = choose|i: int| 0 <= i < t1.len() && t1[i].key() == b.key();
    lemma_update_where_at(t1, b.key(), parent_refresh(b.is_expanded), i);
    lemma_update_keeps_unique(t1, i, (parent_refresh(b.is_expanded))(t1[i]));
    let t2 = upsert_parent(t1, b);
    assert(t2[i].key() == b.key());
    lemma_unique_one(t2, b.key());
}

/// Registering a chapter folder at a path already registered updates its
/// row in place: the table keeps its length and one row for the path.
pub proof fn upsert_manga_twice(t: Seq<MangaFolder>, a: MangaFolder, b: MangaFolder)
    requires
        keys_unique(t),
        a.key() == b.key(),
    ensures
        upsert_mangas(upsert_mangas(t, seq![a]), seq![b]) == upsert_manga(upsert_manga(t, a), b),
        upsert_manga(upsert_manga(t, a), b).len() == upsert_manga(t, a).len(),
        exactly_one(upsert_manga(upsert_manga(t, a), b), b.key()),
{
    assert(seq![a].drop_last() =~= Seq::<MangaFolder>::empty());
    assert(seq![b].drop_last() =~= Seq::<MangaFolder>::empty());
    let e = Seq::<MangaFolder>::empty();
    assert(upsert_mangas(t, e) == t);
    assert(upsert_mangas(t, seq![a]) == upsert_manga(t, a));
    let t1 = upsert_manga(t, a);
    assert(upsert_mangas(t1, e) == t1);
    assert(upsert_mangas(t1, seq![b]) == upsert_manga(t1, b));
    crate::model::lemma_upsert_manga(t, a);
    let i = choose|i: int| 0 <= i < t1.len() && t1[i].key() == b.key();
    let f = manga_refresh(b.as_child, b.is_expanded);
    lemma_update_where_at(t1, b.key(), f, i);
    lemma_update_keeps_unique(t1, i, f(t1[i]));
    let t2 = upsert_manga(t1, b);
    assert(t2[i].key() == b.key());
    lemma_unique_one(t2, b.key());
}

/// Registering a panel at a path already registered updates its row in
/// place: the table keeps its length and one row for the path.
pub proof fn upsert_panel_twice(t: Seq<MangaPanel>, a: MangaPanel, b: MangaPanel)
    requires
        keys_unique(t),
        a.key() == b.key(),
    ensures
        upsert_panels(upsert_panels(t, seq![a]), seq![b]) == upsert_panel(upsert_panel(t, a), b),
        upsert_panel(upsert_panel(t, a), b).len() == upsert_panel(t, a).len(),
        exactly_one(upsert_panel(upsert_panel(t, a), b), b.key()),
{
    assert(seq![a].drop_last() =~= Seq::<MangaPanel>::empty());
    assert(seq![b].drop_last() =~= Seq::<MangaPanel>::empty());
    let e = Seq::<MangaPanel>::empty();
    assert(upsert_panels(t, e) == t);
    assert(upsert_panels(t, seq![a]) == upsert_panel(t, a));
    let t1 = upsert_panel(t, a);
    assert(upsert_panels(t1, e) == t1);
    assert(upsert_panels(t1, seq![b]) == upsert_panel(t1, b));
    crate::model::lemma_upsert_panel(t, a);
    let i = choose|i: int| 0 <= i < t1.len() && t1[i].key() == b.key();
    let f = panel_refresh(b.is_read, b.updated_at);
    lemma_update_where_at(t1, b.key(), f, i);
    lemma_update_keeps_unique(t1, i, f(t1[i]));
    let t2 = upsert_panel(t1, b);
    assert(t2[i].key() == b.key());
    lemma_unique_one(t2, b.key());
}

/// Deleting the folder at `p` leaves no folder whose path starts with `p`
/// and keeps every other folder; panels under `p` go only with `all_data`,
/// and stay untouched without it.
pub proof fn delete_folder_cascades(v: LibraryView, p: Seq<char>, all_data: bool)
    ensures
        ({
            let w = delete_folder_spec(v, p, all_data);
            &&& forall|i: int| 0 <= i < w.mangas.len() ==> !has_prefix(#[trigger] w.mangas[i].key(), p)
            &&& forall|i: int| 0 <= i < w.parents.len() ==> !has_prefix(#[trigger] w.parents[i].key(), p)
            &&& forall|i: int|
                0 <= i < v.mangas.len() && !has_prefix(v.mangas[i].key(), p) ==> w.mangas.contains(
                    #[trigger] v.mangas[i],
                )
            &&& forall|i: int|
                0 <= i < v.parents.len() && !has_prefix(v.parents[i].key(), p) ==> w.parents.contains(
                    #[trigger] v.parents[i],
                )
            &&& all_data ==> forall|i: int|
                0 <= i < w.panels.len() ==> !has_prefix(#[trigger] w.panels[i].key(), p)
            &&& all_data ==> forall|i: int|
                0 <= i < v.panels.len() && !has_prefix(v.panels[i].key(), p) ==> w.panels.contains(
                    #[trigger] v.panels[i],
                )
            &&& !all_data ==> w.panels == v.panels
        }),
{
    broadcast use vstd::seq_lib::group_filter_ensures;

    let fm = |r: MangaFolder| !has_prefix(r.key(), p);
    let fp = |r: ParentFolder| !has_prefix(r.key(), p);
    let fz = |r: MangaPanel| !has_prefix(r.key(), p);
    let w = delete_folder_spec(v, p, all_data);
    assert forall|i: int| 0 <= i < w.mangas.len() implies !has_prefix(#[trigger] w.mangas[i].key(), p) by {
        v.mangas.lemma_filter_pred(fm, i);
    }
    assert forall|i: int| 0 <= i < w.parents.len() implies !has_prefix(#[trigger] w.parents[i].key(), p) by {
        v.parents.lemma_filter_pred(fp, i);
    }
    assert forall|i: int|
        0 <= i < v.mangas.len() && !has_prefix(v.mangas[i].key(), p) implies w.mangas.contains(
        #[trigger] v.mangas[i],
    ) by {
        v.mangas.lemma_filter_contains(fm, i);
    }
    assert forall|i: int|
        0 <= i < v.parents.len() && !has_prefix(v.parents[i].key(), p) implies w.parents.contains(
        #[trigger] v.parents[i],
    ) by {
        v.parents.lemma_filter_contains(fp, i);
    }
    if all_data {
        assert forall|i: int| 0 <= i < w.panels.len() implies !has_prefix(#[trigger] w.panels[i].key(), p) by {
            v.panels.lemma_filter_pred(fz, i);
        }
        assert forall|i: int|
            0 <= i < v.panels.len() && !has_prefix(v.panels[i].key(), p) implies w.panels.contains(
            #[trigger] v.panels[i],
        ) by {
            v.panels.lemma_filter_contains(fz, i);
        }
    }
}

/// Choosing an active chapter folder twice leaves the second choice, as
/// the one active chapter folder, whatever the first was.
pub proof fn select_manga_replaces(v: LibraryView, first: Seq<char>, second: Seq<char>)
    ensures
        select_manga(select_manga(v, first), second) == select_manga(v, second),
        select_manga(select_manga(v, first), second).active_manga == Some(the_row(v.mangas, second)),
{
}

/// Choosing an active series folder twice leaves the second choice, as the
/// one active series folder, whatever the first was.
pub proof fn select_parent_replaces(v: LibraryView, first: Seq<char>, second: Seq<char>)
    ensures
        select_parent(select_parent(v, first), second) == select_parent(v, second),
        select_parent(select_parent(v, first), second).active_parent == Some(the_row(v.parents, second)),
{
}

/// Adding watch time twice to a day with no row yet creates exactly one row
/// for it, after the existing rows, holding the sum of both (saturating).
pub proof fn chart_add_twice(t: Seq<Chart>, day: String, a: u32, b: u32)
    requires
        keys_unique(t),
        !has_key(t, day@),
    ensures
        chart_add(chart_add(t, day, a), day, b) == t.push(
            Chart { watchtime: sat_add(sat_add(0, a), b), updated_at: day },
        ),
        exactly_one(chart_add(chart_add(t, day, a), day, b), day@),
{
    let row = Chart { watchtime: 0, updated_at: day };
    let t0 = t.push(row);
    lemma_push_keeps_unique(t, row);
    let n = t.len() as int;
    lemma_update_where_at(t0, day@, add_watchtime(a), n);
    let t1 = chart_add(t, day, a);
    assert(t1 == t0.update(n, Chart { watchtime: sat_add(0, a), updated_at: day }));
    lemma_update_keeps_unique(t0, n, t1[n]);
    assert(has_key(t1, day@)) by {
        assert(t1[n].key() == day@);
    }
    lemma_update_where_at(t1, day@, add_watchtime(b), n);
    let t2 = chart_add(t1, day, b);
    assert(t2 =~= t.push(Chart { watchtime: sat_add(sat_add(0, a), b), updated_at: day }));
    lemma_update_keeps_unique(t1, n, t2[n]);
    assert(t2[n].key() == day@);
    lemma_unique_one(t2, day@);
}

/// Every candidate file's path has a panel after reconciliation, and every
/// path known before stays known.
proof fn lemma_reconcile_covers(
    t: Seq<MangaPanel>,
    files: Seq<(String, Option<(usize, usize)>)>,
    ins: Seq<MangaPanel>,
    now: String,
)
    requires
        reconcile_rows(files, ins, now),
    ensures
        forall|i: int|
            0 <= i < files.len() && is_panel_candidate(files[i].0@) ==> has_key(
                reconcile_all(t, files, ins),
                #[trigger] files[i].0@,
            ),
        forall|k: Seq<char>| has_key(t, k) ==> #[trigger] has_key(reconcile_all(t, files, ins), k),
    decreases files.len(),
{
    if files.len() > 0 {
        let n = files.len() - 1;
        let fs = files.drop_last();
        assert(reconcile_rows(fs, ins.take(n), now)) by {
            assert forall|i: int| 0 <= i < fs.len() && is_panel_candidate(fs[i].0@) implies
                crate::model::new_panel_row(
                #[trigger] ins.take(n)[i],
                fs[i].0,
                crate::paths::panel_size_spec(fs[i].1),
                false,
                0,
                now,
            ) by {
                assert(ins.take(n)[i] == ins[i]);
                assert(files[i] == fs[i]);
            }
        }
        lemma_reconcile_covers(t, fs, ins.take(n), now);
        crate::model::lemma_reconcile_ins_prefix(t, fs, ins, ins.take(n));
        let prev = reconcile_all(t, fs, ins);
        if is_panel_candidate(files[n].0@) {
            let row = ins[n];
            assert(row.key() == files[n].0@);
            if !has_key(prev, row.key()) {
                assert forall|k: Seq<char>| has_key(prev, k) implies has_key(prev.push(row), k) by {
                    let j = choose|j: int| 0 <= j < prev.len() && prev[j].key() == k;
                    assert(prev.push(row)[j] == prev[j]);
                }
                assert(prev.push(row)[prev.len() as int] == row);
            }
        }
        assert forall|i: int|
            0 <= i < files.len() && is_panel_candidate(files[i].0@) implies has_key(
            reconcile_all(t, files, ins),
            #[trigger] files[i].0@,
        ) by {
            if i < n {
                assert(fs[i] == files[i]);
            }
        }
        assert forall|k: Seq<char>| has_key(t, k) implies #[trigger] has_key(
            reconcile_all(t, files, ins),
            k,
        ) by {
            assert(has_key(reconcile_all(t, fs, ins.take(n)), k));
            assert(has_key(prev, k));
        }
    }
}

/// Reconciling files whose candidate paths are all known changes nothing.
proof fn lemma_reconcile_known(
    t: Seq<MangaPanel>,
    files: Seq<(String, Option<(usize, usize)>)>,
    ins: Seq<MangaPanel>,
    now: String,
)
    requires
        reconcile_rows(files, ins, now),
        forall|i: int|
            0 <= i < files.len() && is_panel_candidate(files[i].0@) ==> has_key(t, #[trigger] files[i].0@),
    ensures
        reconcile_all(t, files, ins) == t,
    decreases files.len(),
{
    if files.len() > 0 {
        let n = files.len() - 1;
        let fs = files.drop_last();
        assert(reconcile_rows(fs, ins.take(n), now)) by {
            assert forall|i: int| 0 <= i < fs.len() && is_panel_candidate(fs[i].0@) implies
                crate::model::new_panel_row(
                #[trigger] ins.take(n)[i],
                fs[i].0,
                crate::paths::panel_size_spec(fs[i].1),
                false,
                0,
                now,
            ) by {
                assert(ins.take(n)[i] == ins[i]);
                assert(files[i] == fs[i]);
            }
        }
        assert forall|i: int| 0 <= i < fs.len() && is_panel_candidate(fs[i].0@) implies has_key(
            t,
            #[trigger] fs[i].0@,
        ) by {
            assert(fs[i] == files[i]);
        }
        lemma_reconcile_known(t, fs, ins.take(n), now);
        crate::model::lemma_reconcile_ins_prefix(t, fs, ins, ins.take(n));
        if is_panel_candidate(files[n].0@) {
            assert(ins[n].key() == files[n].0@);
        }
    }
}

proof fn lemma_reset_times(t: Seq<MangaFolder>)
    ensures
        time_sum(reset_times(t)) == 0,
        reset_times(reset_times(t)) == reset_times(t),
        reset_times(t).len() == t.len(),
    decreases t.len(),
{
    if t.len() > 0 {
        lemma_reset_times(t.drop_last());
        assert(reset_times(t).drop_last() =~= reset_times(t.drop_last()));
    }
    assert(reset_times(reset_times(t)) =~= reset_times(t));
}

/// Refreshing the statistics snapshot a second time, with the same files on
/// disk and nothing else changed in between, writes nothing and returns the
/// same totals: the library is left exactly as the first refresh left it.
pub proof fn refresh_twice_writes_once(
    v: LibraryView,
    files: Seq<(String, Option<(usize, usize)>)>,
    first: Seq<MangaPanel>,
    second: Seq<MangaPanel>,
    now1: String,
    now2: String,
)
    requires
        reconcile_rows(files, first, now1),
        reconcile_rows(files, second, now2),
    ensures
        refreshed(refreshed(v, files, first).0, files, second) == refreshed(v, files, first),
{
    let (v1, r1) = refreshed(v, files, first);
    lemma_reconcile_covers(v.panels, files, first, now1);
    lemma_reconcile_known(v1.panels, files, second, now2);
    lemma_reset_times(v.mangas);
    let g1 = global_stats_of(v.mangas, v1.panels);
    let g2 = global_stats_of(v1.mangas, v1.panels);
    assert(g2.total_time_spent_reading == 0);
    assert(sat_add(0, r1.total_time_spent_reading) == r1.total_time_spent_reading);
}

/// In reading order, the sibling that comes first has no previous one and
/// the sibling that comes last has no next one.
pub proof fn navigation_boundaries(keys: Seq<u32>, c: int)
    requires
        0 <= c < keys.len(),
    ensures
        (forall|k: int| 0 <= k < keys.len() && k != c ==> #[trigger] precedes(keys, c, k))
            ==> !has_predecessor(keys, c),
        (forall|k: int| 0 <= k < keys.len() && k != c ==> #[trigger] precedes(keys, k, c))
            ==> !has_successor(keys, c),
{
    if forall|k: int| 0 <= k < keys.len() && k != c ==> #[trigger] precedes(keys, c, k) {
        if has_predecessor(keys, c) {
            let k = choose|k: int| 0 <= k < keys.len() && precedes(keys, k, c);
            assert(k != c);
            assert(precedes(keys, c, k));
        }
    }
    if forall|k: int| 0 <= k < keys.len() && k != c ==> #[trigger] precedes(keys, k, c) {
        if has_successor(keys, c) {
            let k = choose|k: int| 0 <= k < keys.len() && precedes(keys, c, k);
            assert(k != c);
            assert(precedes(keys, k, c));
        }
    }
}

/// Registering a series folder at a path that row `i` already holds updates
/// that row in place: it takes the new `is_expanded` and keeps every other
/// field, its id and creation time among them.
pub proof fn upsert_parent_known_path(t: Seq<ParentFolder>, i: int, row: ParentFolder)
    requires
        keys_unique(t),
        0 <= i < t.len(),
        t[i].key() == row.key(),
    ensures
        upsert_parents(t, seq![row]) == t.update(
            i,
            ParentFolder { is_expanded: row.is_expanded, ..t[i] },
        ),
{
    assert(seq![row].drop_last() =~= Seq::<ParentFolder>::empty());
    assert(upsert_parents(t, Seq::<ParentFolder>::empty()) == t);
    assert(has_key(t, row.key()));
    lemma_update_where_at(t, row.key(), parent_refresh(row.is_expanded), i);
}

/// Registering a chapter folder at a path that row `i` already holds updates
/// that row in place: it takes the new `as_child` and `is_expanded` and
/// keeps every other field, its id, reading time and flags among them.
pub proof fn upsert_manga_known_path(t: Seq<MangaFolder>, i: int, row: MangaFolder)
    requires
        keys_unique(t),
        0 <= i < t.len(),
        t[i].key() == row.key(),
    ensures
        upsert_mangas(t, seq![row]) == t.update(
            i,
            MangaFolder { as_child: row.as_child, is_expanded: row.is_expanded, ..t[i] },
        ),
{
    assert(seq![row].drop_last() =~= Seq::<MangaFolder>::empty());
    assert(upsert_mangas(t, Seq::<MangaFolder>::empty()) == t);
    assert(has_key(t, row.key()));
    lemma_update_where_at(t, row.key(), manga_refresh(row.as_child, row.is_expanded), i);
}

/// Registering a panel at a path that row `i` already holds updates that row
/// in place: it takes the new `is_read` and `updated_at` and keeps every
/// other field, its id, size and zoom among them.
pub proof fn upsert_panel_known_path(t: Seq<MangaPanel>, i: int, row: MangaPanel)
    requires
        keys_unique(t),
        0 <= i < t.len(),
        t[i].key() == row.key(),
    ensures
        upsert_panels(t, seq![row]) == t.update(
            i,
            MangaPanel { is_read: row.is_read, updated_at: row.updated_at, ..t[i] },
        ),
{
    assert(seq![row].drop_last() =~= Seq::<MangaPanel>::empty());
    assert(upsert_panels(t, Seq::<MangaPanel>::empty()) == t);
    assert(has_key(t, row.key()));
    lemma_update_where_at(t, row.key(), panel_refresh(row.is_read, row.updated_at), i);
}

/// Where panel paths are unique, the panels marked read whose file is still
/// listed in a chapter folder never outnumber the images listed there, so the
/// folder's remaining count is its images less its read panels.
pub proof fn read_never_exceeds_images(panels: Seq<MangaPanel>, entries: Seq<String>)
    requires
        keys_unique(panels),
    ensures
        read_present(panels, image_files(entries)).len() <= image_files(entries).len(),
{
    broadcast use {vstd::set::group_set_axioms, vstd::seq_lib::seq_to_set_is_finite};
    broadcast use vstd::seq_lib::group_filter_ensures;

    let images = image_files(entries);
    let pv = path_views(images);
    let f = |p: MangaPanel| p.is_read && path_views(images).contains(p.full_path@);
    let r = panels.filter(f);
    assert(r == read_present(panels, images));
    crate::table::lemma_filter_keeps_unique(panels, f);
    let ks = r.map_values(|p: MangaPanel| p.full_path@);
    assert(ks.no_duplicates()) by {
        assert forall|a: int, b: int| 0 <= a < ks.len() && 0 <= b < ks.len() && a != b implies ks[a]
            != ks[b] by {
            if a < b {
                assert(r[a].key() != r[b].key());
            } else {
                assert(r[b].key() != r[a].key());
            }
        }
    }
    ks.unique_seq_to_set();
    pv.lemma_cardinality_of_set();
    assert(ks.to_set().subset_of(pv.to_set())) by {
        assert forall|x: Seq<char>| ks.to_set().contains(x) implies pv.to_set().contains(x) by {
            assert(ks.contains(x));
            let a = choose|a: int| 0 <= a < ks.len() && ks[a] == x;
            panels.lemma_filter_pred(f, a);
        }
    }
    vstd::set_lib::lemma_len_subset(ks.to_set(), pv.to_set());
}

} // verus!
