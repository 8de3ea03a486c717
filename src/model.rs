//! The model of the library store: what it holds, and what each operation
//! makes of it, as spec functions over sequences of rows.

use vstd::prelude::*;
use crate::paths::{panel_size_spec, path_file_name, path_parent};
use crate::records::{Chart, HeatmapEntry, MangaFolder, MangaPanel, ParentFolder, Row, Stats};
use crate::chart::{DAY_FORMAT, TIMESTAMP_FORMAT, parsed_date, parsed_timestamp_date};
use crate::navigation::{has_predecessor, has_successor, is_predecessor, is_successor, title_keys};
use crate::order::is_first_newest;
use crate::stats::{is_image_name_spec, path_views, read_panels, unread_panels};
use crate::table::{
    has_key, keys_unique, lemma_push_keeps_unique, lemma_update_keeps_unique, lemma_update_where_at,
    row_with_key, update_where, without_prefix,
};

verus! {

broadcast use vstd::seq_lib::group_seq_properties;

/// What the library holds.
pub struct LibraryView {
    pub parents: Seq<ParentFolder>,
    pub mangas: Seq<MangaFolder>,
    pub panels: Seq<MangaPanel>,
    pub active_manga: Option<MangaFolder>,
    pub active_parent: Option<ParentFolder>,
    pub snapshot: Option<Stats>,
    pub chart: Seq<Chart>,
    pub heatmap: Seq<HeatmapEntry>,
}

impl LibraryView {
    /// Paths are unique within each folder and panel table, and days within
    /// each series.
    pub open spec fn well_formed(self) -> bool {
        &&& keys_unique(self.parents)
        &&& keys_unique(self.mangas)
        &&& keys_unique(self.panels)
        &&& keys_unique(self.chart)
        &&& keys_unique(self.heatmap)
    }
}

/// A path with both a file name and a parent.
pub open spec fn path_ok(p: Seq<char>) -> bool {
    path_file_name(p) is Some && path_parent(p) is Some
}

/// Every path of a batch has a file name and a parent.
pub open spec fn all_paths_ok<T>(items: Seq<(String, T)>) -> bool {
    forall|i: int| 0 <= i < items.len() ==> path_ok(#[trigger] items[i].0@)
}

/// What a series folder keeps of a later registration of its path.
pub open spec fn parent_refresh(e: bool) -> spec_fn(ParentFolder) -> ParentFolder {
    |r: ParentFolder| ParentFolder { is_expanded: e, ..r }
}

/// Registers one series folder: a new path is appended; a known one only
/// takes the new `is_expanded`.
pub open spec fn upsert_parent(t: Seq<ParentFolder>, row: ParentFolder) -> Seq<ParentFolder> {
    if has_key(t, row.key()) {
        update_where(t, row.key(), parent_refresh(row.is_expanded))
    } else {
        t.push(row)
    }
}

/// Registers series folders in order.
pub open spec fn upsert_parents(t: Seq<ParentFolder>, rows: Seq<ParentFolder>) -> Seq<
    ParentFolder,
>
    decreases rows.len(),
{
    if rows.len() == 0 {
        t
    } else {
        upsert_parent(upsert_parents(t, rows.drop_last()), rows.last())
    }
}

/// What a chapter folder keeps of a later registration of its path.
pub open spec fn manga_refresh(a: bool, e: bool) -> spec_fn(MangaFolder) -> MangaFolder {
    |r: MangaFolder| MangaFolder { as_child: a, is_expanded: e, ..r }
}

/// Registers one chapter folder: a new path is appended; a known one takes
/// the new `as_child` and `is_expanded`.
pub open spec fn upsert_manga(t: Seq<MangaFolder>, row: MangaFolder) -> Seq<MangaFolder> {
    if has_key(t, row.key()) {
        update_where(t, row.key(), manga_refresh(row.as_child, row.is_expanded))
    } else {
        t.push(row)
    }
}

/// Registers chapter folders in order.
pub open spec fn upsert_mangas(t: Seq<MangaFolder>, rows: Seq<MangaFolder>) -> Seq<MangaFolder>
    decreases rows.len(),
{
    if rows.len() == 0 {
        t
    } else {
        upsert_manga(upsert_mangas(t, rows.drop_last()), rows.last())
    }
}

/// What a panel keeps of a later registration of its path.
pub open spec fn panel_refresh(is_read: bool, now: String) -> spec_fn(MangaPanel) -> MangaPanel {
    |r: MangaPanel| MangaPanel { is_read: is_read, updated_at: now, ..r }
}

/// Registers one panel: a new path is appended; a known one takes the new
/// `is_read` and `updated_at`, and keeps its size and zoom.
pub open spec fn upsert_panel(t: Seq<MangaPanel>, row: MangaPanel) -> Seq<MangaPanel> {
    if has_key(t, row.key()) {
        update_where(t, row.key(), panel_refresh(row.is_read, row.updated_at))
    } else {
        t.push(row)
    }
}

/// Registers panels in order.
pub open spec fn upsert_panels(t: Seq<MangaPanel>, rows: Seq<MangaPanel>) -> Seq<MangaPanel>
    decreases rows.len(),
{
    if rows.len() == 0 {
        t
    } else {
        upsert_panel(upsert_panels(t, rows.drop_last()), rows.last())
    }
}

/// `r` is the row that registering `path` as a series folder creates.
pub open spec fn new_parent_row(
    r: ParentFolder,
    path: String,
    cover: Option<String>,
    as_child: bool,
    is_expanded: bool,
    now: String,
) -> bool {
    &&& Some(r.title@) == path_file_name(path@)
    &&& r.full_path == path
    &&& r.as_child == as_child
    &&& r.is_expanded == is_expanded
    &&& r.cover_panel_path == cover
    &&& r.created_at == now
    &&& r.updated_at == now
}

/// `r` is the row that registering `path` as a chapter folder creates.
pub open spec fn new_manga_row(
    r: MangaFolder,
    path: String,
    cover: Option<String>,
    as_child: bool,
    is_expanded: bool,
    now: String,
) -> bool {
    &&& Some(r.title@) == path_file_name(path@)
    &&& r.full_path == path
    &&& r.as_child == as_child
    &&& r.is_expanded == is_expanded
    &&& r.time_spent_reading == 0
    &&& !r.double_panels
    &&& !r.is_read
    &&& r.cover_panel_path == cover
    &&& r.created_at == now
    &&& r.updated_at == now
}

/// `r` is the row that registering `path` as a panel creates.
pub open spec fn new_panel_row(
    r: MangaPanel,
    path: String,
    size: (u16, u16),
    is_read: bool,
    zoom_level: u16,
    now: String,
) -> bool {
    &&& Some(r.title@) == path_file_name(path@)
    &&& r.full_path == path
    &&& r.is_read == is_read
    &&& r.width == size.0
    &&& r.height == size.1
    &&& r.zoom_level == zoom_level
    &&& r.created_at == now
    &&& r.updated_at == now
}

/// The series folders that are not registered as chapters of another.
pub open spec fn top_level_parents(t: Seq<ParentFolder>) -> Seq<ParentFolder> {
    t.filter(|r: ParentFolder| !r.as_child)
}

/// The chapter folders that are not registered as chapters of another.
pub open spec fn top_level_mangas(t: Seq<MangaFolder>) -> Seq<MangaFolder> {
    t.filter(|r: MangaFolder| !r.as_child)
}

/// The library after deleting the folder at `p`: every folder whose path
/// starts with `p` goes, and with `all_data` every such panel too.
pub open spec fn delete_folder_spec(v: LibraryView, p: Seq<char>, all_data: bool) -> LibraryView {
    LibraryView {
        mangas: without_prefix(v.mangas, p),
        parents: without_prefix(v.parents, p),
        panels: if all_data {
            without_prefix(v.panels, p)
        } else {
            v.panels
        },
        ..v
    }
}

/// Every panel takes zoom level `z`.
pub open spec fn zoom_to(z: u16) -> spec_fn(MangaPanel) -> MangaPanel {
    |r: MangaPanel| MangaPanel { zoom_level: z, ..r }
}

/// A zoom level above zero applies to every panel; zero changes nothing.
pub open spec fn zoom_all(t: Seq<MangaPanel>, z: u16) -> Seq<MangaPanel> {
    if z > 0 {
        t.map_values(zoom_to(z))
    } else {
        t
    }
}

/// A chapter folder takes `now` as its `updated_at`.
pub open spec fn touched(now: String) -> spec_fn(MangaFolder) -> MangaFolder {
    |r: MangaFolder| MangaFolder { updated_at: now, ..r }
}

/// The chapter folders after panels under `first`'s parent were registered:
/// the folder at that parent takes `now` as its `updated_at`.
pub open spec fn touch_parent_of(t: Seq<MangaFolder>, first: Option<Seq<char>>, now: String) -> Seq<
    MangaFolder,
> {
    match first {
        Some(p) => match path_parent(p) {
            Some(pp) => update_where(t, pp, touched(now)),
            None => t,
        },
        None => t,
    }
}

/// The first path of a batch, if any.
pub open spec fn first_path<T>(items: Seq<(String, T)>) -> Option<Seq<char>> {
    if items.len() > 0 {
        Some(items[0].0@)
    } else {
        None
    }
}

/// A chapter folder takes a new `double_panels` flag.
pub open spec fn with_double_panels(flag: bool, now: String) -> spec_fn(MangaFolder) -> MangaFolder {
    |r: MangaFolder| MangaFolder { double_panels: flag, updated_at: now, ..r }
}

/// A chapter folder takes a new `is_read` flag.
pub open spec fn with_read(flag: bool, now: String) -> spec_fn(MangaFolder) -> MangaFolder {
    |r: MangaFolder| MangaFolder { is_read: flag, updated_at: now, ..r }
}

/// `a + b`, or `u32::MAX` where the sum does not fit.
pub open spec fn sat_add(a: u32, b: u32) -> u32 {
    if a + b > u32::MAX {
        u32::MAX
    } else {
        (a + b) as u32
    }
}

/// `a + b`, or `u32::MAX` where the sum does not fit.
pub fn saturating_sum(a: u32, b: u32) -> (r: u32)
    ensures
        r == sat_add(a, b),
{
    if a > u32::MAX - b {
        u32::MAX
    } else {
        a + b
    }
}

/// A chapter folder adds `secs` to its reading time.
pub open spec fn with_time_added(secs: u32, now: String) -> spec_fn(MangaFolder) -> MangaFolder {
    |r: MangaFolder|
        MangaFolder {
            time_spent_reading: sat_add(r.time_spent_reading, secs),
            updated_at: now,
            ..r
        }
}

/// The row of a table with key `k`; with unique keys there is at most one.
pub open spec fn the_row<R: Row>(t: Seq<R>, k: Seq<char>) -> R {
    choose|x: R| row_with_key(t, k, x)
}

/// The library after the chapter folder at `p` became the active one.
pub open spec fn select_manga(v: LibraryView, p: Seq<char>) -> LibraryView {
    LibraryView { active_manga: Some(the_row(v.mangas, p)), ..v }
}

/// The library after the series folder at `p` became the active one.
pub open spec fn select_parent(v: LibraryView, p: Seq<char>) -> LibraryView {
    LibraryView { active_parent: Some(the_row(v.parents, p)), ..v }
}

/// With unique keys, the row with a key is the one `the_row` names.
pub proof fn lemma_the_row<R: Row>(t: Seq<R>, k: Seq<char>, x: R)
    requires
        keys_unique(t),
        row_with_key(t, k, x),
    ensures
        the_row(t, k) == x,
{
    let y = the_row(t, k);
    let i = choose|i: int| 0 <= i < t.len() && t[i] == x && x.key() == k;
    let j = choose|j: int| 0 <= j < t.len() && t[j] == y && y.key() == k;
    if i < j {
        assert(t[i].key() != t[j].key());
    } else if j < i {
        assert(t[j].key() != t[i].key());
    }
}

/// `j` is the neighbour of entry `c` among `sib` in reading order: right
/// after it when `is_next`, right before it otherwise.
pub open spec fn is_neighbour(sib: Seq<MangaFolder>, c: int, j: int, is_next: bool) -> bool {
    if is_next {
        is_successor(title_keys(sib), c, j)
    } else {
        is_predecessor(title_keys(sib), c, j)
    }
}

/// Entry `c` of `sib` has a neighbour in the direction asked for.
pub open spec fn has_neighbour(sib: Seq<MangaFolder>, c: int, is_next: bool) -> bool {
    if is_next {
        has_successor(title_keys(sib), c)
    } else {
        has_predecessor(title_keys(sib), c)
    }
}

/// `r` is the position of the last panel of `s` marked read, or 0 when none is.
pub open spec fn is_last_read(s: Seq<MangaPanel>, r: int) -> bool {
    if exists|j: int| 0 <= j < s.len() && #[trigger] s[j].is_read {
        &&& 0 <= r < s.len()
        &&& s[r].is_read
        &&& forall|j: int| r < j < s.len() ==> !#[trigger] s[j].is_read
    } else {
        r == 0
    }
}

/// A file that reconciliation registers as a panel: its path has a file name
/// and a parent, and the file name reads as an image.
pub open spec fn is_panel_candidate(p: Seq<char>) -> bool {
    path_ok(p) && match path_file_name(p) {
        Some(n) => is_image_name_spec(n),
        None => false,
    }
}

/// Registers a panel unless its path is known already.
pub open spec fn insert_ignore(t: Seq<MangaPanel>, row: MangaPanel) -> Seq<MangaPanel> {
    if has_key(t, row.key()) {
        t
    } else {
        t.push(row)
    }
}

/// The panels after reconciling the files found on disk in order: each
/// candidate file whose path is new is registered with the row `ins` holds
/// at its position.
pub open spec fn reconcile_all(
    t: Seq<MangaPanel>,
    files: Seq<(String, Option<(usize, usize)>)>,
    ins: Seq<MangaPanel>,
) -> Seq<MangaPanel>
    decreases files.len(),
{
    if files.len() == 0 {
        t
    } else {
        let prev = reconcile_all(t, files.drop_last(), ins);
        if is_panel_candidate(files.last().0@) {
            insert_ignore(prev, ins[files.len() - 1])
        } else {
            prev
        }
    }
}

/// `ins` holds, for each candidate file, the row that registers it: unread,
/// zoom 0, with the probed size.
pub open spec fn reconcile_rows(
    files: Seq<(String, Option<(usize, usize)>)>,
    ins: Seq<MangaPanel>,
    now: String,
) -> bool {
    &&& ins.len() == files.len()
    &&& forall|i: int|
        0 <= i < files.len() && is_panel_candidate(files[i].0@) ==> new_panel_row(
            #[trigger] ins[i],
            files[i].0,
            panel_size_spec(files[i].1),
            false,
            0,
            now,
        )
}

/// The reading time of every chapter folder, summed and saturating at
/// `u32::MAX`.
pub open spec fn time_sum(t: Seq<MangaFolder>) -> u32
    decreases t.len(),
{
    if t.len() == 0 {
        0
    } else {
        sat_add(time_sum(t.drop_last()), t.last().time_spent_reading)
    }
}

/// Every chapter folder with its reading time set back to zero.
pub open spec fn reset_times(t: Seq<MangaFolder>) -> Seq<MangaFolder> {
    t.map_values(|m: MangaFolder| MangaFolder { time_spent_reading: 0, ..m })
}

/// The library-wide totals of a set of chapter folders and panels.
pub open spec fn global_stats_of(mangas: Seq<MangaFolder>, panels: Seq<MangaPanel>) -> Stats {
    Stats {
        total_manga: mangas.len() as u32,
        total_panels: panels.len() as u32,
        total_panels_read: read_panels(panels).len() as u32,
        total_panels_remaining: unread_panels(panels).len() as u32,
        total_time_spent_reading: time_sum(mangas),
    }
}

/// The stored snapshot, or all zero when none is stored.
pub open spec fn snapshot_or_zero(s: Option<Stats>) -> Stats {
    match s {
        Some(x) => x,
        None => Stats::zero_spec(),
    }
}

/// The library and the result after recomputing the totals: the files are
/// reconciled, the fresh totals take the stored lifetime reading time added
/// in, every chapter's reading time restarts from zero, and the snapshot is
/// replaced (and the fresh totals returned) only when a total changed; else
/// the stored snapshot is returned as it was.
pub open spec fn refreshed(
    v: LibraryView,
    files: Seq<(String, Option<(usize, usize)>)>,
    ins: Seq<MangaPanel>,
) -> (LibraryView, Stats) {
    let old_s = snapshot_or_zero(v.snapshot);
    let panels = reconcile_all(v.panels, files, ins);
    let g = global_stats_of(v.mangas, panels);
    let fresh = Stats {
        total_time_spent_reading: sat_add(
            g.total_time_spent_reading,
            old_s.total_time_spent_reading,
        ),
        ..g
    };
    let v2 = LibraryView { panels: panels, mangas: reset_times(v.mangas), ..v };
    if fresh != old_s {
        (LibraryView { snapshot: Some(fresh), ..v2 }, fresh)
    } else {
        (v2, old_s)
    }
}

/// A chart row adds `w` seconds (saturating at `u32::MAX`).
pub open spec fn add_watchtime(w: u32) -> spec_fn(Chart) -> Chart {
    |c: Chart| Chart { watchtime: sat_add(c.watchtime, w), ..c }
}

/// The chart after adding `w` seconds to `day`: the day's row is created
/// with 0 seconds when missing, then incremented in place.
pub open spec fn chart_add(t: Seq<Chart>, day: String, w: u32) -> Seq<Chart> {
    let t1 = if has_key(t, day@) {
        t
    } else {
        t.push(Chart { watchtime: 0, updated_at: day })
    };
    update_where(t1, day@, add_watchtime(w))
}

/// A heatmap row adds `n` panels (saturating at `u32::MAX`).
pub open spec fn add_count(n: u32) -> spec_fn(HeatmapEntry) -> HeatmapEntry {
    |h: HeatmapEntry| HeatmapEntry { count: sat_add(h.count, n), ..h }
}

/// The heatmap after adding `n` panels to `day`: the day's row is created
/// with a count of 0 when missing, then incremented in place.
pub open spec fn heatmap_add(t: Seq<HeatmapEntry>, day: String, n: u32) -> Seq<HeatmapEntry> {
    let t1 = if has_key(t, day@) {
        t
    } else {
        t.push(HeatmapEntry { date: day, count: 0 })
    };
    update_where(t1, day@, add_count(n))
}

/// The chapter folders whose path is one of `paths`, in table order.
pub open spec fn listed_folders(t: Seq<MangaFolder>, paths: Seq<String>) -> Seq<MangaFolder> {
    t.filter(|m: MangaFolder| path_views(paths).contains(m.full_path@))
}

/// The `updated_at` of each chapter folder.
pub open spec fn folder_times(t: Seq<MangaFolder>) -> Seq<Seq<char>> {
    t.map_values(|m: MangaFolder| m.updated_at@)
}

/// The `updated_at` of each panel.
pub open spec fn panel_times(t: Seq<MangaPanel>) -> Seq<Seq<char>> {
    t.map_values(|p: MangaPanel| p.updated_at@)
}

/// The creation and update times of each chapter folder.
pub open spec fn stamps(s: Seq<MangaFolder>) -> Seq<(Seq<char>, Seq<char>)> {
    s.map_values(|m: MangaFolder| (m.created_at@, m.updated_at@))
}

/// The chapter folders newest first: by `created_at`, then by
/// `updated_at`, both descending, equal ones in table order.
pub open spec fn newest_first(s: Seq<MangaFolder>) -> Seq<MangaFolder>
    decreases s.len(),
{
    if s.len() == 0 {
        s
    } else if exists|m: int| is_first_newest(stamps(s), m) {
        let m = choose|m: int| is_first_newest(stamps(s), m);
        seq![s[m]] + newest_first(s.remove(m))
    } else {
        s
    }
}

/// The chapter folders created or updated on `day`, in table order.
pub open spec fn folders_of_day(t: Seq<MangaFolder>, day: (i32, u32, u32)) -> Seq<MangaFolder> {
    t.filter(
        |m: MangaFolder|
            parsed_timestamp_date(m.updated_at@, TIMESTAMP_FORMAT@) == Some(day)
                || parsed_timestamp_date(m.created_at@, TIMESTAMP_FORMAT@) == Some(day),
    )
}

/// `today` is not a day, or some chapter folder holds a time that is not a
/// timestamp of the form `YYYY-MM-DD HH:MM:SS`.
pub open spec fn has_bad_time(today: Seq<char>, t: Seq<MangaFolder>) -> bool {
    parsed_date(today, DAY_FORMAT@) is None || exists|i: int|
        0 <= i < t.len() && (parsed_timestamp_date(#[trigger] t[i].created_at@, TIMESTAMP_FORMAT@)
            is None || parsed_timestamp_date(t[i].updated_at@, TIMESTAMP_FORMAT@) is None)
}

/// Registering a series folder keeps paths unique and leaves a row for its
/// path.
pub proof fn lemma_upsert_parent(t: Seq<ParentFolder>, row: ParentFolder)
    requires
        keys_unique(t),
    ensures
        keys_unique(upsert_parent(t, row)),
        has_key(upsert_parent(t, row), row.key()),
{
    if has_key(t, row.key()) {
        let i = choose|i: int| 0 <= i < t.len() && t[i].key() == row.key();
        lemma_update_where_at(t, row.key(), parent_refresh(row.is_expanded), i);
        lemma_update_keeps_unique(t, i, (parent_refresh(row.is_expanded))(t[i]));
        assert(upsert_parent(t, row)[i].key() == row.key());
    } else {
        lemma_push_keeps_unique(t, row);
    }
}

/// Registering a chapter folder keeps paths unique and leaves a row for its
/// path.
pub proof fn lemma_upsert_manga(t: Seq<MangaFolder>, row: MangaFolder)
    requires
        keys_unique(t),
    ensures
        keys_unique(upsert_manga(t, row)),
        has_key(upsert_manga(t, row), row.key()),
{
    if has_key(t, row.key()) {
        let i = choose|i: int| 0 <= i < t.len() && t[i].key() == row.key();
        let f = manga_refresh(row.as_child, row.is_expanded);
        lemma_update_where_at(t, row.key(), f, i);
        lemma_update_keeps_unique(t, i, f(t[i]));
        assert(upsert_manga(t, row)[i].key() == row.key());
    } else {
        lemma_push_keeps_unique(t, row);
    }
}

/// Registering a panel keeps paths unique and leaves a row for its path.
pub proof fn lemma_upsert_panel(t: Seq<MangaPanel>, row: MangaPanel)
    requires
        keys_unique(t),
    ensures
        keys_unique(upsert_panel(t, row)),
        has_key(upsert_panel(t, row), row.key()),
{
    if has_key(t, row.key()) {
        let i = choose|i: int| 0 <= i < t.len() && t[i].key() == row.key();
        let f = panel_refresh(row.is_read, row.updated_at);
        lemma_update_where_at(t, row.key(), f, i);
        lemma_update_keeps_unique(t, i, f(t[i]));
        assert(upsert_panel(t, row)[i].key() == row.key());
    } else {
        lemma_push_keeps_unique(t, row);
    }
}

/// Reconciliation reads only the rows at the positions of its files.
pub proof fn lemma_reconcile_ins_prefix(
    t: Seq<MangaPanel>,
    files: Seq<(String, Option<(usize, usize)>)>,
    a: Seq<MangaPanel>,
    b: Seq<MangaPanel>,
)
    requires
        files.len() <= b.len() <= a.len(),
        forall|k: int| 0 <= k < b.len() ==> a[k] == b[k],
    ensures
        reconcile_all(t, files, a) == reconcile_all(t, files, b),
    decreases files.len(),
{
    if files.len() > 0 {
        lemma_reconcile_ins_prefix(t, files.drop_last(), a, b);
    }
}

} // verus!
