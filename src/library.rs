//! The library store: series folders, chapter folders and panels keyed by
//! path, the active selection, the statistics snapshot and the day-keyed
//! series, with the operations that read and change them.

use vstd::prelude::*;
use crate::paths::{
    get_panel_image_dimensions, panel_size_spec, parent_of, path_file_name, path_parent,
    split_path_parts,
};
use crate::records::{
    Chart, GlobalError, HeatmapEntry, LibraryError, MangaFolder, MangaPanel, MangaStats,
    ParentFolder, Stats, duplicate_opt, Row,
};
use crate::chart::{
    DAY_FORMAT, TIMESTAMP_FORMAT, build_watchtime_series, parse_date, parse_timestamp_date,
    parsed_date, parsed_timestamp_date,
};
use crate::navigation::{adjacent_position, folder_keys};
use crate::order::{
    first_newest, is_first_newest, is_latest, latest_position, lemma_first_newest_unique,
    pair_views, views,
};
use crate::stats::{
    count_global_manga_panels, count_manga_panels, folder_counts, is_image_name, listed, path_views,
};
use crate::table::{
    copy_rows, find_row, has_key, lemma_filter_keeps_unique, lemma_push_keeps_unique,
    lemma_update_keeps_unique, lemma_update_where_absent, lemma_update_where_at, position_of,
    remove_with_prefix, row_with_key, rows_with_prefix, unique_keys, update_where, with_prefix,
};
use crate::model::{
    lemma_reconcile_ins_prefix,
    LibraryView, add_count, add_watchtime, all_paths_ok, chart_add, delete_folder_spec, first_path,
    folder_times, folders_of_day, global_stats_of, has_bad_time, has_neighbour, heatmap_add,
    is_last_read, is_neighbour, is_panel_candidate, lemma_the_row, lemma_upsert_manga,
    lemma_upsert_panel, lemma_upsert_parent, listed_folders, manga_refresh, new_manga_row,
    new_panel_row, new_parent_row, newest_first, panel_refresh, panel_times, parent_refresh,
    path_ok, reconcile_all, reconcile_rows, refreshed, reset_times, saturating_sum, select_manga,
    select_parent, stamps, time_sum, top_level_mangas, top_level_parents, touch_parent_of, touched,
    upsert_manga, upsert_mangas, upsert_panel, upsert_panels, upsert_parent, upsert_parents,
    with_double_panels, with_read, with_time_added, zoom_all, zoom_to,
};

verus! {

broadcast use vstd::seq_lib::group_seq_properties;

/// The library store.
pub struct Library {
    parent_folders: Vec<ParentFolder>,
    manga_folders: Vec<MangaFolder>,
    manga_panels: Vec<MangaPanel>,
    global_manga: Option<MangaFolder>,
    global_parent: Option<ParentFolder>,
    stats: Option<Stats>,
    chart: Vec<Chart>,
    heatmap: Vec<HeatmapEntry>,
}

impl View for Library {
    type V = LibraryView;

    closed spec fn view(&self) -> LibraryView {
        LibraryView {
            parents: self.parent_folders@,
            mangas: self.manga_folders@,
            panels: self.manga_panels@,
            active_manga: self.global_manga,
            active_parent: self.global_parent,
            snapshot: self.stats,
            chart: self.chart@,
            heatmap: self.heatmap@,
        }
    }
}

/// Relies on `uuid::Uuid::new_v4`: a fresh random identifier in text form;
/// nothing is assumed of its text.
#[verifier::external_body]
fn new_id() -> (r: String) {
    uuid::Uuid::new_v4().to_string()
}

/// Whether every path of a batch has a file name and a parent.
fn batch_paths_ok<T>(items: &Vec<(String, T)>) -> (r: bool)
    ensures
        r == all_paths_ok(items@),
{
    let mut i: usize = 0;
    while i < items.len()
        invariant
            i <= items@.len(),
            forall|j: int| 0 <= j < i ==> path_ok(#[trigger] items@[j].0@),
        decreases items.len() - i,
    {
        if split_path_parts(items[i].0.as_str()).is_none() {
            return false;
        }
        i = i + 1;
    }
    true
}

/// The file name of a path known to have one.
fn file_name_known(p: &str) -> (r: String)
    requires
        path_ok(p@),
    ensures
        Some(r@) == path_file_name(p@),
{
    match split_path_parts(p) {
        Some(parts) => parts.file_name,
        None => String::new(),
    }
}

impl Library {
    /// The invariant of the store.
    pub open spec fn wf(&self) -> bool {
        self@.well_formed()
    }

    /// An empty library.
    pub fn new() -> (r: Library)
        ensures
            r.wf(),
            r@ == (LibraryView {
                parents: Seq::empty(),
                mangas: Seq::empty(),
                panels: Seq::empty(),
                active_manga: None,
                active_parent: None,
                snapshot: None,
                chart: Seq::empty(),
                heatmap: Seq::empty(),
            }),
    {
        let r = Library {
            parent_folders: Vec::new(),
            manga_folders: Vec::new(),
            manga_panels: Vec::new(),
            global_manga: None,
            global_parent: None,
            stats: None,
            chart: Vec::new(),
            heatmap: Vec::new(),
        };
        assert(r@.parents =~= Seq::empty());
        r
    }

    fn upsert_parent_row(&mut self, row: ParentFolder)
        requires
            old(self).wf(),
        ensures
            final(self).wf(),
            final(self)@ == (LibraryView {
                parents: upsert_parent(old(self)@.parents, row),
                ..old(self)@
            }),
    {
        proof {
            lemma_upsert_parent(self@.parents, row);
        }
        match position_of(&self.parent_folders, row.full_path.as_str()) {
            Some(i) => {
                proof {
                    lemma_update_where_at(
                        self@.parents,
                        row.key(),
                        parent_refresh(row.is_expanded),
                        i as int,
                    );
                }
                let mut cur = self.parent_folders[i].duplicate();
                cur.is_expanded = row.is_expanded;
                self.parent_folders.set(i, cur);
            },
            None => {
                self.parent_folders.push(row);
            },
        }
    }

    fn upsert_manga_row(&mut self, row: MangaFolder)
        requires
            old(self).wf(),
        ensures
            final(self).wf(),
            final(self)@ == (LibraryView { mangas: upsert_manga(old(self)@.mangas, row), ..old(self)@ }),
    {
        proof {
            lemma_upsert_manga(self@.mangas, row);
        }
        match position_of(&self.manga_folders, row.full_path.as_str()) {
            Some(i) => {
                proof {
                    lemma_update_where_at(
                        self@.mangas,
                        row.key(),
                        manga_refresh(row.as_child, row.is_expanded),
                        i as int,
                    );
                }
                let mut cur = self.manga_folders[i].duplicate();
                cur.as_child = row.as_child;
                cur.is_expanded = row.is_expanded;
                self.manga_folders.set(i, cur);
            },
            None => {
                self.manga_folders.push(row);
            },
        }
    }

    fn upsert_panel_row(&mut self, row: MangaPanel)
        requires
            old(self).wf(),
        ensures
            final(self).wf(),
            final(self)@ == (LibraryView { panels: upsert_panel(old(self)@.panels, row), ..old(self)@ }),
    {
        proof {
            lemma_upsert_panel(self@.panels, row);
        }
        match position_of(&self.manga_panels, row.full_path.as_str()) {
            Some(i) => {
                proof {
                    lemma_update_where_at(
                        self@.panels,
                        row.key(),
                        panel_refresh(row.is_read, row.updated_at),
                        i as int,
                    );
                }
                let mut cur = self.manga_panels[i].duplicate();
                cur.is_read = row.is_read;
                cur.updated_at = row.updated_at;
                self.manga_panels.set(i, cur);
            },
            None => {
                self.manga_panels.push(row);
            },
        }
    }

    /// Registers series folders, each with the cover found for it: a new path
    /// gets a row with a fresh id; a known path only takes the new
    /// `is_expanded`. Fails, changing nothing, when a path has no file name or
    /// no parent. Returns the rows as they were built for registration.
    pub fn update_parent_folders(
        &mut self,
        folders: &Vec<(String, Option<String>)>,
        as_child: bool,
        is_expanded: bool,
        now: &String,
    ) -> (r: Result<Vec<ParentFolder>, LibraryError>)
        requires
            old(self).wf(),
        ensures
            final(self).wf(),
            r is Err <==> !all_paths_ok(folders@),
            r is Err ==> r == Err::<Vec<ParentFolder>, LibraryError>(LibraryError::InvalidPath)
                && final(self)@ == old(self)@,
            r matches Ok(rows) ==> {
                &&& rows@.len() == folders@.len()
                &&& forall|i: int|
                    0 <= i < rows@.len() ==> new_parent_row(
                        #[trigger] rows@[i],
                        folders@[i].0,
                        folders@[i].1,
                        as_child,
                        is_expanded,
                        *now,
                    )
                &&& final(self)@ == (LibraryView {
                    parents: upsert_parents(old(self)@.parents, rows@),
                    ..old(self)@
                })
            },
    {
        if !batch_paths_ok(folders) {
            return Err(LibraryError::InvalidPath);
        }
        let ghost start = self@;
        let mut out: Vec<ParentFolder> = Vec::new();
        let mut i: usize = 0;
        while i < folders.len()
            invariant
                self.wf(),
                all_paths_ok(folders@),
                i <= folders@.len(),
                out@.len() == i,
                forall|j: int|
                    0 <= j < i ==> new_parent_row(
                        #[trigger] out@[j],
                        folders@[j].0,
                        folders@[j].1,
                        as_child,
                        is_expanded,
                        *now,
                    ),
                self@ == (LibraryView { parents: upsert_parents(start.parents, out@), ..start }),
            decreases folders.len() - i,
        {
            let path = &folders[i].0;
            assert(path_ok(folders@[i as int].0@));
            let row = ParentFolder {
                id: new_id(),
                title: file_name_known(path.as_str()),
                full_path: path.clone(),
                as_child,
                is_expanded,
                cover_panel_path: duplicate_opt(&folders[i].1),
                created_at: now.clone(),
                updated_at: now.clone(),
            };
            let copy = row.duplicate();
            let ghost prev = out@;
            self.upsert_parent_row(row);
            out.push(copy);
            assert(out@.drop_last() =~= prev);
            assert(upsert_parents(start.parents, out@) == upsert_parent(
                upsert_parents(start.parents, prev),
                copy,
            ));
            i = i + 1;
        }
        Ok(out)
    }

    /// Registers chapter folders, each with the cover found for it: a new
    /// path gets a row with a fresh id; a known path takes the new `as_child`
    /// and `is_expanded`. Fails, changing nothing, when a path has no file
    /// name or no parent. Returns each row as stored right after its own
    /// registration.
    pub fn update_manga_folders(
        &mut self,
        folders: &Vec<(String, Option<String>)>,
        as_child: bool,
        is_expanded: bool,
        now: &String,
    ) -> (r: Result<Vec<MangaFolder>, LibraryError>)
        requires
            old(self).wf(),
        ensures
            final(self).wf(),
            r is Err <==> !all_paths_ok(folders@),
            r is Err ==> r == Err::<Vec<MangaFolder>, LibraryError>(LibraryError::InvalidPath)
                && final(self)@ == old(self)@,
            r matches Ok(rows) ==> exists|ins: Seq<MangaFolder>|
                {
                    &&& #[trigger] ins.len() == folders@.len()
                    &&& forall|i: int|
                        0 <= i < ins.len() ==> new_manga_row(
                            #[trigger] ins[i],
                            folders@[i].0,
                            folders@[i].1,
                            as_child,
                            is_expanded,
                            *now,
                        )
                    &&& final(self)@ == (LibraryView {
                        mangas: upsert_mangas(old(self)@.mangas, ins),
                        ..old(self)@
                    })
                    &&& rows@.len() == ins.len()
                    &&& forall|i: int|
                        0 <= i < rows@.len() ==> row_with_key(
                            upsert_mangas(old(self)@.mangas, ins.take(i + 1)),
                            folders@[i].0@,
                            #[trigger] rows@[i],
                        )
                },
    {
        if !batch_paths_ok(folders) {
            return Err(LibraryError::InvalidPath);
        }
        let ghost start = self@;
        let ghost mut ins: Seq<MangaFolder> = Seq::empty();
        let mut out: Vec<MangaFolder> = Vec::new();
        let mut i: usize = 0;
        while i < folders.len()
            invariant
                self.wf(),
                all_paths_ok(folders@),
                i <= folders@.len(),
                ins.len() == i,
                out@.len() == i,
                forall|j: int|
                    0 <= j < i ==> new_manga_row(
                        #[trigger] ins[j],
                        folders@[j].0,
                        folders@[j].1,
                        as_child,
                        is_expanded,
                        *now,
                    ),
                forall|j: int|
                    0 <= j < i ==> row_with_key(
                        upsert_mangas(start.mangas, ins.take(j + 1)),
                        folders@[j].0@,
                        #[trigger] out@[j],
                    ),
                self@ == (LibraryView { mangas: upsert_mangas(start.mangas, ins), ..start }),
            decreases folders.len() - i,
        {
            let path = &folders[i].0;
            assert(path_ok(folders@[i as int].0@));
            let row = MangaFolder {
                id: new_id(),
                title: file_name_known(path.as_str()),
                full_path: path.clone(),
                as_child,
                is_expanded,
                time_spent_reading: 0,
                double_panels: false,
                is_read: false,
                cover_panel_path: duplicate_opt(&folders[i].1),
                created_at: now.clone(),
                updated_at: now.clone(),
            };
            let ghost prev = ins;
            proof {
                ins = ins.push(row);
                assert(ins.drop_last() =~= prev);
                assert(ins.take(i + 1) =~= ins);
                assert forall|j: int| 0 <= j < i implies #[trigger] ins.take(j + 1) =~= prev.take(
                    j + 1,
                ) by {}
                lemma_upsert_manga(upsert_mangas(start.mangas, prev), row);
            }
            self.upsert_manga_row(row);
            let stored = find_row(&self.manga_folders, path.as_str());
            match stored {
                Some(x) => out.push(x),
                None => {
                    assert(false);
                },
            }
            i = i + 1;
        }
        Ok(out)
    }

    /// Registers panels of one chapter, each with the size that probing its
    /// image gave: a new path gets a row with a fresh id, that size and
    /// `zoom_level`; a known path takes only the new `is_read` and
    /// `updated_at`. A `zoom_level` above zero then applies to every panel,
    /// and the chapter folder at the parent of the first path takes `now` as
    /// its `updated_at`. Fails, changing nothing, when a path has no file name
    /// or no parent.
    pub fn update_manga_panel(
        &mut self,
        panels: &Vec<(String, Option<(usize, usize)>)>,
        is_read: bool,
        zoom_level: u16,
        now: &String,
    ) -> (r: Result<(), LibraryError>)
        requires
            old(self).wf(),
        ensures
            final(self).wf(),
            r is Err <==> !all_paths_ok(panels@),
            r is Err ==> r == Err::<(), LibraryError>(LibraryError::InvalidPath) && final(self)@
                == old(self)@,
            r is Ok ==> exists|ins: Seq<MangaPanel>|
                {
                    &&& #[trigger] ins.len() == panels@.len()
                    &&& forall|i: int|
                        0 <= i < ins.len() ==> new_panel_row(
                            #[trigger] ins[i],
                            panels@[i].0,
                            panel_size_spec(panels@[i].1),
                            is_read,
                            zoom_level,
                            *now,
                        )
                    &&& final(self)@ == (LibraryView {
                        panels: zoom_all(upsert_panels(old(self)@.panels, ins), zoom_level),
                        mangas: touch_parent_of(old(self)@.mangas, first_path(panels@), *now),
                        ..old(self)@
                    })
                },
    {
        if !batch_paths_ok(panels) {
            return Err(LibraryError::InvalidPath);
        }
        let ghost start = self@;
        let ghost mut ins: Seq<MangaPanel> = Seq::empty();
        let mut i: usize = 0;
        while i < panels.len()
            invariant
                self.wf(),
                all_paths_ok(panels@),
                i <= panels@.len(),
                ins.len() == i,
                forall|j: int|
                    0 <= j < i ==> new_panel_row(
                        #[trigger] ins[j],
                        panels@[j].0,
                        panel_size_spec(panels@[j].1),
                        is_read,
                        zoom_level,
                        *now,
                    ),
                self@ == (LibraryView { panels: upsert_panels(start.panels, ins), ..start }),
            decreases panels.len() - i,
        {
            let path = &panels[i].0;
            assert(path_ok(panels@[i as int].0@));
            let size = get_panel_image_dimensions(panels[i].1);
            let row = MangaPanel {
                id: new_id(),
                title: file_name_known(path.as_str()),
                full_path: path.clone(),
                is_read,
                width: size.0,
                height: size.1,
                zoom_level,
                created_at: now.clone(),
                updated_at: now.clone(),
            };
            let ghost prev = ins;
            proof {
                ins = ins.push(row);
                assert(ins.drop_last() =~= prev);
            }
            self.upsert_panel_row(row);
            i = i + 1;
        }
        if zoom_level > 0 {
            self.set_zoom_everywhere(zoom_level);
        }
        if panels.len() > 0 {
            match parent_of(panels[0].0.as_str()) {
                Some(pp) => self.touch_manga(pp.as_str(), now),
                None => {},
            }
        }
        Ok(())
    }

    fn set_zoom_everywhere(&mut self, z: u16)
        requires
            old(self).wf(),
        ensures
            final(self).wf(),
            final(self)@ == (LibraryView {
                panels: old(self)@.panels.map_values(zoom_to(z)),
                ..old(self)@
            }),
    {
        let ghost src = self@.panels;
        let mut out: Vec<MangaPanel> = Vec::new();
        let mut i: usize = 0;
        while i < self.manga_panels.len()
            invariant
                self@.panels == src,
                i <= src.len(),
                out@ == src.take(i as int).map_values(zoom_to(z)),
            decreases self.manga_panels.len() - i,
        {
            let mut p = self.manga_panels[i].duplicate();
            p.zoom_level = z;
            out.push(p);
            assert(out@ =~= src.take(i + 1).map_values(zoom_to(z)));
            i = i + 1;
        }
        assert(src.take(src.len() as int) =~= src);
        proof {
            let m = src.map_values(zoom_to(z));
            assert forall|a: int, b: int| 0 <= a < b < m.len() implies m[a].key() != m[b].key() by {
                assert(src[a].key() != src[b].key());
            }
        }
        self.manga_panels = out;
    }

    fn touch_manga(&mut self, p: &str, now: &String)
        requires
            old(self).wf(),
        ensures
            final(self).wf(),
            final(self)@ == (LibraryView {
                mangas: update_where(old(self)@.mangas, p@, touched(*now)),
                ..old(self)@
            }),
    {
        match position_of(&self.manga_folders, p) {
            Some(i) => {
                proof {
                    lemma_update_where_at(self@.mangas, p@, touched(*now), i as int);
                }
                let mut cur = self.manga_folders[i].duplicate();
                cur.updated_at = now.clone();
                self.manga_folders.set(i, cur);
            },
            None => {
                proof {
                    lemma_update_where_absent(self@.mangas, p@, touched(*now));
                }
            },
        }
    }

    /// The series folders that are not registered as chapters, in table order.
    pub fn get_parent_folders(&self) -> (r: Vec<ParentFolder>)
        ensures
            r@ == top_level_parents(self@.parents),
    {
        let ghost f = |x: ParentFolder| !x.as_child;
        let mut r: Vec<ParentFolder> = Vec::new();
        let mut i: usize = 0;
        while i < self.parent_folders.len()
            invariant
                i <= self@.parents.len(),
                f == (|x: ParentFolder| !x.as_child),
                r@ == self@.parents.take(i as int).filter(f),
            decreases self.parent_folders.len() - i,
        {
            proof {
                let t = self@.parents;
                assert(t.take(i + 1) =~= t.take(i as int).push(t[i as int]));
                t.take(i as int).lemma_filter_push(t[i as int], f);
            }
            if !self.parent_folders[i].as_child {
                r.push(self.parent_folders[i].duplicate());
            }
            i = i + 1;
        }
        assert(self@.parents.take(self@.parents.len() as int) =~= self@.parents);
        r
    }

    /// The chapter folders that are not registered as chapters of a series,
    /// in table order.
    pub fn get_manga_folders(&self) -> (r: Vec<MangaFolder>)
        ensures
            r@ == top_level_mangas(self@.mangas),
    {
        let ghost f = |x: MangaFolder| !x.as_child;
        let mut r: Vec<MangaFolder> = Vec::new();
        let mut i: usize = 0;
        while i < self.manga_folders.len()
            invariant
                i <= self@.mangas.len(),
                f == (|x: MangaFolder| !x.as_child),
                r@ == self@.mangas.take(i as int).filter(f),
            decreases self.manga_folders.len() - i,
        {
            proof {
                let t = self@.mangas;
                assert(t.take(i + 1) =~= t.take(i as int).push(t[i as int]));
                t.take(i as int).lemma_filter_push(t[i as int], f);
            }
            if !self.manga_folders[i].as_child {
                r.push(self.manga_folders[i].duplicate());
            }
            i = i + 1;
        }
        assert(self@.mangas.take(self@.mangas.len() as int) =~= self@.mangas);
        r
    }

    /// The panel at `path`: an empty path is an invalid argument, and a path
    /// with no panel is not found.
    pub fn get_manga_panel(&self, path: &str) -> (r: Result<MangaPanel, LibraryError>)
        ensures
            path@.len() == 0 <==> r == Err::<MangaPanel, LibraryError>(
                LibraryError::InvalidArgument,
            ),
            (path@.len() > 0 && !has_key(self@.panels, path@)) <==> r == Err::<
                MangaPanel,
                LibraryError,
            >(LibraryError::NotFound),
            path@.len() > 0 && has_key(self@.panels, path@) ==> r is Ok,
            r matches Ok(p) ==> row_with_key(self@.panels, path@, p),
    {
        if path.is_empty() {
            return Err(LibraryError::InvalidArgument);
        }
        match find_row(&self.manga_panels, path) {
            Some(p) => Ok(p),
            None => Err(LibraryError::NotFound),
        }
    }

    /// The chapter folder at `full_path`, if there is one.
    pub fn get_manga_folder_by_path(&self, full_path: &str) -> (r: Option<MangaFolder>)
        ensures
            r is None <==> !has_key(self@.mangas, full_path@),
            r matches Some(x) ==> row_with_key(self@.mangas, full_path@, x),
    {
        find_row(&self.manga_folders, full_path)
    }

    /// The series folder at `full_path`, if there is one.
    pub fn get_parent_folder_by_path(&self, full_path: &str) -> (r: Option<ParentFolder>)
        ensures
            r is None <==> !has_key(self@.parents, full_path@),
            r matches Some(x) ==> row_with_key(self@.parents, full_path@, x),
    {
        find_row(&self.parent_folders, full_path)
    }

    /// Deletes every chapter folder and then every series folder whose path
    /// starts with `path`; with `all_data`, every such panel too.
    pub fn delete_folder(&mut self, _id: &str, path: &str, all_data: bool)
        requires
            old(self).wf(),
        ensures
            final(self).wf(),
            final(self)@ == delete_folder_spec(old(self)@, path@, all_data),
    {
        proof {
            lemma_filter_keeps_unique(
                self@.mangas,
                |r: MangaFolder| !crate::text::has_prefix(r.key(), path@),
            );
            lemma_filter_keeps_unique(
                self@.parents,
                |r: ParentFolder| !crate::text::has_prefix(r.key(), path@),
            );
            lemma_filter_keeps_unique(
                self@.panels,
                |r: MangaPanel| !crate::text::has_prefix(r.key(), path@),
            );
        }
        remove_with_prefix(&mut self.manga_folders, path);
        remove_with_prefix(&mut self.parent_folders, path);
        if all_data {
            remove_with_prefix(&mut self.manga_panels, path);
        }
    }

    fn edit_manga(&mut self, p: &str, f: Ghost<spec_fn(MangaFolder) -> MangaFolder>, row: Option<MangaFolder>)
        requires
            old(self).wf(),
            row is None <==> !has_key(old(self)@.mangas, p@),
            forall|r: MangaFolder| #[trigger] (f@)(r).key() == r.key(),
            row matches Some(x) ==> exists|i: int|
                0 <= i < old(self)@.mangas.len() && old(self)@.mangas[i].key() == p@ && x
                    == (f@)(old(self)@.mangas[i]),
        ensures
            final(self).wf(),
            final(self)@ == (LibraryView {
                mangas: update_where(old(self)@.mangas, p@, f@),
                ..old(self)@
            }),
    {
        match position_of(&self.manga_folders, p) {
            Some(i) => {
                match row {
                    Some(x) => {
                        proof {
                            let j = choose|j: int|
                                0 <= j < self@.mangas.len() && self@.mangas[j].key() == p@ && x
                                    == (f@)(self@.mangas[j]);
                            if j < i {
                                assert(self@.mangas[j].key() != self@.mangas[i as int].key());
                            } else if i < j {
                                assert(self@.mangas[i as int].key() != self@.mangas[j].key());
                            }
                            lemma_update_where_at(self@.mangas, p@, f@, i as int);
                            lemma_update_keeps_unique(self@.mangas, i as int, x);
                        }
                        self.manga_folders.set(i, x);
                    },
                    None => {},
                }
            },
            None => {
                proof {
                    lemma_update_where_absent(self@.mangas, p@, f@);
                }
            },
        }
    }

    /// Sets the `double_panels` flag of the chapter folder at `folder_path`,
    /// which takes `now` as its `updated_at`; no other row changes.
    pub fn update_folder_double_panels(&mut self, folder_path: &str, double_panels: bool, now: &String)
        requires
            old(self).wf(),
        ensures
            final(self).wf(),
            final(self)@ == (LibraryView {
                mangas: update_where(old(self)@.mangas, folder_path@, with_double_panels(double_panels, *now)),
                ..old(self)@
            }),
    {
        let ghost f = with_double_panels(double_panels, *now);
        let row = match find_row(&self.manga_folders, folder_path) {
            Some(mut x) => {
                x.double_panels = double_panels;
                x.updated_at = now.clone();
                Some(x)
            },
            None => None,
        };
        self.edit_manga(folder_path, Ghost(f), row);
    }

    /// Marks the chapter folder at `path` as read; it takes `now` as its
    /// `updated_at`.
    pub fn set_folder_read(&mut self, path: &str, now: &String)
        requires
            old(self).wf(),
        ensures
            final(self).wf(),
            final(self)@ == (LibraryView {
                mangas: update_where(old(self)@.mangas, path@, with_read(true, *now)),
                ..old(self)@
            }),
    {
        self.set_folder_read_state(path, true, now);
    }

    /// Marks the chapter folder at `path` as unread; it takes `now` as its
    /// `updated_at`.
    pub fn set_folder_unread(&mut self, path: &str, now: &String)
        requires
            old(self).wf(),
        ensures
            final(self).wf(),
            final(self)@ == (LibraryView {
                mangas: update_where(old(self)@.mangas, path@, with_read(false, *now)),
                ..old(self)@
            }),
    {
        self.set_folder_read_state(path, false, now);
    }

    fn set_folder_read_state(&mut self, path: &str, is_read: bool, now: &String)
        requires
            old(self).wf(),
        ensures
            final(self).wf(),
            final(self)@ == (LibraryView {
                mangas: update_where(old(self)@.mangas, path@, with_read(is_read, *now)),
                ..old(self)@
            }),
    {
        let ghost f = with_read(is_read, *now);
        let row = match find_row(&self.manga_folders, path) {
            Some(mut x) => {
                x.is_read = is_read;
                x.updated_at = now.clone();
                Some(x)
            },
            None => None,
        };
        self.edit_manga(path, Ghost(f), row);
    }

    /// Adds `time_spent_reading` seconds to the reading time of the chapter
    /// folder at `folder_path` (saturating at `u32::MAX`); it takes `now` as
    /// its `updated_at`.
    pub fn update_folder_time_spent_reading(
        &mut self,
        folder_path: &str,
        time_spent_reading: u32,
        now: &String,
    )
        requires
            old(self).wf(),
        ensures
            final(self).wf(),
            final(self)@ == (LibraryView {
                mangas: update_where(old(self)@.mangas, folder_path@, with_time_added(time_spent_reading, *now)),
                ..old(self)@
            }),
    {
        let ghost f = with_time_added(time_spent_reading, *now);
        let row = match find_row(&self.manga_folders, folder_path) {
            Some(mut x) => {
                x.time_spent_reading = saturating_sum(x.time_spent_reading, time_spent_reading);
                x.updated_at = now.clone();
                Some(x)
            },
            None => None,
        };
        self.edit_manga(folder_path, Ghost(f), row);
    }

    /// Makes the chapter folder at `full_path` the active one, replacing any
    /// earlier choice; fails, changing nothing, when no such folder exists.
    pub fn set_global_manga_folder(&mut self, full_path: &str) -> (r: Result<(), GlobalError>)
        requires
            old(self).wf(),
        ensures
            final(self).wf(),
            r is Err <==> !has_key(old(self)@.mangas, full_path@),
            r is Err ==> final(self)@ == old(self)@,
            r is Ok ==> final(self)@ == select_manga(old(self)@, full_path@),
    {
        match find_row(&self.manga_folders, full_path) {
            Some(x) => {
                proof {
                    lemma_the_row(self@.mangas, full_path@, x);
                }
                self.global_manga = Some(x);
                Ok(())
            },
            None => Err(GlobalError { message: "no chapter folder is registered at this path".to_owned() }),
        }
    }

    /// Makes the series folder at `full_path` the active one, replacing any
    /// earlier choice; fails, changing nothing, when no such folder exists.
    pub fn set_global_parent_folder(&mut self, full_path: &str) -> (r: Result<(), GlobalError>)
        requires
            old(self).wf(),
        ensures
            final(self).wf(),
            r is Err <==> !has_key(old(self)@.parents, full_path@),
            r is Err ==> final(self)@ == old(self)@,
            r is Ok ==> final(self)@ == select_parent(old(self)@, full_path@),
    {
        match find_row(&self.parent_folders, full_path) {
            Some(x) => {
                proof {
                    lemma_the_row(self@.parents, full_path@, x);
                }
                self.global_parent = Some(x);
                Ok(())
            },
            None => Err(GlobalError { message: "no series folder is registered at this path".to_owned() }),
        }
    }

    /// The active chapter folder, if one was chosen.
    pub fn get_global_manga(&self) -> (r: Option<MangaFolder>)
        ensures
            r == self@.active_manga,
    {
        match &self.global_manga {
            Some(x) => Some(x.duplicate()),
            None => None,
        }
    }

    /// The active series folder, if one was chosen.
    pub fn get_global_parent(&self) -> (r: Option<ParentFolder>)
        ensures
            r == self@.active_parent,
    {
        match &self.global_parent {
            Some(x) => Some(x.duplicate()),
            None => None,
        }
    }

    /// The chapter folder read right after (`is_next`) or right before the
    /// one at `current_folder_path`, among the chapter folders whose path
    /// starts with its parent's path, ordered by the trailing number of each
    /// title (none counts as 0) with ties in table order. None at either end. Fails
    /// when the path has no parent, and when no chapter folder is registered
    /// at it.
    pub fn get_next_or_previous_manga_folder(&self, current_folder_path: &str, is_next: bool) -> (r:
        Result<Option<MangaFolder>, LibraryError>)
        requires
            self.wf(),
        ensures
            path_parent(current_folder_path@) is None <==> r == Err::<
                Option<MangaFolder>,
                LibraryError,
            >(LibraryError::InvalidPath),
            path_parent(current_folder_path@) matches Some(pp) ==> {
                let sib = with_prefix(self@.mangas, pp);
                &&& has_key(sib, current_folder_path@) ==> r is Ok
                &&& !has_key(sib, current_folder_path@) <==> r == Err::<
                    Option<MangaFolder>,
                    LibraryError,
                >(LibraryError::NotFound)
                &&& forall|c: int|
                    0 <= c < sib.len() && #[trigger] sib[c].key() == current_folder_path@ ==> {
                        &&& r == Ok::<Option<MangaFolder>, LibraryError>(None) <==> !has_neighbour(
                            sib,
                            c,
                            is_next,
                        )
                        &&& r matches Ok(Some(x)) ==> exists|j: int|
                            is_neighbour(sib, c, j, is_next) && #[trigger] sib[j] == x
                    }
            },
    {
        let parent = match parent_of(current_folder_path) {
            Some(p) => p,
            None => return Err(LibraryError::InvalidPath),
        };
        let siblings = rows_with_prefix(&self.manga_folders, parent.as_str());
        proof {
            lemma_filter_keeps_unique(
                self@.mangas,
                |r: MangaFolder| crate::text::has_prefix(r.key(), parent@),
            );
        }
        let c = match position_of(&siblings, current_folder_path) {
            Some(c) => c,
            None => return Err(LibraryError::NotFound),
        };
        let keys = folder_keys(&siblings);
        let ghost sib = siblings@;
        assert forall|c2: int|
            0 <= c2 < sib.len() && #[trigger] sib[c2].key() == current_folder_path@ implies c2
            == c by {
            if c2 < c {
                assert(sib[c2].key() != sib[c as int].key());
            } else if c < c2 {
                assert(sib[c as int].key() != sib[c2].key());
            }
        }
        match adjacent_position(&keys, c, is_next) {
            Some(j) => {
                let x = siblings[j].duplicate();
                assert(sib[j as int] == x);
                Ok(Some(x))
            },
            None => Ok(None),
        }
    }

    /// The position, among the panels whose path starts with
    /// `chapter_path` in table order, of the last one marked read; 0 when
    /// none is.
    pub fn find_last_read_panel(&self, chapter_path: &str) -> (r: usize)
        ensures
            is_last_read(with_prefix(self@.panels, chapter_path@), r as int),
    {
        let panels = rows_with_prefix(&self.manga_panels, chapter_path);
        let mut i: usize = panels.len();
        while i > 0
            invariant
                i <= panels@.len(),
                panels@ == with_prefix(self@.panels, chapter_path@),
                forall|j: int| i <= j < panels@.len() ==> !#[trigger] panels@[j].is_read,
            decreases i,
        {
            if panels[i - 1].is_read {
                assert(panels@[i - 1].is_read);
                assert(is_last_read(panels@, i - 1));
                return i - 1;
            }
            i = i - 1;
        }
        assert(is_last_read(panels@, 0));
        0
    }

    /// The panel counts of the chapter folder at `folder_path`, from the
    /// paths listed directly in it and the panels whose path starts with it.
    pub fn create_manga_stats(&self, folder_path: &str, dir_entries: &Vec<String>) -> (r: MangaStats)
        requires
            self.wf(),
        ensures
            crate::stats::image_files(dir_entries@).len() <= u32::MAX ==> {
                &&& r.total_panels_read <= r.total_panels
                &&& r.total_panels_remaining == r.total_panels - r.total_panels_read
            },
            (r.total_panels, r.total_panels_read, r.total_panels_remaining) == folder_counts(
                dir_entries@,
                with_prefix(self@.panels, folder_path@),
            ),
    {
        let panels = rows_with_prefix(&self.manga_panels, folder_path);
        proof {
            lemma_filter_keeps_unique(
                self@.panels,
                |r: MangaPanel| crate::text::has_prefix(r.key(), folder_path@),
            );
            crate::laws::read_never_exceeds_images(panels@, dir_entries@);
        }
        let (total, read, remaining) = count_manga_panels(dir_entries, &panels);
        MangaStats { total_panels: total, total_panels_read: read, total_panels_remaining: remaining }
    }

    /// Registers, with a fresh id, every file found on disk whose name reads
    /// as an image and whose path is not known yet; known paths are left as
    /// they are.
    fn reconcile_panels(&mut self, files: &Vec<(String, Option<(usize, usize)>)>, now: &String)
        requires
            old(self).wf(),
        ensures
            final(self).wf(),
            exists|ins: Seq<MangaPanel>|
                reconcile_rows(files@, ins, *now) && final(self)@ == (LibraryView {
                    panels: reconcile_all(old(self)@.panels, files@, ins),
                    ..old(self)@
                }),
    {
        let ghost start = self@;
        let ghost mut ins: Seq<MangaPanel> = Seq::empty();
        let mut i: usize = 0;
        while i < files.len()
            invariant
                self.wf(),
                i <= files@.len(),
                ins.len() == i,
                forall|j: int|
                    0 <= j < i && is_panel_candidate(files@[j].0@) ==> new_panel_row(
                        #[trigger] ins[j],
                        files@[j].0,
                        panel_size_spec(files@[j].1),
                        false,
                        0,
                        *now,
                    ),
                self@ == (LibraryView {
                    panels: reconcile_all(start.panels, files@.take(i as int), ins),
                    ..start
                }),
            decreases files.len() - i,
        {
            let path = &files[i].0;
            let ghost prev_ins = ins;
            assert(files@.take(i + 1).drop_last() =~= files@.take(i as int));
            let row_opt: Option<MangaPanel> = match split_path_parts(path.as_str()) {
                Some(parts) => if is_image_name(parts.file_name.as_str()) {
                    let size = get_panel_image_dimensions(files[i].1);
                    Some(
                        MangaPanel {
                            id: new_id(),
                            title: parts.file_name,
                            full_path: path.clone(),
                            is_read: false,
                            width: size.0,
                            height: size.1,
                            zoom_level: 0,
                            created_at: now.clone(),
                            updated_at: now.clone(),
                        },
                    )
                } else {
                    None
                },
                None => None,
            };
            match row_opt {
                Some(row) => {
                    proof {
                        ins = ins.push(row);
                        assert forall|j: int| 0 <= j < i implies reconcile_all(
                            start.panels,
                            files@.take(j),
                            ins,
                        ) == reconcile_all(start.panels, files@.take(j), prev_ins) by {
                            lemma_reconcile_ins_prefix(start.panels, files@.take(j), ins, prev_ins);
                        }
                        lemma_reconcile_ins_prefix(start.panels, files@.take(i as int), ins, prev_ins);
                    }
                    match position_of(&self.manga_panels, path.as_str()) {
                        Some(_) => {},
                        None => {
                            proof {
                                lemma_push_keeps_unique(self@.panels, row);
                            }
                            self.manga_panels.push(row);
                        },
                    }
                },
                None => {
                    proof {
                        ins = ins.push(vstd::pervasive::arbitrary());
                        lemma_reconcile_ins_prefix(start.panels, files@.take(i as int), ins, prev_ins);
                    }
                },
            }
            i = i + 1;
        }
        assert(files@.take(files@.len() as int) =~= files@);
        assert(reconcile_rows(files@, ins, *now));
        assert(self@ == (LibraryView { panels: reconcile_all(start.panels, files@, ins), ..start }));
    }

    /// Reconciles the files found on disk under the chapter folders into the
    /// panels, then returns the library-wide totals (the reading time summed
    /// over the chapter folders) and sets every chapter's reading time back
    /// to zero.
    pub fn create_global_stats(&mut self, files: &Vec<(String, Option<(usize, usize)>)>, now: &String) -> (r: Stats)
        requires
            old(self).wf(),
        ensures
            final(self).wf(),
            exists|ins: Seq<MangaPanel>|
                {
                    &&& reconcile_rows(files@, ins, *now)
                    &&& final(self)@ == (LibraryView {
                        panels: reconcile_all(old(self)@.panels, files@, ins),
                        mangas: reset_times(old(self)@.mangas),
                        ..old(self)@
                    })
                    &&& r == global_stats_of(
                        old(self)@.mangas,
                        reconcile_all(old(self)@.panels, files@, ins),
                    )
                },
    {
        self.reconcile_panels(files, now);
        let ghost mangas = self@.mangas;
        let mut time: u32 = 0;
        let mut i: usize = 0;
        while i < self.manga_folders.len()
            invariant
                mangas == self@.mangas,
                i <= mangas.len(),
                time == time_sum(mangas.take(i as int)),
            decreases self.manga_folders.len() - i,
        {
            assert(mangas.take(i + 1).drop_last() =~= mangas.take(i as int));
            time = saturating_sum(time, self.manga_folders[i].time_spent_reading);
            i = i + 1;
        }
        assert(mangas.take(mangas.len() as int) =~= mangas);
        let (total_panels, total_read, total_remaining) = count_global_manga_panels(&self.manga_panels);
        let stats = Stats {
            total_manga: self.manga_folders.len() as u32,
            total_panels,
            total_panels_read: total_read,
            total_panels_remaining: total_remaining,
            total_time_spent_reading: time,
        };
        self.reset_reading_times();
        stats
    }

    fn reset_reading_times(&mut self)
        requires
            old(self).wf(),
        ensures
            final(self).wf(),
            final(self)@ == (LibraryView { mangas: reset_times(old(self)@.mangas), ..old(self)@ }),
    {
        let ghost src = self@.mangas;
        let mut out: Vec<MangaFolder> = Vec::new();
        let mut i: usize = 0;
        while i < self.manga_folders.len()
            invariant
                self@.mangas == src,
                i <= src.len(),
                out@ == reset_times(src.take(i as int)),
            decreases self.manga_folders.len() - i,
        {
            let mut m = self.manga_folders[i].duplicate();
            m.time_spent_reading = 0;
            out.push(m);
            assert(out@ =~= reset_times(src.take(i + 1)));
            i = i + 1;
        }
        assert(src.take(src.len() as int) =~= src);
        proof {
            let m = reset_times(src);
            assert forall|a: int, b: int| 0 <= a < b < m.len() implies m[a].key() != m[b].key() by {
                assert(src[a].key() != src[b].key());
            }
        }
        self.manga_folders = out;
    }

    /// Recomputes the library-wide totals (see `create_global_stats`), adds
    /// the stored lifetime reading time to the fresh one, and replaces the
    /// stored snapshot only when one of the five totals changed, returning
    /// the fresh totals; otherwise returns the stored snapshot (all zero when
    /// none is stored) and writes nothing.
    pub fn update_global_stats(&mut self, files: &Vec<(String, Option<(usize, usize)>)>, now: &String) -> (r: Stats)
        requires
            old(self).wf(),
        ensures
            final(self).wf(),
            exists|ins: Seq<MangaPanel>|
                reconcile_rows(files@, ins, *now) && (final(self)@, r) == refreshed(
                    old(self)@,
                    files@,
                    ins,
                ),
    {
        let old_stats = match self.stats {
            Some(s) => s,
            None => Stats::zero(),
        };
        let fresh = self.create_global_stats(files, now);
        let total_time = saturating_sum(fresh.total_time_spent_reading, old_stats.total_time_spent_reading);
        let new_stats = Stats { total_time_spent_reading: total_time, ..fresh };
        let is_stale = new_stats.total_manga != old_stats.total_manga
            || new_stats.total_panels != old_stats.total_panels
            || new_stats.total_panels_read != old_stats.total_panels_read
            || new_stats.total_panels_remaining != old_stats.total_panels_remaining
            || new_stats.total_time_spent_reading != old_stats.total_time_spent_reading;
        if is_stale {
            self.stats = Some(new_stats);
            new_stats
        } else {
            old_stats
        }
    }
}


impl Library {
    /// Adds `watch_time` seconds to the chart row of `today`, creating it
    /// with 0 seconds first when it is missing.
    pub fn update_chart_watchtime(&mut self, watch_time: u32, today: &String)
        requires
            old(self).wf(),
        ensures
            final(self).wf(),
            final(self)@ == (LibraryView {
                chart: chart_add(old(self)@.chart, *today, watch_time),
                ..old(self)@
            }),
    {
        if position_of(&self.chart, today.as_str()).is_none() {
            let row = Chart { watchtime: 0, updated_at: today.clone() };
            proof {
                lemma_push_keeps_unique(self@.chart, row);
            }
            self.chart.push(row);
        }
        let ghost t1 = self@.chart;
        match position_of(&self.chart, today.as_str()) {
            Some(i) => {
                proof {
                    lemma_update_where_at(t1, today@, add_watchtime(watch_time), i as int);
                    lemma_update_keeps_unique(t1, i as int, (add_watchtime(watch_time))(t1[i as int]));
                }
                let cur = self.chart[i].watchtime;
                let row = Chart { watchtime: saturating_sum(cur, watch_time), updated_at: self.chart[i].updated_at.clone() };
                self.chart.set(i, row);
            },
            None => {},
        }
    }

    /// Adds `count` panels to the heatmap row of `today`, creating it with a
    /// count of 0 first when it is missing.
    pub fn update_heatmap_count(&mut self, count: u32, today: &String)
        requires
            old(self).wf(),
        ensures
            final(self).wf(),
            final(self)@ == (LibraryView {
                heatmap: heatmap_add(old(self)@.heatmap, *today, count),
                ..old(self)@
            }),
    {
        if position_of(&self.heatmap, today.as_str()).is_none() {
            let row = HeatmapEntry { date: today.clone(), count: 0 };
            proof {
                lemma_push_keeps_unique(self@.heatmap, row);
            }
            self.heatmap.push(row);
        }
        let ghost t1 = self@.heatmap;
        match position_of(&self.heatmap, today.as_str()) {
            Some(i) => {
                proof {
                    lemma_update_where_at(t1, today@, add_count(count), i as int);
                    lemma_update_keeps_unique(t1, i as int, (add_count(count))(t1[i as int]));
                }
                let cur = self.heatmap[i].count;
                let row = HeatmapEntry { date: self.heatmap[i].date.clone(), count: saturating_sum(cur, count) };
                self.heatmap.set(i, row);
            },
            None => {},
        }
    }

    /// The heatmap rows, one per day, in table order.
    pub fn fetch_heatmap(&self) -> (r: Vec<HeatmapEntry>)
        ensures
            r@ == self@.heatmap,
    {
        copy_rows(&self.heatmap)
    }

    /// The watch-time series of `range` over the chart rows, in hundredths
    /// of an hour (see `build_watchtime_series`).
    pub fn create_chart_stats(&self, range: &str, days_in_month: Option<u8>, today: &str) -> (r: Result<Vec<u64>, LibraryError>)
        ensures
            r == Err::<Vec<u64>, LibraryError>(LibraryError::MissingDaysInMonth) <==> crate::chart::lacks_month_length(
                crate::chart::range_of(range@),
                days_in_month,
            ),
            r == Err::<Vec<u64>, LibraryError>(LibraryError::InvalidDate) <==> !crate::chart::lacks_month_length(
                crate::chart::range_of(range@),
                days_in_month,
            ) && crate::chart::has_bad_day(today@, self@.chart),
            !crate::chart::lacks_month_length(crate::chart::range_of(range@), days_in_month)
                && !crate::chart::has_bad_day(today@, self@.chart) ==> r is Ok,
            r matches Ok(v) ==> crate::chart::parsed_date(today@, crate::chart::DAY_FORMAT@) matches Some(t) && v@ == crate::chart::series_of(
                crate::chart::range_of(range@),
                crate::chart::series_len(crate::chart::range_of(range@), days_in_month),
                t,
                self@.chart,
            ),
    {
        build_watchtime_series(range, days_in_month, today, &self.chart)
    }

    /// A library holding the given rows; fails with an invalid argument,
    /// building nothing, when a folder or panel table holds a path twice or a
    /// series holds a day twice.
    pub fn from_tables(
        parent_folders: Vec<ParentFolder>,
        manga_folders: Vec<MangaFolder>,
        manga_panels: Vec<MangaPanel>,
        global_manga: Option<MangaFolder>,
        global_parent: Option<ParentFolder>,
        stats: Option<Stats>,
        chart: Vec<Chart>,
        heatmap: Vec<HeatmapEntry>,
    ) -> (r: Result<Library, LibraryError>)
        ensures
            r is Err <==> !(LibraryView {
                parents: parent_folders@,
                mangas: manga_folders@,
                panels: manga_panels@,
                active_manga: global_manga,
                active_parent: global_parent,
                snapshot: stats,
                chart: chart@,
                heatmap: heatmap@,
            }).well_formed(),
            r is Err ==> r == Err::<Library, LibraryError>(LibraryError::InvalidArgument),
            r matches Ok(lib) ==> lib.wf() && lib@ == (LibraryView {
                parents: parent_folders@,
                mangas: manga_folders@,
                panels: manga_panels@,
                active_manga: global_manga,
                active_parent: global_parent,
                snapshot: stats,
                chart: chart@,
                heatmap: heatmap@,
            }),
    {
        if !(unique_keys(&parent_folders) && unique_keys(&manga_folders) && unique_keys(&manga_panels)
            && unique_keys(&chart) && unique_keys(&heatmap)) {
            return Err(LibraryError::InvalidArgument);
        }
        Ok(
            Library {
                parent_folders,
                manga_folders,
                manga_panels,
                global_manga,
                global_parent,
                stats,
                chart,
                heatmap,
            },
        )
    }

    /// Every series folder, in table order.
    pub fn parent_folders(&self) -> (r: &Vec<ParentFolder>)
        ensures
            r@ == self@.parents,
    {
        &self.parent_folders
    }

    /// Every chapter folder, in table order.
    pub fn manga_folders(&self) -> (r: &Vec<MangaFolder>)
        ensures
            r@ == self@.mangas,
    {
        &self.manga_folders
    }

    /// Every panel, in table order.
    pub fn manga_panels(&self) -> (r: &Vec<MangaPanel>)
        ensures
            r@ == self@.panels,
    {
        &self.manga_panels
    }

    /// The stored statistics snapshot, if one was written.
    pub fn stats_snapshot(&self) -> (r: Option<Stats>)
        ensures
            r == self@.snapshot,
    {
        self.stats
    }

    /// Every chart row, one per day, in table order.
    pub fn chart_rows(&self) -> (r: &Vec<Chart>)
        ensures
            r@ == self@.chart,
    {
        &self.chart
    }

    /// Of the chapter folders whose path is one of `paths`, the one updated
    /// last (the first in table order among equal times), with its panel
    /// updated last; none when no such folder exists or it has no panel.
    pub fn find_last_read_manga_folder(&self, paths: &Vec<String>) -> (r: Option<(MangaFolder, MangaPanel)>)
        ensures
            ({
                let c = listed_folders(self@.mangas, paths@);
                &&& r is None <==> (c.len() == 0 || exists|b: int|
                    #[trigger] is_latest(folder_times(c), b) && with_prefix(self@.panels, c[b].key()).len() == 0)
                &&& r matches Some(found) ==> exists|b: int, q: int|
                    #[trigger] is_latest(folder_times(c), b) && found.0 == c[b] && #[trigger] is_latest(
                        panel_times(with_prefix(self@.panels, c[b].key())),
                        q,
                    ) && found.1 == with_prefix(self@.panels, c[b].key())[q]
            }),
    {
        let ghost f = |m: MangaFolder| path_views(paths@).contains(m.full_path@);
        let mut cands: Vec<MangaFolder> = Vec::new();
        let mut times: Vec<String> = Vec::new();
        let mut i: usize = 0;
        while i < self.manga_folders.len()
            invariant
                i <= self@.mangas.len(),
                f == (|m: MangaFolder| path_views(paths@).contains(m.full_path@)),
                cands@ == self@.mangas.take(i as int).filter(f),
                times@.len() == cands@.len(),
                forall|j: int| 0 <= j < times@.len() ==> #[trigger] times@[j]@ == cands@[j].updated_at@,
            decreases self.manga_folders.len() - i,
        {
            proof {
                let t = self@.mangas;
                assert(t.take(i + 1) =~= t.take(i as int).push(t[i as int]));
                t.take(i as int).lemma_filter_push(t[i as int], f);
            }
            if listed(paths, self.manga_folders[i].full_path.as_str()) {
                let m = self.manga_folders[i].duplicate();
                times.push(m.updated_at.clone());
                cands.push(m);
            }
            i = i + 1;
        }
        assert(self@.mangas.take(self@.mangas.len() as int) =~= self@.mangas);
        let ghost c = cands@;
        assert(c == listed_folders(self@.mangas, paths@));
        assert(views(times@) =~= folder_times(c));
        let b = match latest_position(&times) {
            Some(b) => b,
            None => return None,
        };
        proof {
            assert forall|b2: int| #[trigger] is_latest(folder_times(c), b2) implies b2 == b by {
                let kt = folder_times(c);
                if b2 < b {
                    assert(crate::order::text_less(kt[b2], kt[b as int]));
                } else if b < b2 {
                    assert(crate::order::text_less(kt[b as int], kt[b2]));
                }
            }
        }
        let folder = cands[b].duplicate();
        let panels = rows_with_prefix(&self.manga_panels, folder.full_path.as_str());
        let mut ptimes: Vec<String> = Vec::new();
        let mut k: usize = 0;
        while k < panels.len()
            invariant
                k <= panels@.len(),
                ptimes@.len() == k,
                forall|j: int| 0 <= j < k ==> ptimes@[j]@ == #[trigger] panels@[j].updated_at@,
            decreases panels.len() - k,
        {
            ptimes.push(panels[k].updated_at.clone());
            k = k + 1;
        }
        assert(views(ptimes@) =~= panel_times(panels@));
        assert(is_latest(folder_times(c), b as int));
        assert(c[b as int].key() == folder.full_path@);
        match latest_position(&ptimes) {
            Some(q) => {
                let p = panels[q].duplicate();
                assert(is_latest(panel_times(with_prefix(self@.panels, c[b as int].key())), q as int));
                Some((folder, p))
            },
            None => {
                assert(with_prefix(self@.panels, c[b as int].key()).len() == 0);
                None
            },
        }
    }

    /// The chapter folders created or updated on `today`, newest first (by
    /// `created_at`, then `updated_at`); fails when `today` or a stored time
    /// cannot be read.
    pub fn fetch_daily_manga_folders(&self, today: &str) -> (r: Result<Vec<MangaFolder>, LibraryError>)
        ensures
            r is Err <==> has_bad_time(today@, self@.mangas),
            r is Err ==> r == Err::<Vec<MangaFolder>, LibraryError>(LibraryError::InvalidDate),
            r matches Ok(v) ==> parsed_date(today@, DAY_FORMAT@) matches Some(t) && v@ == newest_first(
                folders_of_day(self@.mangas, t),
            ),
    {
        let t = match parse_date(today, DAY_FORMAT) {
            Some(t) => t,
            None => return Err(LibraryError::InvalidDate),
        };
        let ghost f = |m: MangaFolder|
            parsed_timestamp_date(m.updated_at@, TIMESTAMP_FORMAT@) == Some(t)
                || parsed_timestamp_date(m.created_at@, TIMESTAMP_FORMAT@) == Some(t);
        let mut rem: Vec<MangaFolder> = Vec::new();
        let mut keys: Vec<(String, String)> = Vec::new();
        let mut i: usize = 0;
        while i < self.manga_folders.len()
            invariant
                i <= self@.mangas.len(),
                Some(t) == parsed_date(today@, DAY_FORMAT@),
                f == (|m: MangaFolder|
                    parsed_timestamp_date(m.updated_at@, TIMESTAMP_FORMAT@) == Some(t)
                        || parsed_timestamp_date(m.created_at@, TIMESTAMP_FORMAT@) == Some(t)),
                rem@ == self@.mangas.take(i as int).filter(f),
                keys@.len() == rem@.len(),
                forall|j: int|
                    0 <= j < keys@.len() ==> (#[trigger] keys@[j]).0@ == rem@[j].created_at@
                        && keys@[j].1@ == rem@[j].updated_at@,
                forall|j: int|
                    0 <= j < i ==> parsed_timestamp_date(
                        #[trigger] self@.mangas[j].created_at@,
                        TIMESTAMP_FORMAT@,
                    ) is Some && parsed_timestamp_date(self@.mangas[j].updated_at@, TIMESTAMP_FORMAT@)
                        is Some,
            decreases self.manga_folders.len() - i,
        {
            proof {
                let s = self@.mangas;
                assert(s.take(i + 1) =~= s.take(i as int).push(s[i as int]));
                s.take(i as int).lemma_filter_push(s[i as int], f);
            }
            let m = &self.manga_folders[i];
            let created = parse_timestamp_date(m.created_at.as_str(), TIMESTAMP_FORMAT);
            let updated = parse_timestamp_date(m.updated_at.as_str(), TIMESTAMP_FORMAT);
            let (c, u) = match (created, updated) {
                (Some(c), Some(u)) => (c, u),
                _ => {
                    assert(parsed_timestamp_date(self@.mangas[i as int].created_at@, TIMESTAMP_FORMAT@) is None
                        || parsed_timestamp_date(self@.mangas[i as int].updated_at@, TIMESTAMP_FORMAT@) is None);
                    return Err(LibraryError::InvalidDate);
                },
            };
            let same_day = (u.0 == t.0 && u.1 == t.1 && u.2 == t.2) || (c.0 == t.0 && c.1 == t.1 && c.2 == t.2);
            if same_day {
                let copy = m.duplicate();
                keys.push((copy.created_at.clone(), copy.updated_at.clone()));
                rem.push(copy);
            }
            i = i + 1;
        }
        assert(self@.mangas.take(self@.mangas.len() as int) =~= self@.mangas);
        let ghost kept = rem@;
        assert(kept == folders_of_day(self@.mangas, t));
        let mut out: Vec<MangaFolder> = Vec::new();
        assert(out@ + newest_first(rem@) =~= newest_first(kept));
        while rem.len() > 0
            invariant
                keys@.len() == rem@.len(),
                forall|j: int|
                    0 <= j < keys@.len() ==> (#[trigger] keys@[j]).0@ == rem@[j].created_at@
                        && keys@[j].1@ == rem@[j].updated_at@,
                out@ + newest_first(rem@) == newest_first(kept),
            decreases rem.len(),
        {
            assert(pair_views(keys@) =~= stamps(rem@));
            let m = first_newest(&keys);
            let ghost before = rem@;
            proof {
                let c = choose|c: int| is_first_newest(stamps(before), c);
                lemma_first_newest_unique(stamps(before), c, m as int);
                assert(newest_first(before) == seq![before[m as int]] + newest_first(before.remove(m as int)));
            }
            let x = rem.remove(m);
            let ghost kb = keys@;
            keys.remove(m);
            assert forall|j: int| 0 <= j < keys@.len() implies (#[trigger] keys@[j]).0@
                == rem@[j].created_at@ && keys@[j].1@ == rem@[j].updated_at@ by {
                if j < m {
                    assert(keys@[j] == kb[j]);
                    assert(rem@[j] == before[j]);
                } else {
                    assert(keys@[j] == kb[j + 1]);
                    assert(rem@[j] == before[j + 1]);
                }
            }
            out.push(x);
            assert(out@ + newest_first(rem@) =~= newest_first(kept));
        }
        assert(rem@.len() == 0);
        assert(out@ =~= newest_first(kept));
        Ok(out)
    }
}

} // verus!
