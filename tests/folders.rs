use manga_library::library::Library;
use manga_library::records::{LibraryError, MangaFolder};

fn now() -> String {
    "2024-05-15 10:00:00".to_string()
}

fn folders(paths: &[&str]) -> Vec<(String, Option<String>)> {
    paths.iter().map(|p| (p.to_string(), None)).collect()
}

fn panels(paths: &[&str]) -> Vec<(String, Option<(usize, usize)>)> {
    paths.iter().map(|p| (p.to_string(), Some((100, 200)))).collect()
}

#[test]
fn parent_upsert_twice_keeps_one_row() {
    let mut lib = Library::new();
    let first = lib.update_parent_folders(&folders(&["/lib/series"]), false, false, &now()).unwrap();
    assert_eq!(first.len(), 1);
    assert_eq!(first[0].title, "series");
    assert_eq!(first[0].full_path, "/lib/series");
    assert_eq!(first[0].created_at, now());
    let later = "2024-05-16 09:00:00".to_string();
    lib.update_parent_folders(&folders(&["/lib/series"]), false, true, &later).unwrap();
    assert_eq!(lib.parent_folders().len(), 1);
    let row = &lib.parent_folders()[0];
    assert!(row.is_expanded);
    assert_eq!(row.id, first[0].id);
    assert_eq!(row.created_at, now());
}

#[test]
fn parent_upsert_keeps_cover() {
    let mut lib = Library::new();
    let input = vec![("/lib/series".to_string(), Some("/lib/series/c1/1.jpg".to_string()))];
    let rows = lib.update_parent_folders(&input, false, false, &now()).unwrap();
    assert_eq!(rows[0].cover_panel_path, Some("/lib/series/c1/1.jpg".to_string()));
}

#[test]
fn manga_upsert_twice_keeps_one_row() {
    let mut lib = Library::new();
    let first = lib.update_manga_folders(&folders(&["/lib/s/Chapter 1"]), false, false, &now()).unwrap();
    assert_eq!(first[0].time_spent_reading, 0);
    assert_eq!(first[0].title, "Chapter 1");
    lib.update_folder_time_spent_reading("/lib/s/Chapter 1", 30, &now());
    let second = lib.update_manga_folders(&folders(&["/lib/s/Chapter 1"]), true, true, &now()).unwrap();
    assert_eq!(lib.manga_folders().len(), 1);
    assert_eq!(second[0].id, first[0].id);
    assert!(second[0].as_child);
    assert!(second[0].is_expanded);
    assert_eq!(second[0].time_spent_reading, 30);
}

#[test]
fn panel_upsert_twice_keeps_one_row_and_first_size() {
    let mut lib = Library::new();
    lib.update_manga_panel(&panels(&["/lib/s/c1/1.jpg"]), false, 0, &now()).unwrap();
    let again = vec![("/lib/s/c1/1.jpg".to_string(), Some((5, 6)))];
    lib.update_manga_panel(&again, true, 0, &"2024-05-15 11:00:00".to_string()).unwrap();
    assert_eq!(lib.manga_panels().len(), 1);
    let p = &lib.manga_panels()[0];
    assert!(p.is_read);
    assert_eq!((p.width, p.height), (100, 200));
    assert_eq!(p.updated_at, "2024-05-15 11:00:00");
    assert_eq!(p.created_at, now());
}

#[test]
fn upsert_with_invalid_path_changes_nothing() {
    let mut lib = Library::new();
    let r = lib.update_parent_folders(&folders(&["/lib/a", "/"]), false, false, &now());
    assert_eq!(r, Err(LibraryError::InvalidPath));
    assert!(lib.parent_folders().is_empty());
    let r = lib.update_manga_panel(&panels(&["/"]), false, 0, &now());
    assert_eq!(r, Err(LibraryError::InvalidPath));
    assert!(lib.manga_panels().is_empty());
}

#[test]
fn zoom_level_applies_to_every_panel() {
    let mut lib = Library::new();
    lib.update_manga_panel(&panels(&["/a/1/1.jpg", "/a/1/2.jpg"]), false, 0, &now()).unwrap();
    lib.update_manga_panel(&panels(&["/b/1/1.jpg"]), false, 150, &now()).unwrap();
    assert!(lib.manga_panels().iter().all(|p| p.zoom_level == 150));
    lib.update_manga_panel(&panels(&["/b/1/2.jpg"]), false, 0, &now()).unwrap();
    assert_eq!(lib.manga_panels()[3].zoom_level, 0);
    assert_eq!(lib.manga_panels()[0].zoom_level, 150);
}

#[test]
fn panel_update_touches_the_chapter_folder() {
    let mut lib = Library::new();
    lib.update_manga_folders(&folders(&["/a/1", "/a/2"]), false, false, &now()).unwrap();
    let later = "2024-05-20 08:00:00".to_string();
    lib.update_manga_panel(&panels(&["/a/1/1.jpg"]), true, 0, &later).unwrap();
    assert_eq!(lib.manga_folders()[0].updated_at, later);
    assert_eq!(lib.manga_folders()[1].updated_at, now());
}

#[test]
fn cascading_delete_removes_everything_under_the_path() {
    let mut lib = Library::new();
    lib.update_parent_folders(&folders(&["/a"]), false, false, &now()).unwrap();
    lib.update_manga_folders(&folders(&["/a/1", "/a/2", "/b/1"]), true, false, &now()).unwrap();
    lib.update_manga_panel(&panels(&["/a/1/p1.jpg", "/b/1/p1.jpg"]), false, 0, &now()).unwrap();
    lib.delete_folder("id", "/a", true);
    assert!(lib.parent_folders().is_empty());
    assert_eq!(lib.manga_folders().len(), 1);
    assert_eq!(lib.manga_folders()[0].full_path, "/b/1");
    assert_eq!(lib.manga_panels().len(), 1);
    assert_eq!(lib.manga_panels()[0].full_path, "/b/1/p1.jpg");
}

#[test]
fn delete_without_all_data_keeps_panels() {
    let mut lib = Library::new();
    lib.update_parent_folders(&folders(&["/a"]), false, false, &now()).unwrap();
    lib.update_manga_folders(&folders(&["/a/1", "/a/2"]), true, false, &now()).unwrap();
    lib.update_manga_panel(&panels(&["/a/1/p1.jpg"]), false, 0, &now()).unwrap();
    lib.delete_folder("id", "/a", false);
    assert!(lib.parent_folders().is_empty());
    assert!(lib.manga_folders().is_empty());
    assert_eq!(lib.manga_panels().len(), 1);
}

#[test]
fn listing_skips_child_folders() {
    let mut lib = Library::new();
    lib.update_parent_folders(&folders(&["/a"]), false, false, &now()).unwrap();
    lib.update_parent_folders(&folders(&["/b"]), true, false, &now()).unwrap();
    lib.update_manga_folders(&folders(&["/a/1"]), true, false, &now()).unwrap();
    lib.update_manga_folders(&folders(&["/c"]), false, false, &now()).unwrap();
    let parents = lib.get_parent_folders();
    assert_eq!(parents.len(), 1);
    assert_eq!(parents[0].full_path, "/a");
    let mangas = lib.get_manga_folders();
    assert_eq!(mangas.len(), 1);
    assert_eq!(mangas[0].full_path, "/c");
}

#[test]
fn get_manga_panel_errors() {
    let mut lib = Library::new();
    lib.update_manga_panel(&panels(&["/a/1/p1.jpg"]), false, 0, &now()).unwrap();
    assert_eq!(lib.get_manga_panel(""), Err(LibraryError::InvalidArgument));
    assert_eq!(lib.get_manga_panel("/a/1/p2.jpg"), Err(LibraryError::NotFound));
    let p = lib.get_manga_panel("/a/1/p1.jpg").unwrap();
    assert_eq!(p.title, "p1.jpg");
    assert_eq!((p.width, p.height), (100, 200));
}

#[test]
fn last_read_panel_position() {
    let mut lib = Library::new();
    lib.update_manga_panel(&panels(&["/a/1/1.jpg", "/a/1/2.jpg", "/a/1/3.jpg"]), false, 0, &now())
        .unwrap();
    assert_eq!(lib.find_last_read_panel("/a/1"), 0);
    lib.update_manga_panel(&panels(&["/a/1/2.jpg"]), true, 0, &now()).unwrap();
    assert_eq!(lib.find_last_read_panel("/a/1"), 1);
    lib.update_manga_panel(&panels(&["/a/1/1.jpg"]), true, 0, &now()).unwrap();
    assert_eq!(lib.find_last_read_panel("/a/1"), 1);
    assert_eq!(lib.find_last_read_panel("/b"), 0);
}

#[test]
fn single_column_updates() {
    let mut lib = Library::new();
    lib.update_manga_folders(&folders(&["/a/1"]), false, false, &now()).unwrap();
    let t = "2024-06-01 12:00:00".to_string();
    lib.update_folder_double_panels("/a/1", true, &t);
    lib.set_folder_read("/a/1", &t);
    lib.update_folder_time_spent_reading("/a/1", 40, &t);
    lib.update_folder_time_spent_reading("/a/1", 2, &t);
    let m = lib.get_manga_folder_by_path("/a/1").unwrap();
    assert!(m.double_panels);
    assert!(m.is_read);
    assert_eq!(m.time_spent_reading, 42);
    assert_eq!(m.updated_at, t);
    lib.set_folder_unread("/a/1", &t);
    assert!(!lib.get_manga_folder_by_path("/a/1").unwrap().is_read);
    lib.update_folder_time_spent_reading("/a/1", u32::MAX, &t);
    assert_eq!(lib.get_manga_folder_by_path("/a/1").unwrap().time_spent_reading, u32::MAX);
    lib.set_folder_read("/missing", &t);
    assert_eq!(lib.manga_folders().len(), 1);
}

#[test]
fn active_selection_is_replaced() {
    let mut lib = Library::new();
    lib.update_manga_folders(&folders(&["/a/1", "/a/2"]), false, false, &now()).unwrap();
    assert_eq!(lib.get_global_manga(), None);
    lib.set_global_manga_folder("/a/1").unwrap();
    lib.set_global_manga_folder("/a/2").unwrap();
    let active: MangaFolder = lib.get_global_manga().unwrap();
    assert_eq!(active.full_path, "/a/2");
    assert!(lib.set_global_manga_folder("/a/3").is_err());
    assert_eq!(lib.get_global_manga().unwrap().full_path, "/a/2");
}

#[test]
fn active_series_is_replaced() {
    let mut lib = Library::new();
    lib.update_parent_folders(&folders(&["/a", "/b"]), false, false, &now()).unwrap();
    assert_eq!(lib.get_global_parent(), None);
    lib.set_global_parent_folder("/a").unwrap();
    lib.set_global_parent_folder("/b").unwrap();
    assert_eq!(lib.get_global_parent().unwrap().full_path, "/b");
    assert!(lib.set_global_parent_folder("/c").is_err());
}

fn chapters() -> Library {
    let mut lib = Library::new();
    lib.update_manga_folders(&folders(&["/s/Chapter 2", "/s/Chapter 10", "/s/Chapter 1"]), false, false, &now())
        .unwrap();
    lib
}

#[test]
fn natural_order_of_chapters() {
    let lib = chapters();
    let next = lib.get_next_or_previous_manga_folder("/s/Chapter 1", true).unwrap().unwrap();
    assert_eq!(next.title, "Chapter 2");
    let next = lib.get_next_or_previous_manga_folder("/s/Chapter 2", true).unwrap().unwrap();
    assert_eq!(next.title, "Chapter 10");
    let prev = lib.get_next_or_previous_manga_folder("/s/Chapter 10", false).unwrap().unwrap();
    assert_eq!(prev.title, "Chapter 2");
}

#[test]
fn navigation_stops_at_both_ends() {
    let lib = chapters();
    assert_eq!(lib.get_next_or_previous_manga_folder("/s/Chapter 1", false), Ok(None));
    assert_eq!(lib.get_next_or_previous_manga_folder("/s/Chapter 10", true), Ok(None));
}

#[test]
fn navigation_needs_a_registered_folder() {
    let lib = chapters();
    assert_eq!(
        lib.get_next_or_previous_manga_folder("/s/Chapter 3", true),
        Err(LibraryError::NotFound)
    );
    assert_eq!(lib.get_next_or_previous_manga_folder("/", true), Err(LibraryError::InvalidPath));
}

#[test]
fn navigation_keeps_table_order_on_ties() {
    let mut lib = Library::new();
    lib.update_manga_folders(&folders(&["/s/Extra B", "/s/Chapter 1", "/s/Extra A"]), false, false, &now())
        .unwrap();
    let next = lib.get_next_or_previous_manga_folder("/s/Extra B", true).unwrap().unwrap();
    assert_eq!(next.title, "Extra A");
    let next = lib.get_next_or_previous_manga_folder("/s/Extra A", true).unwrap().unwrap();
    assert_eq!(next.title, "Chapter 1");
}

#[test]
fn from_tables_rejects_duplicate_paths() {
    let mut lib = Library::new();
    lib.update_parent_folders(&folders(&["/a"]), false, false, &now()).unwrap();
    let row = lib.parent_folders()[0].clone();
    let r = Library::from_tables(vec![row.clone(), row], vec![], vec![], None, None, None, vec![], vec![]);
    assert!(matches!(r, Err(LibraryError::InvalidArgument)));
    let ok = Library::from_tables(lib.parent_folders().clone(), vec![], vec![], None, None, None, vec![], vec![]);
    assert_eq!(ok.unwrap().parent_folders().len(), 1);
}

#[test]
fn last_read_folder_and_panel() {
    let mut lib = Library::new();
    lib.update_manga_folders(&folders(&["/a/1", "/a/2"]), false, false, &now()).unwrap();
    lib.update_manga_panel(&panels(&["/a/2/1.jpg"]), true, 0, &"2024-05-16 09:00:00".to_string()).unwrap();
    lib.update_manga_panel(&panels(&["/a/2/2.jpg"]), true, 0, &"2024-05-16 10:00:00".to_string()).unwrap();
    let wanted = vec!["/a/1".to_string(), "/a/2".to_string()];
    let (folder, panel) = lib.find_last_read_manga_folder(&wanted).unwrap();
    assert_eq!(folder.full_path, "/a/2");
    assert_eq!(panel.full_path, "/a/2/2.jpg");
    assert_eq!(lib.find_last_read_manga_folder(&vec!["/a/1".to_string()]), None);
    assert_eq!(lib.find_last_read_manga_folder(&vec![]), None);
}

#[test]
fn daily_folders_newest_first() {
    let mut lib = Library::new();
    lib.update_manga_folders(&folders(&["/s/b"]), false, false, &"2024-05-14 09:00:00".to_string()).unwrap();
    lib.update_manga_folders(&folders(&["/s/c"]), false, false, &"2024-05-10 09:00:00".to_string()).unwrap();
    lib.update_manga_folders(&folders(&["/s/a"]), false, false, &"2024-05-15 08:00:00".to_string()).unwrap();
    lib.set_folder_read("/s/b", &"2024-05-15 12:00:00".to_string());
    let daily = lib.fetch_daily_manga_folders("2024-05-15").unwrap();
    let paths: Vec<&str> = daily.iter().map(|m| m.full_path.as_str()).collect();
    assert_eq!(paths, vec!["/s/a", "/s/b"]);
    assert_eq!(lib.fetch_daily_manga_folders("2024-05-10").unwrap().len(), 1);
    assert_eq!(lib.fetch_daily_manga_folders("tomorrow"), Err(LibraryError::InvalidDate));
}

#[test]
fn daily_folders_reject_unreadable_times() {
    let mut lib = Library::new();
    lib.update_manga_folders(&folders(&["/s/a"]), false, false, &"yesterday".to_string()).unwrap();
    assert_eq!(lib.fetch_daily_manga_folders("2024-05-15"), Err(LibraryError::InvalidDate));
}

#[test]
fn navigation_orders_by_trailing_number() {
    let mut lib = Library::new();
    lib.update_manga_folders(&folders(&["/v/Vol 2 Ch 5", "/v/Vol 1 Ch 3", "/v/Vol 2 Ch 4"]), false, false, &now())
        .unwrap();
    let next = lib.get_next_or_previous_manga_folder("/v/Vol 1 Ch 3", true).unwrap().unwrap();
    assert_eq!(next.title, "Vol 2 Ch 4");
    let next = lib.get_next_or_previous_manga_folder("/v/Vol 2 Ch 4", true).unwrap().unwrap();
    assert_eq!(next.title, "Vol 2 Ch 5");
    assert_eq!(lib.get_next_or_previous_manga_folder("/v/Vol 2 Ch 5", true), Ok(None));
}
