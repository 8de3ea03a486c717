use manga_library::library::Library;
use manga_library::records::{MangaPanel, Stats};
use manga_library::stats::{contains_str, count_global_manga_panels, count_manga_panels, is_image_name};

fn now() -> String {
    "2024-05-15 10:00:00".to_string()
}

fn panel(path: &str, is_read: bool) -> MangaPanel {
    MangaPanel {
        id: "x".to_string(),
        title: "t".to_string(),
        full_path: path.to_string(),
        is_read,
        width: 0,
        height: 0,
        zoom_level: 0,
        created_at: now(),
        updated_at: now(),
    }
}

fn strings(paths: &[&str]) -> Vec<String> {
    paths.iter().map(|p| p.to_string()).collect()
}

#[test]
fn global_counts() {
    let panels = vec![panel("/a/1.jpg", true), panel("/a/2.jpg", false), panel("/a/3.jpg", false)];
    assert_eq!(count_global_manga_panels(&panels), (3, 1, 2));
    assert_eq!(count_global_manga_panels(&vec![]), (0, 0, 0));
}

#[test]
fn folder_counts_read_panels_still_present() {
    let entries = strings(&["/c/1.jpg", "/c/2.png", "/c/3.webp", "/c/notes.txt", "/c/sub"]);
    let panels = vec![panel("/c/1.jpg", true), panel("/c/2.png", false), panel("/c/gone.jpg", true)];
    assert_eq!(count_manga_panels(&entries, &panels), (3, 1, 2));
}

#[test]
fn folder_counts_are_zero_without_read_panels() {
    let entries = strings(&["/c/1.jpg", "/c/2.jpg"]);
    let panels = vec![panel("/c/1.jpg", false)];
    assert_eq!(count_manga_panels(&entries, &panels), (0, 0, 0));
    assert_eq!(count_manga_panels(&vec![], &vec![panel("/c/1.jpg", true)]), (0, 0, 0));
}

#[test]
fn folder_remaining_is_clamped_at_zero() {
    let entries = strings(&["/c/1.jpg"]);
    let panels = vec![panel("/c/1.jpg", true), panel("/c/1.jpg", true), panel("/c/1.jpg", true)];
    assert_eq!(count_manga_panels(&entries, &panels), (1, 3, 0));
}

#[test]
fn image_names_ignore_case() {
    assert!(is_image_name("PAGE_01.JPG"));
    assert!(is_image_name("scan.tiff"));
    assert!(is_image_name("book.pdf"));
    assert!(!is_image_name("notes.txt"));
    assert!(contains_str("abcdef", "cde"));
    assert!(!contains_str("abc", "abcd"));
    assert!(contains_str("abc", ""));
}

#[test]
fn manga_stats_of_one_folder() {
    let mut lib = Library::new();
    let input = vec![("/c/1.jpg".to_string(), None), ("/c/2.jpg".to_string(), None)];
    lib.update_manga_panel(&input, false, 0, &now()).unwrap();
    lib.update_manga_panel(&vec![("/c/1.jpg".to_string(), None)], true, 0, &now()).unwrap();
    let stats = lib.create_manga_stats("/c", &strings(&["/c/1.jpg", "/c/2.jpg", "/c/3.jpg"]));
    assert_eq!(stats.total_panels, 3);
    assert_eq!(stats.total_panels_read, 1);
    assert_eq!(stats.total_panels_remaining, 2);
}

fn files(paths: &[&str]) -> Vec<(String, Option<(usize, usize)>)> {
    paths.iter().map(|p| (p.to_string(), Some((10, 20)))).collect()
}

#[test]
fn global_stats_reconcile_and_reset_time() {
    let mut lib = Library::new();
    let chapters = vec![("/s/1".to_string(), None), ("/s/2".to_string(), None)];
    lib.update_manga_folders(&chapters, false, false, &now()).unwrap();
    lib.update_folder_time_spent_reading("/s/1", 100, &now());
    lib.update_folder_time_spent_reading("/s/2", 20, &now());
    lib.update_manga_panel(&vec![("/s/1/a.jpg".to_string(), None)], true, 0, &now()).unwrap();
    let found = files(&["/s/1/a.jpg", "/s/1/b.PNG", "/s/2/readme.txt", "/s/2/c.gif"]);
    let stats = lib.create_global_stats(&found, &now());
    assert_eq!(
        stats,
        Stats {
            total_manga: 2,
            total_panels: 3,
            total_panels_read: 1,
            total_panels_remaining: 2,
            total_time_spent_reading: 120,
        }
    );
    assert!(lib.manga_folders().iter().all(|m| m.time_spent_reading == 0));
    let added = lib.get_manga_panel("/s/1/b.PNG").unwrap();
    assert!(!added.is_read);
    assert_eq!((added.width, added.height), (10, 20));
    assert_eq!(added.zoom_level, 0);
    assert!(lib.get_manga_panel("/s/2/readme.txt").is_err());
}

#[test]
fn snapshot_is_written_only_when_it_changes() {
    let mut lib = Library::new();
    lib.update_manga_folders(&vec![("/s/1".to_string(), None)], false, false, &now()).unwrap();
    lib.update_folder_time_spent_reading("/s/1", 60, &now());
    let found = files(&["/s/1/a.jpg"]);
    let first = lib.update_global_stats(&found, &now());
    assert_eq!(first.total_panels, 1);
    assert_eq!(first.total_time_spent_reading, 60);
    assert_eq!(lib.stats_snapshot(), Some(first));
    let before = lib.manga_panels().clone();
    let second = lib.update_global_stats(&found, &"2024-05-16 10:00:00".to_string());
    assert_eq!(second, first);
    assert_eq!(lib.stats_snapshot(), Some(first));
    assert_eq!(lib.manga_panels(), &before);
}

#[test]
fn snapshot_adds_lifetime_reading_time() {
    let mut lib = Library::new();
    lib.update_manga_folders(&vec![("/s/1".to_string(), None)], false, false, &now()).unwrap();
    lib.update_folder_time_spent_reading("/s/1", 60, &now());
    lib.update_global_stats(&vec![], &now());
    lib.update_folder_time_spent_reading("/s/1", 15, &now());
    let r = lib.update_global_stats(&vec![], &now());
    assert_eq!(r.total_time_spent_reading, 75);
    assert_eq!(lib.stats_snapshot().unwrap().total_time_spent_reading, 75);
}

#[test]
fn empty_library_writes_no_snapshot() {
    let mut lib = Library::new();
    let r = lib.update_global_stats(&vec![], &now());
    assert_eq!(r, Stats::zero());
    assert_eq!(lib.stats_snapshot(), None);
}

#[test]
fn stale_read_rows_are_not_counted() {
    let entries = strings(&["/c/1.jpg", "/c/2.jpg"]);
    let panels = vec![panel("/c/1.jpg", true), panel("/c/2.jpg", true), panel("/c/3.jpg", true)];
    assert_eq!(count_manga_panels(&entries, &panels), (2, 2, 0));
}

#[test]
fn manga_stats_never_count_more_read_than_present() {
    let mut lib = Library::new();
    let input = vec![("/c/1.jpg".to_string(), None), ("/c/3.jpg".to_string(), None)];
    lib.update_manga_panel(&input, true, 0, &now()).unwrap();
    let stats = lib.create_manga_stats("/c", &strings(&["/c/1.jpg"]));
    assert_eq!((stats.total_panels, stats.total_panels_read, stats.total_panels_remaining), (1, 1, 0));
}
