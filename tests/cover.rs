use manga_library::cover::{get_manga_folder_cover_panel_path, get_parent_folder_cover_panel_path, DirTree};
use manga_library::records::LibraryError;

fn strings(paths: &[&str]) -> Vec<String> {
    paths.iter().map(|p| p.to_string()).collect()
}

#[test]
fn chapter_cover_is_the_lowest_numbered_image() {
    let entries = strings(&["/c/10.jpg", "/c/notes.txt", "/c/2.png", "/c/2.jpg", "/c/page.gif"]);
    assert_eq!(get_manga_folder_cover_panel_path(&entries), Some("/c/2.png".to_string()));
}

#[test]
fn unnumbered_images_count_as_zero() {
    let entries = strings(&["/c/3.jpg", "/c/cover.webp", "/c/front.jpg"]);
    assert_eq!(get_manga_folder_cover_panel_path(&entries), Some("/c/cover.webp".to_string()));
}

#[test]
fn chapter_without_images_has_no_cover() {
    assert_eq!(get_manga_folder_cover_panel_path(&strings(&["/c/a.txt", "/c/sub"])), None);
    assert_eq!(get_manga_folder_cover_panel_path(&vec![]), None);
}

fn listing(entries: &[(&str, bool)]) -> Option<Vec<(String, bool)>> {
    Some(entries.iter().map(|(p, d)| (p.to_string(), *d)).collect())
}

fn series_tree() -> DirTree {
    vec![
        ("/s".to_string(), listing(&[("/s/v1", true), ("/s/readme.txt", false), ("/s/v2", true)])),
        ("/s/v1".to_string(), listing(&[("/s/v1/c1", true), ("/s/v1/notes", false)])),
        ("/s/v1/c1".to_string(), listing(&[("/s/v1/c1/9.jpg", false), ("/s/v1/c1/1.jpg", false)])),
        ("/s/v2".to_string(), listing(&[("/s/v2/0.jpg", false)])),
    ]
}

#[test]
fn series_cover_descends_before_trying_siblings() {
    assert_eq!(get_parent_folder_cover_panel_path("/s", &series_tree()), Ok(Some("/s/v1/c1/1.jpg".to_string())));
}

#[test]
fn series_cover_prefers_a_subfolder_own_images() {
    let mut tree = series_tree();
    tree[1].1 = listing(&[("/s/v1/c1", true), ("/s/v1/5.png", false)]);
    assert_eq!(get_parent_folder_cover_panel_path("/s", &tree), Ok(Some("/s/v1/5.png".to_string())));
}

#[test]
fn series_cover_ignores_images_of_the_series_folder_itself() {
    let tree = vec![("/s".to_string(), listing(&[("/s/a.jpg", false), ("/s/empty", true)])), ("/s/empty".to_string(), listing(&[]))];
    assert_eq!(get_parent_folder_cover_panel_path("/s", &tree), Ok(None));
}

#[test]
fn unreadable_folder_ends_the_search_only_when_reached() {
    let mut tree = series_tree();
    tree[1].1 = None;
    assert_eq!(get_parent_folder_cover_panel_path("/s", &tree), Err(LibraryError::UnreadableFolder));
    let tree = vec![
        ("/s".to_string(), listing(&[("/s/v2", true), ("/s/v1", true)])),
        ("/s/v2".to_string(), listing(&[("/s/v2/0.jpg", false)])),
        ("/s/v1".to_string(), None),
    ];
    assert_eq!(get_parent_folder_cover_panel_path("/s", &tree), Ok(Some("/s/v2/0.jpg".to_string())));
    assert_eq!(get_parent_folder_cover_panel_path("/missing", &tree), Err(LibraryError::UnreadableFolder));
}
