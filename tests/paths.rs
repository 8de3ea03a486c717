use manga_library::instances::instances_to_close;
use manga_library::paths::{
    extract_trailing_number, get_panel_image_dimensions, is_panel_image, split_path_parts,
    ordering_number,
};
use manga_library::text::{parse_u32, starts_with, str_eq};

#[test]
fn split_path_parts_of_a_file() {
    let parts = split_path_parts("/library/series/page 3.jpg").unwrap();
    assert_eq!(parts.parent, "/library/series");
    assert_eq!(parts.file_name, "page 3.jpg");
    assert_eq!(parts.extension, Some("jpg".to_string()));
}

#[test]
fn split_path_parts_without_extension() {
    let parts = split_path_parts("/library/series").unwrap();
    assert_eq!(parts.parent, "/library");
    assert_eq!(parts.file_name, "series");
    assert_eq!(parts.extension, None);
}

#[test]
fn split_path_parts_of_root_fails() {
    assert!(split_path_parts("/").is_none());
    assert!(split_path_parts("").is_none());
}

#[test]
fn trailing_number_of_panel_names() {
    assert_eq!(extract_trailing_number("Chapter 12.jpg"), Some(12));
    assert_eq!(extract_trailing_number("vol2_page07.png"), Some(7));
    assert_eq!(extract_trailing_number("cover.png"), None);
    assert_eq!(extract_trailing_number("99999999999.jpg"), None);
}

#[test]
fn ordering_number_takes_trailing_run_of_digits() {
    assert_eq!(ordering_number("Chapter 10"), 10);
    assert_eq!(ordering_number("Vol 2 Ch 5"), 5);
    assert_eq!(ordering_number("Extras"), 0);
    assert_eq!(ordering_number("Chapter 99999999999"), 0);
}

#[test]
fn parse_numbers_like_std() {
    assert_eq!(parse_u32("+12"), Some(12));
    assert_eq!(parse_u32("4294967295"), Some(u32::MAX));
    assert_eq!(parse_u32("4294967296"), None);
    assert_eq!(parse_u32(""), None);
    assert_eq!(parse_u32("-1"), None);
    assert_eq!(parse_u32("+"), None);
    assert_eq!(parse_u32("1a"), None);
}

#[test]
fn string_helpers() {
    assert!(starts_with("/a/1/p1.jpg", "/a"));
    assert!(!starts_with("/b/1", "/a"));
    assert!(!starts_with("/a", "/a/1"));
    assert!(str_eq("abc", "abc"));
    assert!(!str_eq("abc", "abd"));
}

#[test]
fn panel_images_by_extension() {
    assert!(is_panel_image("/c/1.jpg"));
    assert!(is_panel_image("/c/1.jpeg"));
    assert!(is_panel_image("/c/1.png"));
    assert!(is_panel_image("/c/1.webp"));
    assert!(!is_panel_image("/c/1.JPG"));
    assert!(!is_panel_image("/c/1.gif"));
    assert!(!is_panel_image("/c/jpg"));
}

#[test]
fn failed_probe_gives_zero_size() {
    assert_eq!(get_panel_image_dimensions(None), (0, 0));
}

#[test]
fn probed_size_is_truncated_to_sixteen_bits() {
    assert_eq!(get_panel_image_dimensions(Some((800, 1200))), (800, 1200));
    assert_eq!(get_panel_image_dimensions(Some((70000, 20))), (4464, 20));
}

#[test]
fn other_instances_are_closed() {
    let procs = vec![
        (10, "Manga-Shelf".to_string()),
        (11, "bash".to_string()),
        (12, "manga-shelf".to_string()),
        (13, "MANGA helper".to_string()),
    ];
    assert_eq!(instances_to_close(&procs, 12), vec![10, 13]);
    let alone = vec![(12, "manga-shelf".to_string()), (11, "bash".to_string())];
    assert!(instances_to_close(&alone, 12).is_empty());
}

#[test]
fn dir_paths_from_json() {
    let v = manga_library::paths::parse_dir_paths("[\"/a/b\", \"/c\"]").unwrap();
    assert_eq!(v, vec!["/a/b".to_string(), "/c".to_string()]);
    assert_eq!(
        manga_library::paths::parse_dir_paths("/a/b"),
        Err(manga_library::records::LibraryError::InvalidArgument)
    );
}
