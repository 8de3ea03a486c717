//! Path decomposition, the ordering numbers embedded in names, and the file
//! kinds that count as panel images.

use vstd::prelude::*;
use crate::order::views;
use crate::records::LibraryError;
use crate::text::{parse_u32, parse_u32_spec, str_eq};

verus! {

/// The view of an optional string.
pub open spec fn opt_view(o: Option<String>) -> Option<Seq<char>> {
    match o {
        Some(s) => Some(s@),
        None => None,
    }
}

/// The final component of a path, as `std::path::Path::file_name` gives it.
pub uninterp spec fn path_file_name(p: Seq<char>) -> Option<Seq<char>>;

/// The path without its final component, as `std::path::Path::parent` gives it.
pub uninterp spec fn path_parent(p: Seq<char>) -> Option<Seq<char>>;

/// The extension of a path, as `std::path::Path::extension` gives it.
pub uninterp spec fn path_extension(p: Seq<char>) -> Option<Seq<char>>;

/// The text of capture group 1 of the leftmost match of a regular expression,
/// as the `regex` crate finds it.
pub uninterp spec fn regex_group_one(pattern: Seq<char>, text: Seq<char>) -> Option<Seq<char>>;

/// Relies on `std::path::Path::file_name`: the last component of `p`, unless
/// `p` ends in `..` or is a root or empty.
#[verifier::external_body]
pub(crate) fn file_name_of(p: &str) -> (r: Option<String>)
    ensures
        opt_view(r) == path_file_name(p@),
{
    std::path::Path::new(p).file_name().map(|n| n.to_string_lossy().into_owned())
}

/// Relies on `std::path::Path::parent`: `p` without its last component, unless
/// `p` is a root or empty.
#[verifier::external_body]
pub(crate) fn parent_of(p: &str) -> (r: Option<String>)
    ensures
        opt_view(r) == path_parent(p@),
{
    std::path::Path::new(p).parent().map(|n| n.to_string_lossy().into_owned())
}

/// Relies on `std::path::Path::extension`: the part of the file name after
/// its last inner `.`.
#[verifier::external_body]
fn extension_of(p: &str) -> (r: Option<String>)
    ensures
        opt_view(r) == path_extension(p@),
{
    std::path::Path::new(p).extension().map(|n| n.to_string_lossy().into_owned())
}

/// Relies on `regex::Regex::new` and `regex::Regex::captures`: group 1 of the
/// leftmost match of `pattern` in `text`; none where the pattern does not compile.
#[verifier::external_body]
fn capture_group_one(pattern: &str, text: &str) -> (r: Option<String>)
    ensures
        opt_view(r) == regex_group_one(pattern@, text@),
{
    let re = match regex::Regex::new(pattern) {
        Ok(re) => re,
        Err(_) => return None,
    };
    match re.captures(text) {
        Some(c) => match c.get(1) {
            Some(m) => Some(m.as_str().to_string()),
            None => None,
        },
        None => None,
    }
}

/// The last run of digits in a name, with only non-digits after it.
pub const TRAILING_NUMBER_PATTERN: &'static str = "(\\d+)\\D*$";

/// The number that orders panel files: the trailing run of digits of the
/// name, read as a `u32`.
pub open spec fn trailing_number_spec(name: Seq<char>) -> Option<u32> {
    match regex_group_one(TRAILING_NUMBER_PATTERN@, name) {
        Some(g) => parse_u32_spec(g),
        None => None,
    }
}

/// The number that orders panel files and chapter folders by name: the
/// trailing number of the name, or 0 where there is none.
pub open spec fn ordering_number_spec(name: Seq<char>) -> u32 {
    match trailing_number_spec(name) {
        Some(v) => v,
        None => 0,
    }
}

/// The trailing number of a name ("Chapter 12.jpg" gives 12).
pub fn extract_trailing_number(name: &str) -> (r: Option<u32>)
    ensures
        r == trailing_number_spec(name@),
{
    match capture_group_one(TRAILING_NUMBER_PATTERN, name) {
        Some(g) => parse_u32(&g),
        None => None,
    }
}

/// The number that orders names: the trailing number, or 0 where there is
/// none ("Vol 2 Ch 5" gives 5).
pub fn ordering_number(name: &str) -> (r: u32)
    ensures
        r == ordering_number_spec(name@),
{
    match extract_trailing_number(name) {
        Some(v) => v,
        None => 0,
    }
}

/// The parts of a path.
pub struct PathParts {
    pub parent: String,
    pub file_name: String,
    pub extension: Option<String>,
}

/// Splits a path into its parent, its file name and its extension; none where
/// the path has no file name or no parent.
pub fn split_path_parts(path: &str) -> (r: Option<PathParts>)
    ensures
        r is Some <==> (path_file_name(path@) is Some && path_parent(path@) is Some),
        r matches Some(parts) ==> {
            &&& Some(parts.file_name@) == path_file_name(path@)
            &&& Some(parts.parent@) == path_parent(path@)
            &&& opt_view(parts.extension) == path_extension(path@)
        },
{
    let file_name = match file_name_of(path) {
        Some(n) => n,
        None => return None,
    };
    let parent = match parent_of(path) {
        Some(p) => p,
        None => return None,
    };
    let extension = extension_of(path);
    Some(PathParts { parent, file_name, extension })
}

/// The extensions of the files that a folder's panels are read from.
pub open spec fn is_panel_extension(e: Seq<char>) -> bool {
    e == "jpg"@ || e == "jpeg"@ || e == "png"@ || e == "webp"@
}

/// Whether a path names a panel image by its extension.
pub open spec fn is_panel_path(p: Seq<char>) -> bool {
    match path_extension(p) {
        Some(e) => is_panel_extension(e),
        None => false,
    }
}

/// Whether a path names a panel image: its extension is `jpg`, `jpeg`, `png`
/// or `webp`.
pub fn is_panel_image(path: &str) -> (r: bool)
    ensures
        r == is_panel_path(path@),
{
    proof {
        reveal_strlit("jpg");
        reveal_strlit("jpeg");
        reveal_strlit("png");
        reveal_strlit("webp");
    }
    match extension_of(path) {
        Some(e) => str_eq(&e, "jpg") || str_eq(&e, "jpeg") || str_eq(&e, "png") || str_eq(
            &e,
            "webp",
        ),
        None => false,
    }
}

/// The width and height stored for a panel, from the size that probing its
/// image gave: each truncated to 16 bits, or `(0, 0)` where probing failed.
pub open spec fn panel_size_spec(probe: Option<(usize, usize)>) -> (u16, u16) {
    match probe {
        Some(s) => (s.0 as u16, s.1 as u16),
        None => (0u16, 0u16),
    }
}

/// The width and height stored for a panel, from the size that probing its
/// image gave; `(0, 0)` where probing failed.
pub fn get_panel_image_dimensions(probe: Option<(usize, usize)>) -> (r: (u16, u16))
    ensures
        r == panel_size_spec(probe),
        probe is None ==> r == (0u16, 0u16),
{
    match probe {
        Some(s) => (s.0 as u16, s.1 as u16),
        None => (0, 0),
    }
}

/// The strings of a JSON array of strings, as `serde_json` reads them.
pub uninterp spec fn json_string_array(s: Seq<char>) -> Option<Seq<Seq<char>>>;

/// Relies on `serde_json::from_str::<Vec<String>>`: the strings of a JSON
/// array of strings, in order; none where the text is not one.
#[verifier::external_body]
fn json_strings(s: &str) -> (r: Option<Vec<String>>)
    ensures
        match r {
            Some(v) => json_string_array(s@) == Some(views(v@)),
            None => json_string_array(s@) is None,
        },
{
    serde_json::from_str::<Vec<String>>(s).ok()
}

/// The folder paths of a request, given as a JSON array of strings; an
/// invalid argument when the text is not one.
pub fn parse_dir_paths(dir_paths: &str) -> (r: Result<Vec<String>, LibraryError>)
    ensures
        r is Err <==> json_string_array(dir_paths@) is None,
        r is Err ==> r == Err::<Vec<String>, LibraryError>(LibraryError::InvalidArgument),
        r matches Ok(v) ==> json_string_array(dir_paths@) == Some(views(v@)),
{
    match json_strings(dir_paths) {
        Some(v) => Ok(v),
        None => Err(LibraryError::InvalidArgument),
    }
}

} // verus!
