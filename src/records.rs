//! The rows that the library keeps: series and chapter folders, panels, the
//! statistics snapshot, and the two day-keyed series.

use vstd::prelude::*;

verus! {

/// A row keyed by a string that is unique within its table.
pub trait Row: Sized {
    /// The key of the row.
    spec fn key(&self) -> Seq<char>;

    /// The key of the row.
    fn key_str(&self) -> (r: &str)
        ensures
            r@ == self.key(),
    ;

    /// A copy of the row.
    fn duplicate(&self) -> (r: Self)
        ensures
            r == *self,
    ;
}

/// A copy of an optional string.
pub fn duplicate_opt(o: &Option<String>) -> (r: Option<String>)
    ensures
        r == *o,
{
    match o {
        Some(s) => Some(s.clone()),
        None => None,
    }
}

/// A series folder.
#[derive(Clone, Debug, PartialEq, Eq)]
pub struct ParentFolder {
    pub id: String,
    pub title: String,
    pub full_path: String,
    pub as_child: bool,
    pub is_expanded: bool,
    pub cover_panel_path: Option<String>,
    pub created_at: String,
    pub updated_at: String,
}

/// A chapter folder.
#[derive(Clone, Debug, PartialEq, Eq)]
pub struct MangaFolder {
    pub id: String,
    pub title: String,
    pub full_path: String,
    pub as_child: bool,
    pub is_expanded: bool,
    pub time_spent_reading: u32,
    pub double_panels: bool,
    pub is_read: bool,
    pub cover_panel_path: Option<String>,
    pub created_at: String,
    pub updated_at: String,
}

/// A single page image of a chapter.
#[derive(Clone, Debug, PartialEq, Eq)]
pub struct MangaPanel {
    pub id: String,
    pub title: String,
    pub full_path: String,
    pub is_read: bool,
    pub width: u16,
    pub height: u16,
    pub zoom_level: u16,
    pub created_at: String,
    pub updated_at: String,
}

/// Seconds read on one day (`updated_at` holds the day, `YYYY-MM-DD`).
#[derive(Clone, Debug, PartialEq, Eq)]
pub struct Chart {
    pub watchtime: u32,
    pub updated_at: String,
}

/// Panels read on one day (`date` holds the day, `YYYY-MM-DD`).
#[derive(Clone, Debug, PartialEq, Eq)]
pub struct HeatmapEntry {
    pub date: String,
    pub count: u32,
}

/// Library-wide totals.
#[derive(Clone, Copy, Debug, PartialEq, Eq, Structural)]
pub struct Stats {
    pub total_manga: u32,
    pub total_panels: u32,
    pub total_panels_read: u32,
    pub total_panels_remaining: u32,
    pub total_time_spent_reading: u32,
}

/// Panel totals of one chapter folder.
#[derive(Clone, Copy, Debug, PartialEq, Eq, Structural)]
pub struct MangaStats {
    pub total_panels: u32,
    pub total_panels_read: u32,
    pub total_panels_remaining: u32,
}

/// Why an operation of the library failed.
#[derive(Clone, Copy, Debug, PartialEq, Eq, Structural)]
pub enum LibraryError {
    /// No row matches the path or key asked for.
    NotFound,
    /// An argument was empty or malformed.
    InvalidArgument,
    /// A path has no file name or no parent.
    InvalidPath,
    /// A stored day is not a date of the form `YYYY-MM-DD`.
    InvalidDate,
    /// A series by day of the month was asked for without a usable month length.
    MissingDaysInMonth,
    /// A folder that a search had to look into could not be listed.
    UnreadableFolder,
}

/// Why setting the active selection failed.
#[derive(Clone, Debug, PartialEq, Eq)]
pub struct GlobalError {
    pub message: String,
}

impl Stats {
    /// The snapshot that stands before any has been stored: all zero.
    pub open spec fn zero_spec() -> Stats {
        Stats {
            total_manga: 0,
            total_panels: 0,
            total_panels_read: 0,
            total_panels_remaining: 0,
            total_time_spent_reading: 0,
        }
    }

    /// All totals zero.
    pub fn zero() -> (r: Stats)
        ensures
            r == Stats::zero_spec(),
    {
        Stats {
            total_manga: 0,
            total_panels: 0,
            total_panels_read: 0,
            total_panels_remaining: 0,
            total_time_spent_reading: 0,
        }
    }
}

impl Row for ParentFolder {
    open spec fn key(&self) -> Seq<char> {
        self.full_path@
    }

    fn key_str(&self) -> (r: &str) {
        self.full_path.as_str()
    }

    fn duplicate(&self) -> (r: Self) {
        ParentFolder {
            id: self.id.clone(),
            title: self.title.clone(),
            full_path: self.full_path.clone(),
            as_child: self.as_child,
            is_expanded: self.is_expanded,
            cover_panel_path: duplicate_opt(&self.cover_panel_path),
            created_at: self.created_at.clone(),
            updated_at: self.updated_at.clone(),
        }
    }
}

impl Row for MangaFolder {
    open spec fn key(&self) -> Seq<char> {
        self.full_path@
    }

    fn key_str(&self) -> (r: &str) {
        self.full_path.as_str()
    }

    fn duplicate(&self) -> (r: Self) {
        MangaFolder {
            id: self.id.clone(),
            title: self.title.clone(),
            full_path: self.full_path.clone(),
            as_child: self.as_child,
            is_expanded: self.is_expanded,
            time_spent_reading: self.time_spent_reading,
            double_panels: self.double_panels,
            is_read: self.is_read,
            cover_panel_path: duplicate_opt(&self.cover_panel_path),
            created_at: self.created_at.clone(),
            updated_at: self.updated_at.clone(),
        }
    }
}

impl Row for MangaPanel {
    open spec fn key(&self) -> Seq<char> {
        self.full_path@
    }

    fn key_str(&self) -> (r: &str) {
        self.full_path.as_str()
    }

    fn duplicate(&self) -> (r: Self) {
        MangaPanel {
            id: self.id.clone(),
            title: self.title.clone(),
            full_path: self.full_path.clone(),
            is_read: self.is_read,
            width: self.width,
            height: self.height,
            zoom_level: self.zoom_level,
            created_at: self.created_at.clone(),
            updated_at: self.updated_at.clone(),
        }
    }
}

impl Row for Chart {
    open spec fn key(&self) -> Seq<char> {
        self.updated_at@
    }

    fn key_str(&self) -> (r: &str) {
        self.updated_at.as_str()
    }

    fn duplicate(&self) -> (r: Self) {
        Chart { watchtime: self.watchtime, updated_at: self.updated_at.clone() }
    }
}

impl Row for HeatmapEntry {
    open spec fn key(&self) -> Seq<char> {
        self.date@
    }

    fn key_str(&self) -> (r: &str) {
        self.date.as_str()
    }

    fn duplicate(&self) -> (r: Self) {
        HeatmapEntry { date: self.date.clone(), count: self.count }
    }
}

} // verus!
