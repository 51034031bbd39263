//! The records the library hands out: notes, summaries, tags, files,
//! statistics, backlinks and the health report.
use vstd::prelude::*;

verus! {

/// A whole note.
#[derive(Debug)]
pub struct Note {
    pub id: String,
    pub title: String,
    pub text: String,
    pub tags: Vec<String>,
    pub created_at: String,
    pub modified_at: String,
    pub is_pinned: bool,
    pub is_archived: bool,
    pub is_trashed: bool,
    pub has_files: bool,
    pub has_images: bool,
}

/// A note as a search lists it.
#[derive(Debug)]
pub struct NoteSummary {
    pub id: String,
    pub title: String,
    pub created_at: String,
    pub modified_at: String,
    pub is_pinned: bool,
    pub tags: Vec<String>,
}

/// A node of the tag tree: `note_count` notes carry it, `children` are
/// the tags nested under it.
#[derive(Debug)]
pub struct Tag {
    pub name: String,
    pub note_count: u32,
    pub children: Vec<Tag>,
}

/// A file attached to a note, with the text recognised in it.
#[derive(Debug)]
pub struct NoteFile {
    pub filename: String,
    pub search_text: Option<String>,
}

/// Counts over the whole library of notes.
#[derive(Debug)]
pub struct Stats {
    pub total_notes: u32,
    pub total_tags: u32,
    pub archived_count: u32,
    pub trashed_count: u32,
    pub untagged_count: u32,
    pub pinned_count: u32,
    pub with_files_count: u32,
    pub tag_distribution: Vec<TagCount>,
    pub monthly_trend: Vec<MonthCount>,
}

/// How many notes carry a tag.
#[derive(Debug)]
pub struct TagCount {
    pub tag: String,
    pub count: u32,
}

/// How many notes were created in a month (`YYYY-MM`).
#[derive(Debug)]
pub struct MonthCount {
    pub month: String,
    pub count: u32,
}

/// A note that links to another one.
#[derive(Debug)]
pub struct BacklinkNote {
    pub id: String,
    pub title: String,
}

/// What the health check found.
#[derive(Debug)]
pub struct HealthStatus {
    pub bear_installed: bool,
    pub db_exists: bool,
    pub db_path: String,
    pub note_count: Option<u32>,
    pub tag_count: Option<u32>,
    pub schema_ok: bool,
}

} // verus!
