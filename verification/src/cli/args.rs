use vstd::prelude::*;

verus! {

/// The whole command line.
#[derive(Debug)]
pub struct Cli {
    pub command: Commands,
    /// Pretty-print JSON output.
    pub pretty: bool,
    /// Custom path to the Bear database.
    pub db_path: Option<String>,
}

/// The commands.
#[allow(inconsistent_fields)]
#[derive(Debug)]
pub enum Commands {
    /// Read a note by ID or title.
    Read { id_or_title: String, trashed: bool },
    /// Search notes.
    Search {
        query: String,
        ocr: bool,
        tag: Option<String>,
        since: Option<String>,
        before: Option<String>,
        limit: u32,
        trashed: bool,
    },
    /// Create a new note.
    Create { title: String, body: Option<String>, body_file: Option<String>, tags: Option<String> },
    /// Replace a note's body by ID.
    Edit { id: String, body: Option<String>, body_file: Option<String> },
    /// Append text to a note by ID.
    Append { id: String, text: Option<String>, text_file: Option<String>, header: Option<String> },
    /// Prepend text to a note by ID.
    Prepend { id: String, text: Option<String>, text_file: Option<String> },
    /// Extract a section from a note by header.
    Section { id_or_title: String, header: String },
    /// Move a note to the trash by ID.
    Trash { id: String },
    /// Archive a note by ID.
    Archive { id: String },
    /// Tag operations.
    Tag { action: TagAction },
    /// List untagged notes.
    Untagged { trashed: bool },
    /// Find notes that link to a given note.
    Backlinks { id_or_title: String },
    /// Show statistics.
    Stats,
    /// Batch operations.
    Batch { action: BatchAction },
    /// Export notes as Markdown files.
    Export { output: String, tag: Option<String>, since: Option<String>, before: Option<String> },
    /// Check the Bear installation and database.
    Health,
}

/// The tag operations.
#[allow(inconsistent_fields)]
#[derive(Debug)]
pub enum TagAction {
    /// List all tags as a tree.
    List { trashed: bool },
    /// Add tags to a note by ID.
    Add { id: String, tags: String },
    /// Rename a tag.
    Rename { old: String, new: String },
    /// Delete a tag.
    Delete { name: String },
}

/// The batch operations.
#[derive(Debug)]
pub enum BatchAction {
    /// Add tags to every note a search finds.
    Tag { filter: String, tags: String },
    /// Archive every note a search finds.
    Archive { filter: String },
}

} // verus!
