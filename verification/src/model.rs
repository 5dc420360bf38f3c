//! The Cornell note data model: cues (left column), notes (right column),
//! sections grouping them, the summary and the document with its metadata.
//! Constructors stamp fresh identifiers and the current time; like the
//! clock and random source they read, they panic when the system clock reads
//! a time before 1970 or the operating system's random source fails.

use crate::ids::{is_random_v4, Uuid};
use crate::time::{current_time, is_clock_reading, Timestamp};
use vstd::prelude::*;

verus! {

/// Type of cue entry
#[derive(Debug, Clone, Copy, PartialEq, Eq, Structural)]
pub enum CueType {
    Text,
    Question,
    Keyword,
    Custom,
}

/// Type of note entry
#[derive(Debug, Clone, Copy, PartialEq, Eq, Structural)]
pub enum NoteType {
    Text,
    List,
    Code,
    Image,
    Link,
    Custom,
}

/// Content format for structured content
#[derive(Debug, Clone, Copy, PartialEq, Eq, Structural)]
pub enum ContentFormat {
    Markdown,
    Html,
    Plain,
}

/// Attachment metadata
#[derive(Debug, Clone, PartialEq)]
pub struct Attachment {
    pub attachment_type: String,
    pub url: String,
    /// Free-form metadata, as JSON text.
    pub metadata: Option<String>,
}

/// Structured content with format and optional attachments
#[derive(Debug, Clone, PartialEq)]
pub struct StructuredContent {
    pub format: ContentFormat,
    pub data: String,
    pub attachments: Option<Vec<Attachment>>,
}

/// Content can be either a simple string or structured object
#[derive(Debug, Clone, PartialEq)]
pub enum Content {
    Simple(String),
    Structured(StructuredContent),
}

/// Metadata for the Cornell Note document
#[derive(Debug, Clone, PartialEq)]
pub struct Metadata {
    pub id: Uuid,
    pub title: String,
    pub created: Timestamp,
    pub modified: Timestamp,
    pub subject: Option<String>,
    pub topic: Option<String>,
    pub author: Option<String>,
    pub tags: Option<Vec<String>>,
}

/// A cue entry in the left column
#[derive(Debug, Clone, PartialEq)]
pub struct Cue {
    pub id: Uuid,
    pub content: Content,
    pub cue_type: CueType,
    pub position: u32,
    pub created: Timestamp,
    pub modified: Timestamp,
}

/// A note entry in the right column
#[derive(Debug, Clone, PartialEq)]
pub struct Note {
    pub id: Uuid,
    pub content: Content,
    pub note_type: NoteType,
    pub position: u32,
    pub created: Timestamp,
    pub modified: Timestamp,
    pub cue_links: Option<Vec<Uuid>>,
}

/// A section containing cues and notes
#[derive(Debug, Clone, PartialEq)]
pub struct Section {
    pub id: Uuid,
    pub cues: Vec<Cue>,
    pub notes: Vec<Note>,
    pub position: u32,
}

/// Summary section at the bottom
#[derive(Debug, Clone, PartialEq)]
pub struct Summary {
    pub content: Content,
    pub created: Timestamp,
    pub modified: Timestamp,
}

/// Complete Cornell Note document
#[derive(Debug, Clone, PartialEq)]
pub struct CornellNote {
    pub version: String,
    pub metadata: Metadata,
    pub sections: Vec<Section>,
    pub summary: Summary,
}

/// The text of a content: the string itself, or the data of structured content.
pub open spec fn content_text(c: Content) -> Seq<char> {
    match c {
        Content::Simple(s) => s@,
        Content::Structured(sc) => sc.data@,
    }
}

/// `a` and `b` agree on every field but `modified`.
pub open spec fn same_but_modified(a: Metadata, b: Metadata) -> bool {
    &&& a.id == b.id
    &&& a.title == b.title
    &&& a.created == b.created
    &&& a.subject == b.subject
    &&& a.topic == b.topic
    &&& a.author == b.author
    &&& a.tags == b.tags
}

impl CornellNote {
    /// Create a new Cornell Note with default values: version `1.0`, the
    /// given title, a fresh identifier, no sections, an empty summary, and
    /// one current time as every creation and modification time.
    pub fn new(title: String) -> (note: CornellNote)
        ensures
            note.version@ == "1.0"@,
            is_random_v4(note.metadata.id),
            note.metadata.title == title,
            note.metadata.modified == note.metadata.created,
            is_clock_reading(note.metadata.created),
            note.summary.created == note.metadata.created,
            note.summary.modified == note.metadata.created,
            note.metadata.subject is None,
            note.metadata.topic is None,
            note.metadata.author is None,
            note.metadata.tags is None,
            note.sections@.len() == 0,
            note.summary.content matches Content::Simple(s) && s@.len() == 0,
    {
        let now = current_time();
        CornellNote {
            version: String::from_str("1.0"),
            metadata: Metadata {
                id: Uuid::new_v4(),
                title,
                created: now,
                modified: now,
                subject: None,
                topic: None,
                author: None,
                tags: None,
            },
            sections: Vec::new(),
            summary: Summary { content: Content::Simple(String::new()), created: now, modified: now },
        }
    }

    /// Add a new section to the note (at the end) and stamp the current time
    /// as the document's modification time.
    pub fn add_section(&mut self, section: Section)
        ensures
            final(self).sections@ == old(self).sections@.push(section),
            is_clock_reading(final(self).metadata.modified),
            final(self).version == old(self).version,
            final(self).summary == old(self).summary,
            same_but_modified(final(self).metadata, old(self).metadata),
    {
        self.sections.push(section);
        self.metadata.modified = current_time();
    }

    /// Update the summary: replace its content and stamp the current time as
    /// the summary's and the document's modification time.
    pub fn update_summary(&mut self, content: Content)
        ensures
            final(self).summary.content == content,
            final(self).summary.created == old(self).summary.created,
            is_clock_reading(final(self).summary.modified),
            is_clock_reading(final(self).metadata.modified),
            final(self).sections == old(self).sections,
            final(self).version == old(self).version,
            same_but_modified(final(self).metadata, old(self).metadata),
    {
        self.summary.content = content;
        self.summary.modified = current_time();
        self.metadata.modified = current_time();
    }
}

impl Section {
    /// Create a new empty section at the given position, with a fresh identifier.
    pub fn new(position: u32) -> (section: Section)
        ensures
            section.position == position,
            is_random_v4(section.id),
            section.cues@.len() == 0,
            section.notes@.len() == 0,
    {
        Section { id: Uuid::new_v4(), cues: Vec::new(), notes: Vec::new(), position }
    }

    /// Add a cue to this section (at the end)
    pub fn add_cue(&mut self, cue: Cue)
        ensures
            final(self).cues@ == old(self).cues@.push(cue),
            final(self).notes == old(self).notes,
            final(self).id == old(self).id,
            final(self).position == old(self).position,
    {
        self.cues.push(cue);
    }

    /// Add a note to this section (at the end)
    pub fn add_note(&mut self, note: Note)
        ensures
            final(self).notes@ == old(self).notes@.push(note),
            final(self).cues == old(self).cues,
            final(self).id == old(self).id,
            final(self).position == old(self).position,
    {
        self.notes.push(note);
    }
}

impl Cue {
    /// Create a new cue with a fresh identifier, created and modified now.
    pub fn new(content: Content, cue_type: CueType, position: u32) -> (cue: Cue)
        ensures
            is_random_v4(cue.id),
            cue.content == content,
            cue.cue_type == cue_type,
            cue.position == position,
            cue.modified == cue.created,
            is_clock_reading(cue.created),
    {
        let now = current_time();
        Cue { id: Uuid::new_v4(), content, cue_type, position, created: now, modified: now }
    }
}

impl Note {
    /// Create a new note without cue links, with a fresh identifier, created and modified now.
    pub fn new(content: Content, note_type: NoteType, position: u32) -> (note: Note)
        ensures
            is_random_v4(note.id),
            note.content == content,
            note.note_type == note_type,
            note.position == position,
            note.modified == note.created,
            is_clock_reading(note.created),
            note.cue_links is None,
    {
        let now = current_time();
        Note {
            id: Uuid::new_v4(),
            content,
            note_type,
            position,
            created: now,
            modified: now,
            cue_links: None,
        }
    }

    /// Create a new note with cue links, with a fresh identifier, created and modified now.
    pub fn new_with_links(content: Content, note_type: NoteType, position: u32, cue_links: Vec<
        Uuid,
    >) -> (note: Note)
        ensures
            is_random_v4(note.id),
            note.content == content,
            note.note_type == note_type,
            note.position == position,
            note.modified == note.created,
            is_clock_reading(note.created),
            note.cue_links == Some(cue_links),
    {
        let now = current_time();
        Note {
            id: Uuid::new_v4(),
            content,
            note_type,
            position,
            created: now,
            modified: now,
            cue_links: Some(cue_links),
        }
    }
}

impl Summary {
    /// Create a new summary, created and modified now.
    pub fn new(content: Content) -> (summary: Summary)
        ensures
            summary.content == content,
            summary.modified == summary.created,
            is_clock_reading(summary.created),
    {
        let now = current_time();
        Summary { content, created: now, modified: now }
    }
}

/// Helper function to extract content as a string
pub(crate) fn content_to_string(content: &Content) -> (s: String)
    ensures
        s@ == content_text(*content),
{
    match content {
        Content::Simple(s) => s.clone(),
        Content::Structured(structured) => structured.data.clone(),
    }
}

} // verus!
