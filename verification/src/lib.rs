//! Cornell Notes: the data model of a Cornell note (cues, notes, sections,
//! summary), its validation rules and its Markdown export, with contracts
//! that Verus checks.

pub mod error;
pub mod ids;
pub mod markdown;
pub mod model;
pub mod order;
pub mod rearrange;
pub mod text;
pub mod time;
pub mod validate;
pub mod validity;

pub use error::{CornellNoteError, ErrorKind};
pub use ids::Uuid;
pub use markdown::to_markdown;
pub use time::Timestamp;
pub use model::{
    Attachment, Content, ContentFormat, CornellNote, Cue, CueType, Metadata, Note, NoteType,
    Section, StructuredContent, Summary,
};
