use cornell_notes::validate::is_valid_version;
use cornell_notes::{
    Content, CornellNote, CornellNoteError, Cue, CueType, Note, NoteType, Section, Summary,
    Timestamp, Uuid,
};

const SAMPLE_ID: u128 = 0x67e5504410b1426f9247bb680e5fe0c8;
const SAMPLE_TEXT: &str = "67e55044-10b1-426f-9247-bb680e5fe0c8";

fn simple(text: &str) -> Content {
    Content::Simple(text.to_string())
}

fn earlier_than(t: Timestamp) -> Timestamp {
    Timestamp { seconds: t.seconds - 1, nanos: t.nanos }
}

fn valid_note() -> CornellNote {
    let mut note = CornellNote::new("Title".to_string());
    let mut section = Section::new(0);
    section.add_cue(Cue::new(simple("cue"), CueType::Text, 0));
    section.add_note(Note::new(simple("note"), NoteType::Text, 0));
    note.add_section(section);
    note
}

fn validation_message(r: Result<(), CornellNoteError>) -> String {
    match r {
        Err(CornellNoteError::ValidationError(m)) => m,
        other => panic!("expected a validation error, got {:?}", other),
    }
}

#[test]
fn version_format_cases() {
    assert!(is_valid_version("1.0"));
    assert!(is_valid_version("10.25"));
    assert!(is_valid_version("0.0"));
    assert!(!is_valid_version(""));
    assert!(!is_valid_version("1"));
    assert!(!is_valid_version("1."));
    assert!(!is_valid_version(".1"));
    assert!(!is_valid_version("1.0.0"));
    assert!(!is_valid_version("a.b"));
    assert!(!is_valid_version("1.0\n"));
    assert!(!is_valid_version(" 1.0"));
    assert!(!is_valid_version("1..0"));
    assert!(!is_valid_version("\u{ff11}.\u{ff10}"));
}

#[test]
fn invalid_version_message() {
    let mut note = valid_note();
    note.version = "2".to_string();
    match note.validate() {
        Err(CornellNoteError::InvalidVersion(m)) => {
            assert_eq!(m, "Version '2' does not match required format (e.g., '1.0')")
        }
        other => panic!("unexpected {:?}", other),
    }
}

#[test]
fn valid_note_passes() {
    assert!(valid_note().validate().is_ok());
}

#[test]
fn empty_title_message() {
    let mut note = valid_note();
    note.metadata.title = String::new();
    assert_eq!(validation_message(note.validate()), "Title cannot be empty");
}

#[test]
fn metadata_dates_message() {
    let mut note = valid_note();
    note.metadata.modified = earlier_than(note.metadata.created);
    assert_eq!(
        validation_message(note.validate()),
        "Modified date cannot be before created date"
    );
}

#[test]
fn no_sections_message() {
    let note = CornellNote::new("Title".to_string());
    assert_eq!(
        validation_message(note.validate()),
        "Document must contain at least one section"
    );
}

#[test]
fn duplicate_section_id_message() {
    let mut note = valid_note();
    let mut second = Section::new(1);
    note.sections[0].id = Uuid::from_u128(SAMPLE_ID);
    second.id = Uuid::from_u128(SAMPLE_ID);
    note.add_section(second);
    assert_eq!(
        validation_message(note.validate()),
        format!("Duplicate section ID: {}", SAMPLE_TEXT)
    );
}

#[test]
fn duplicate_section_position_message() {
    let mut note = valid_note();
    note.sections[0].position = 1234567;
    note.add_section(Section::new(1234567));
    assert_eq!(
        validation_message(note.validate()),
        "Duplicate section position: 1234567"
    );
}

#[test]
fn duplicate_cue_id_and_position_messages() {
    let mut note = valid_note();
    let mut cue = Cue::new(simple("other"), CueType::Keyword, 7);
    cue.id = note.sections[0].cues[0].id;
    let id_text = cue.id.to_hyphenated_string();
    note.sections[0].add_cue(cue);
    assert_eq!(
        validation_message(note.validate()),
        format!("Duplicate cue ID in section: {}", id_text)
    );

    let mut note = valid_note();
    note.sections[0].add_cue(Cue::new(simple("other"), CueType::Keyword, 0));
    assert_eq!(
        validation_message(note.validate()),
        "Duplicate cue position in section: 0"
    );
}

#[test]
fn duplicate_note_id_and_position_messages() {
    let mut note = valid_note();
    let mut entry = Note::new(simple("other"), NoteType::List, 3);
    entry.id = note.sections[0].notes[0].id;
    let id_text = entry.id.to_hyphenated_string();
    note.sections[0].add_note(entry);
    assert_eq!(
        validation_message(note.validate()),
        format!("Duplicate note ID in section: {}", id_text)
    );

    let mut note = valid_note();
    note.sections[0].add_note(Note::new(simple("other"), NoteType::Code, 0));
    assert_eq!(
        validation_message(note.validate()),
        "Duplicate note position in section: 0"
    );
}

#[test]
fn entry_dates_messages() {
    let mut note = valid_note();
    let created = note.sections[0].cues[0].created;
    note.sections[0].cues[0].modified = earlier_than(created);
    note.sections[0].cues[0].id = Uuid::from_u128(SAMPLE_ID);
    assert_eq!(
        validation_message(note.validate()),
        format!("Cue {} has modified date before created date", SAMPLE_TEXT)
    );

    let mut note = valid_note();
    let created = note.sections[0].notes[0].created;
    note.sections[0].notes[0].modified = Timestamp { seconds: created.seconds, nanos: 0 };
    note.sections[0].notes[0].created = Timestamp { seconds: created.seconds, nanos: 1 };
    note.sections[0].notes[0].id = Uuid::from_u128(SAMPLE_ID);
    assert_eq!(
        validation_message(note.validate()),
        format!("Note {} has modified date before created date", SAMPLE_TEXT)
    );

    let mut note = valid_note();
    note.summary.modified = earlier_than(note.summary.created);
    assert_eq!(
        validation_message(note.validate()),
        "Summary has modified date before created date"
    );
}

#[test]
fn unknown_cue_link_message() {
    let mut note = valid_note();
    let mut entry = Note::new_with_links(
        simple("linked"),
        NoteType::Link,
        1,
        vec![note.sections[0].cues[0].id, Uuid::from_u128(SAMPLE_ID)],
    );
    entry.id = Uuid::from_u128(1);
    note.sections[0].add_note(entry);
    assert_eq!(
        validation_message(note.validate()),
        format!(
            "Note 00000000-0000-0000-0000-000000000001 references non-existent cue: {}",
            SAMPLE_TEXT
        )
    );
}

#[test]
fn links_to_cues_of_another_section_are_refused() {
    let mut note = valid_note();
    let other_cue = note.sections[0].cues[0].id;
    let mut second = Section::new(1);
    second.add_note(Note::new_with_links(simple("n"), NoteType::Text, 0, vec![other_cue]));
    note.add_section(second);
    assert!(note.validate().is_err());
}

#[test]
fn first_broken_rule_is_reported() {
    // Section 0 has a cue with bad dates; section 1 repeats section 0's position.
    let mut note = valid_note();
    let created = note.sections[0].cues[0].created;
    note.sections[0].cues[0].modified = earlier_than(created);
    note.sections[0].cues[0].id = Uuid::from_u128(SAMPLE_ID);
    note.add_section(Section::new(0));
    assert_eq!(
        validation_message(note.validate()),
        format!("Cue {} has modified date before created date", SAMPLE_TEXT)
    );
}

#[test]
fn fresh_entries_pass_their_checks() {
    assert!(Cue::new(simple("c"), CueType::Custom, 4).validate().is_ok());
    assert!(Note::new(simple("n"), NoteType::Image, 4).validate().is_ok());
    assert!(Summary::new(simple("s")).validate().is_ok());
    assert!(Section::new(9).validate().is_ok());
    assert!(CornellNote::new("t".to_string()).metadata.validate().is_ok());
}

#[test]
fn constructors_stamp_one_time_and_fresh_ids() {
    let note = CornellNote::new("Title".to_string());
    assert_eq!(note.metadata.created, note.metadata.modified);
    assert_eq!(note.summary.created, note.metadata.created);
    assert_eq!(note.summary.modified, note.metadata.created);
    assert!(note.metadata.created.seconds > 1_600_000_000);
    assert_eq!(note.summary.content, Content::Simple(String::new()));
    let a = Section::new(0);
    let b = Section::new(0);
    assert_ne!(a.id, b.id);
}

#[test]
fn uuid_text_and_version() {
    assert_eq!(Uuid::from_u128(SAMPLE_ID).to_hyphenated_string(), SAMPLE_TEXT);
    assert_eq!(
        Uuid::from_u128(0).to_hyphenated_string(),
        "00000000-0000-0000-0000-000000000000"
    );
    assert_eq!(
        Uuid::from_u128(u128::MAX).to_hyphenated_string(),
        "ffffffff-ffff-ffff-ffff-ffffffffffff"
    );
    let id = Uuid::new_v4();
    let text = id.to_hyphenated_string();
    assert_eq!(text.as_bytes()[14], b'4');
    assert!(matches!(text.as_bytes()[19], b'8' | b'9' | b'a' | b'b'));
    assert_eq!(Uuid::from_u128(id.as_u128()), id);
}

#[test]
fn error_display_text() {
    let e = CornellNoteError::ValidationError("Title cannot be empty".to_string());
    assert_eq!(e.to_string(), "Validation error: Title cannot be empty");
    let e = CornellNoteError::InvalidVersion("x".to_string());
    assert_eq!(e.to_string(), "Invalid version format: x");
    let e = CornellNoteError::JsonError("bad".to_string());
    assert_eq!(e.to_string(), "JSON parsing error: bad");
}

#[test]
fn update_summary_and_add_section_keep_the_rest() {
    let mut note = valid_note();
    let before = note.clone();
    note.update_summary(simple("new summary"));
    assert_eq!(note.summary.content, simple("new summary"));
    assert_eq!(note.summary.created, before.summary.created);
    assert_eq!(note.sections, before.sections);
    assert_eq!(note.metadata.title, before.metadata.title);
    assert_eq!(note.metadata.created, before.metadata.created);
    let section = Section::new(5);
    note.add_section(section.clone());
    assert_eq!(note.sections.len(), 2);
    assert_eq!(note.sections[1], section);
}

fn linked_section() -> Section {
    let mut section = Section::new(0);
    let first = Cue::new(simple("first"), CueType::Text, 0);
    let second = Cue::new(simple("second"), CueType::Text, 1);
    let links = vec![first.id, second.id];
    section.add_cue(first);
    section.add_cue(second);
    section.add_note(Note::new_with_links(simple("a"), NoteType::Text, 0, links));
    section.add_note(Note::new(simple("b"), NoteType::Text, 1));
    section
}

#[test]
fn section_check_ignores_entry_order() {
    let section = linked_section();
    assert!(section.validate().is_ok());
    let mut reordered = section.clone();
    reordered.cues.reverse();
    reordered.notes.reverse();
    assert!(reordered.validate().is_ok());

    let mut broken = section.clone();
    broken.cues[1].position = 0;
    let mut broken_reordered = broken.clone();
    broken_reordered.cues.reverse();
    assert!(broken.validate().is_err());
    assert!(broken_reordered.validate().is_err());
}

#[test]
fn adding_a_cue_or_removing_a_note_keeps_a_section_valid() {
    let mut section = linked_section();
    section.add_cue(Cue::new(simple("third"), CueType::Keyword, 2));
    assert!(section.validate().is_ok());
    let mut without_first = linked_section();
    without_first.notes.remove(0);
    assert!(without_first.validate().is_ok());
    let mut without_second = linked_section();
    without_second.notes.remove(1);
    assert!(without_second.validate().is_ok());
}
