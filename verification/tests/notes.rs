use cornell_notes::{
    Content, ContentFormat, CornellNote, CornellNoteError, Cue, CueType, Note, NoteType, Section,
    StructuredContent, Uuid,
};

#[test]
fn test_create_new_note() {
    let note = CornellNote::new("Test Note".to_string());
    assert_eq!(note.version, "1.0");
    assert_eq!(note.metadata.title, "Test Note");
    assert!(note.sections.is_empty());
}

#[test]
fn test_validation_requires_sections() {
    let note = CornellNote::new("Test".to_string());
    assert!(note.validate().is_err());
}

#[test]
fn test_version_validation() {
    let mut note = CornellNote::new("Test".to_string());
    note.version = "invalid".to_string();
    let result = note.validate();
    assert!(result.is_err());
    match result {
        Err(CornellNoteError::InvalidVersion(_)) => (),
        _ => panic!("Expected InvalidVersion error"),
    }
}

#[test]
fn test_empty_title_validation() {
    let mut note = CornellNote::new("".to_string());
    let mut section = Section::new(0);
    section.add_cue(Cue::new(
        Content::Simple("Test cue".to_string()),
        CueType::Text,
        0,
    ));
    note.add_section(section);
    assert!(note.validate().is_err());
}

#[test]
fn test_valid_note_with_section() {
    let mut note = CornellNote::new("Valid Note".to_string());
    let mut section = Section::new(0);

    let cue = Cue::new(
        Content::Simple("What is Rust?".to_string()),
        CueType::Question,
        0,
    );
    section.add_cue(cue);

    let note_entry = Note::new(
        Content::Simple("A systems programming language".to_string()),
        NoteType::Text,
        0,
    );
    section.add_note(note_entry);

    note.add_section(section);
    assert!(note.validate().is_ok());
}

#[test]
fn test_cue_links_validation() {
    let mut note = CornellNote::new("Test".to_string());
    let mut section = Section::new(0);

    let cue = Cue::new(Content::Simple("Cue".to_string()), CueType::Text, 0);
    let cue_id = cue.id;
    section.add_cue(cue);

    // Valid cue link
    let note_entry = Note::new_with_links(
        Content::Simple("Note".to_string()),
        NoteType::Text,
        0,
        vec![cue_id],
    );
    section.add_note(note_entry);

    note.add_section(section);
    assert!(note.validate().is_ok());
}

#[test]
fn test_invalid_cue_links() {
    let mut note = CornellNote::new("Test".to_string());
    let mut section = Section::new(0);

    // Add note with link to non-existent cue
    let note_entry = Note::new_with_links(
        Content::Simple("Note".to_string()),
        NoteType::Text,
        0,
        vec![Uuid::new_v4()],
    );
    section.add_note(note_entry);

    note.add_section(section);
    assert!(note.validate().is_err());
}

#[test]
fn test_structured_content() {
    let structured = StructuredContent {
        format: ContentFormat::Markdown,
        data: "# Header\n\nContent".to_string(),
        attachments: None,
    };

    let content = Content::Structured(structured);
    let cue = Cue::new(content, CueType::Text, 0);
    assert!(cue.validate().is_ok());
}

#[test]
fn test_duplicate_section_ids() {
    let mut note = CornellNote::new("Test".to_string());
    let section1 = Section::new(0);
    let mut section2 = Section::new(1);
    section2.id = section1.id; // Duplicate ID

    note.add_section(section1);
    note.add_section(section2);

    assert!(note.validate().is_err());
}

#[test]
fn test_duplicate_cue_positions() {
    let mut note = CornellNote::new("Test".to_string());
    let mut section = Section::new(0);

    section.add_cue(Cue::new(
        Content::Simple("Cue 1".to_string()),
        CueType::Text,
        0,
    ));
    section.add_cue(Cue::new(
        Content::Simple("Cue 2".to_string()),
        CueType::Text,
        0, // Duplicate position
    ));

    note.add_section(section);
    assert!(note.validate().is_err());
}

#[test]
fn test_markdown_export() {
    let mut note = CornellNote::new("Introduction to Rust".to_string());
    note.metadata.subject = Some("Computer Science".to_string());
    note.metadata.topic = Some("Programming Languages".to_string());
    note.metadata.author = Some("Student".to_string());
    note.metadata.tags = Some(vec!["rust".to_string(), "programming".to_string()]);

    let mut section = Section::new(0);

    section.add_cue(Cue::new(
        Content::Simple("What is Rust?".to_string()),
        CueType::Question,
        0,
    ));
    section.add_cue(Cue::new(
        Content::Simple("Memory Safety".to_string()),
        CueType::Keyword,
        1,
    ));

    section.add_note(Note::new(
        Content::Simple("A systems programming language".to_string()),
        NoteType::Text,
        0,
    ));
    section.add_note(Note::new(
        Content::Structured(StructuredContent {
            format: ContentFormat::Markdown,
            data: "Rust provides memory safety without GC".to_string(),
            attachments: None,
        }),
        NoteType::Text,
        1,
    ));

    note.add_section(section);
    note.update_summary(Content::Simple(
        "Rust is a safe systems language".to_string(),
    ));

    let markdown = cornell_notes::to_markdown(&note);

    assert!(markdown.contains("# Introduction to Rust"));
    assert!(markdown.contains("**Subject:** Computer Science"));
    assert!(markdown.contains("**Topic:** Programming Languages"));
    assert!(markdown.contains("**Author:** Student"));
    assert!(markdown.contains("**Tags:** rust, programming"));
    assert!(markdown.contains("## Section 1"));
    assert!(markdown.contains("### Cues"));
    assert!(markdown.contains("- What is Rust?"));
    assert!(markdown.contains("- Memory Safety"));
    assert!(markdown.contains("### Notes"));
    assert!(markdown.contains("A systems programming language"));
    assert!(markdown.contains("Rust provides memory safety without GC"));
    assert!(markdown.contains("## Summary"));
    assert!(markdown.contains("Rust is a safe systems language"));
}
