use cornell_notes::{
    to_markdown, Content, ContentFormat, CornellNote, Cue, CueType, Note, NoteType, Section,
    StructuredContent,
};

fn simple(text: &str) -> Content {
    Content::Simple(text.to_string())
}

#[test]
fn markdown_exact_text_orders_by_position() {
    let mut note = CornellNote::new("T".to_string());
    let mut late = Section::new(2);
    late.add_cue(Cue::new(simple("b"), CueType::Text, 1));
    late.add_cue(Cue::new(simple("a"), CueType::Text, 0));
    late.add_cue(Cue::new(simple("c"), CueType::Text, 1));
    let mut early = Section::new(0);
    early.add_note(Note::new(simple("x"), NoteType::Text, 5));
    early.add_note(Note::new(
        Content::Structured(StructuredContent {
            format: ContentFormat::Html,
            data: "y".to_string(),
            attachments: None,
        }),
        NoteType::Text,
        3,
    ));
    note.add_section(late);
    note.add_section(early);
    note.update_summary(simple("S"));
    assert_eq!(
        to_markdown(&note),
        "# T\n\n## Section 1\n\n### Notes\n\ny\n\nx\n\n## Section 3\n\n### Cues\n\n- a\n- b\n- c\n\n## Summary\n\nS\n"
    );
}

#[test]
fn markdown_of_empty_note() {
    let note = CornellNote::new("Only".to_string());
    assert_eq!(to_markdown(&note), "# Only\n\n## Summary\n\n\n");
}

#[test]
fn markdown_metadata_lines() {
    let mut note = CornellNote::new("M".to_string());
    note.metadata.author = Some("A".to_string());
    note.metadata.tags = Some(vec![]);
    assert_eq!(to_markdown(&note), "# M\n\n**Author:** A\n\n## Summary\n\n\n");
    note.metadata.subject = Some("S".to_string());
    note.metadata.tags = Some(vec!["x".to_string(), "y".to_string(), "z".to_string()]);
    assert_eq!(
        to_markdown(&note),
        "# M\n\n**Subject:** S\n**Author:** A\n**Tags:** x, y, z\n\n## Summary\n\n\n"
    );
}

#[test]
fn markdown_section_numbers_follow_positions() {
    let mut note = CornellNote::new("N".to_string());
    note.add_section(Section::new(41));
    note.add_section(Section::new(7));
    assert_eq!(
        to_markdown(&note),
        "# N\n\n## Section 8\n\n## Section 42\n\n## Summary\n\n\n"
    );
}

#[test]
fn markdown_metadata_block_layout() {
    let mut n = CornellNote::new("T".to_string());
    n.metadata.subject = Some("A".to_string());
    n.metadata.topic = Some("B".to_string());
    let text = to_markdown(&n);
    assert!(text.starts_with("# T\n\n**Subject:** A\n**Topic:** B\n"));
    assert_eq!(text, "# T\n\n**Subject:** A\n**Topic:** B\n\n## Summary\n\n\n");
}

fn sample_note() -> CornellNote {
    let mut note = CornellNote::new("Laws".to_string());
    note.metadata.tags = Some(vec!["t".to_string()]);
    for (position, texts) in [(3u32, ["c3", "d3"]), (1u32, ["c1", "d1"])] {
        let mut section = Section::new(position);
        section.add_cue(Cue::new(simple(texts[0]), CueType::Text, 9));
        section.add_cue(Cue::new(simple(texts[1]), CueType::Question, 2));
        section.add_note(Note::new(simple(texts[1]), NoteType::Text, 4));
        section.add_note(Note::new(simple(texts[0]), NoteType::Code, 0));
        note.add_section(section);
    }
    note
}

#[test]
fn export_ignores_storage_order() {
    let note = sample_note();
    let mut reordered = note.clone();
    reordered.sections.reverse();
    for section in reordered.sections.iter_mut() {
        section.cues.reverse();
        section.notes.reverse();
    }
    assert_eq!(to_markdown(&note), to_markdown(&reordered));
}

#[test]
fn export_reads_only_printed_fields() {
    let note = sample_note();
    let mut other = note.clone();
    other.version = "9.9".to_string();
    other.metadata.id = cornell_notes::Uuid::new_v4();
    other.metadata.modified.seconds -= 100;
    for section in other.sections.iter_mut() {
        section.id = cornell_notes::Uuid::new_v4();
        for cue in section.cues.iter_mut() {
            cue.cue_type = CueType::Custom;
            cue.created.seconds += 5;
        }
        for entry in section.notes.iter_mut() {
            entry.note_type = NoteType::Image;
            entry.cue_links = Some(vec![]);
        }
    }
    assert_eq!(to_markdown(&note), to_markdown(&other));
}
