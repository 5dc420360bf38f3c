//! Validity stated rule by rule, and the laws that relate it to the checks
//! of `validate`, to the constructors and to adding entries.

use crate::ids::Uuid;
use crate::rearrange::{lemma_inverse_rearranges, rearranges};
use crate::model::{same_but_modified, CornellNote, Cue, Metadata, Note, Section, Summary};
use crate::time::earlier;
use crate::validate::{
    cue_fault, cue_fault_at, document_fault, first_cue_fault, first_note_fault,
    first_section_fault, first_unknown_link, has_cue, invalid, is_ascii_digit, is_version_format,
    metadata_fault,
    note_fault, note_fault_at, section_fault, section_fault_at, summary_fault,
};
use vstd::prelude::*;

verus! {

// ---------------------------------------------------------------------------
// Validity stated rule by rule
// ---------------------------------------------------------------------------

/// The cues of a section have distinct identifiers, distinct positions, and
/// modification times that are not before their creation times.
pub open spec fn cues_well_formed(cues: Seq<Cue>) -> bool {
    &&& forall|a: int, b: int| 0 <= a < b < cues.len() ==> #[trigger] cues[a].id != #[trigger] cues[b].id
    &&& forall|a: int, b: int|
        0 <= a < b < cues.len() ==> #[trigger] cues[a].position != #[trigger] cues[b].position
    &&& forall|i: int| 0 <= i < cues.len() ==> !earlier(#[trigger] cues[i].modified, cues[i].created)
}

/// Every link of `links` names a cue of `cues`.
pub open spec fn links_resolve(cues: Seq<Cue>, links: Seq<Uuid>) -> bool {
    forall|k: int| 0 <= k < links.len() ==> has_cue(cues, #[trigger] links[k])
}

/// The note entries of a section have distinct identifiers, distinct
/// positions, modification times that are not before their creation times,
/// and cue links that name cues of the section.
pub open spec fn notes_well_formed(cues: Seq<Cue>, notes: Seq<Note>) -> bool {
    &&& forall|a: int, b: int| 0 <= a < b < notes.len() ==> #[trigger] notes[a].id != #[trigger] notes[b].id
    &&& forall|a: int, b: int|
        0 <= a < b < notes.len() ==> #[trigger] notes[a].position != #[trigger] notes[b].position
    &&& forall|i: int| 0 <= i < notes.len() ==> !earlier(#[trigger] notes[i].modified, notes[i].created)
    &&& forall|i: int|
        0 <= i < notes.len() ==> (#[trigger] notes[i].cue_links matches Some(links) ==> links_resolve(
            cues,
            links@,
        ))
}

/// A section obeys every rule of the schema.
pub open spec fn section_well_formed(s: Section) -> bool {
    cues_well_formed(s.cues@) && notes_well_formed(s.cues@, s.notes@)
}

/// A document obeys every rule of the schema: its version has the form
/// `digits.digits`, its title is not empty, it has at least one section,
/// its sections have distinct identifiers and positions and each obeys the
/// rules of a section, and no modification time is before its creation time.
pub open spec fn document_well_formed(n: CornellNote) -> bool {
    &&& is_version_format(n.version@)
    &&& n.metadata.title@.len() > 0
    &&& !earlier(n.metadata.modified, n.metadata.created)
    &&& n.sections@.len() > 0
    &&& forall|a: int, b: int|
        0 <= a < b < n.sections@.len() ==> #[trigger] n.sections@[a].id != #[trigger] n.sections@[b].id
    &&& forall|a: int, b: int|
        0 <= a < b < n.sections@.len() ==> #[trigger] n.sections@[a].position
            != #[trigger] n.sections@[b].position
    &&& forall|i: int| 0 <= i < n.sections@.len() ==> section_well_formed(#[trigger] n.sections@[i])
    &&& !earlier(n.summary.modified, n.summary.created)
}

proof fn lemma_no_cue_fault(cues: Seq<Cue>, n: int)
    requires
        0 <= n <= cues.len(),
    ensures
        first_cue_fault(cues, n) is None <==> forall|i: int|
            0 <= i < n ==> #[trigger] cue_fault_at(cues, i) is None,
    decreases n,
{
    if n > 0 {
        lemma_no_cue_fault(cues, n - 1);
    }
}

proof fn lemma_no_note_fault(cues: Seq<Cue>, notes: Seq<Note>, n: int)
    requires
        0 <= n <= notes.len(),
    ensures
        first_note_fault(cues, notes, n) is None <==> forall|i: int|
            0 <= i < n ==> #[trigger] note_fault_at(cues, notes, i) is None,
    decreases n,
{
    if n > 0 {
        lemma_no_note_fault(cues, notes, n - 1);
    }
}

proof fn lemma_no_section_fault(sections: Seq<Section>, n: int)
    requires
        0 <= n <= sections.len(),
    ensures
        first_section_fault(sections, n) is None <==> forall|i: int|
            0 <= i < n ==> #[trigger] section_fault_at(sections, i) is None,
    decreases n,
{
    if n > 0 {
        lemma_no_section_fault(sections, n - 1);
    }
}

proof fn lemma_no_unknown_link(cues: Seq<Cue>, links: Seq<Uuid>, n: int)
    requires
        0 <= n <= links.len(),
    ensures
        first_unknown_link(cues, links, n) is None <==> forall|k: int|
            0 <= k < n ==> has_cue(cues, #[trigger] links[k]),
    decreases n,
{
    if n > 0 {
        lemma_no_unknown_link(cues, links, n - 1);
    }
}

/// Law: a section passes its check exactly when it obeys every rule of a
/// section, stated rule by rule (see `section_well_formed`).
pub proof fn lemma_section_valid_iff_well_formed(s: Section)
    ensures
        section_fault(s) is None <==> section_well_formed(s),
{
    let cues = s.cues@;
    let notes = s.notes@;
    lemma_no_cue_fault(cues, cues.len() as int);
    lemma_no_note_fault(cues, notes, notes.len() as int);
    if section_fault(s) is None {
        assert forall|a: int, b: int| 0 <= a < b < cues.len() implies #[trigger] cues[a].id
            != #[trigger] cues[b].id by {
            assert(cue_fault_at(cues, b) is None);
        }
        assert forall|a: int, b: int| 0 <= a < b < cues.len() implies #[trigger] cues[a].position
            != #[trigger] cues[b].position by {
            assert(cue_fault_at(cues, b) is None);
        }
        assert forall|i: int| 0 <= i < cues.len() implies !earlier(
            #[trigger] cues[i].modified,
            cues[i].created,
        ) by {
            assert(cue_fault_at(cues, i) is None);
        }
        assert forall|a: int, b: int| 0 <= a < b < notes.len() implies #[trigger] notes[a].id
            != #[trigger] notes[b].id by {
            assert(note_fault_at(cues, notes, b) is None);
        }
        assert forall|a: int, b: int| 0 <= a < b < notes.len() implies #[trigger] notes[a].position
            != #[trigger] notes[b].position by {
            assert(note_fault_at(cues, notes, b) is None);
        }
        assert forall|i: int| 0 <= i < notes.len() implies !earlier(
            #[trigger] notes[i].modified,
            notes[i].created,
        ) by {
            assert(note_fault_at(cues, notes, i) is None);
        }
        assert forall|i: int| 0 <= i < notes.len() implies (
        #[trigger] notes[i].cue_links matches Some(links) ==> links_resolve(cues, links@)) by {
            assert(note_fault_at(cues, notes, i) is None);
            if let Some(links) = notes[i].cue_links {
                lemma_no_unknown_link(cues, links@, links@.len() as int);
            }
        }
    }
    if section_well_formed(s) {
        assert forall|i: int| 0 <= i < cues.len() implies #[trigger] cue_fault_at(cues, i) is None by {
            if exists|j: int| 0 <= j < i && #[trigger] cues[j].id == cues[i].id {
                let j = choose|j: int| 0 <= j < i && #[trigger] cues[j].id == cues[i].id;
                assert(cues[j].id != cues[i].id);
            }
            if exists|j: int| 0 <= j < i && #[trigger] cues[j].position == cues[i].position {
                let j = choose|j: int| 0 <= j < i && #[trigger] cues[j].position == cues[i].position;
                assert(cues[j].position != cues[i].position);
            }
            assert(!earlier(cues[i].modified, cues[i].created));
        }
        assert forall|i: int| 0 <= i < notes.len() implies #[trigger] note_fault_at(cues, notes, i)
            is None by {
            if exists|j: int| 0 <= j < i && #[trigger] notes[j].id == notes[i].id {
                let j = choose|j: int| 0 <= j < i && #[trigger] notes[j].id == notes[i].id;
                assert(notes[j].id != notes[i].id);
            }
            if exists|j: int| 0 <= j < i && #[trigger] notes[j].position == notes[i].position {
                let j = choose|j: int| 0 <= j < i && #[trigger] notes[j].position == notes[i].position;
                assert(notes[j].position != notes[i].position);
            }
            assert(!earlier(notes[i].modified, notes[i].created));
            if let Some(links) = notes[i].cue_links {
                lemma_no_unknown_link(cues, links@, links@.len() as int);
            }
        }
    }
}

/// Law: a document passes validation exactly when it obeys every rule of
/// the schema, stated rule by rule (see `document_well_formed`).
pub proof fn lemma_valid_iff_well_formed(n: CornellNote)
    ensures
        document_fault(n) is None <==> document_well_formed(n),
{
    let sections = n.sections@;
    lemma_no_section_fault(sections, sections.len() as int);
    if document_fault(n) is None {
        assert forall|a: int, b: int| 0 <= a < b < sections.len() implies #[trigger] sections[a].id
            != #[trigger] sections[b].id by {
            assert(section_fault_at(sections, b) is None);
        }
        assert forall|a: int, b: int| 0 <= a < b < sections.len() implies #[trigger] sections[a].position
            != #[trigger] sections[b].position by {
            assert(section_fault_at(sections, b) is None);
        }
        assert forall|i: int| 0 <= i < sections.len() implies section_well_formed(
            #[trigger] sections[i],
        ) by {
            assert(section_fault_at(sections, i) is None);
            lemma_section_valid_iff_well_formed(sections[i]);
        }
    }
    if document_well_formed(n) {
        assert forall|i: int| 0 <= i < sections.len() implies #[trigger] section_fault_at(sections, i)
            is None by {
            if exists|j: int| 0 <= j < i && #[trigger] sections[j].id == sections[i].id {
                let j = choose|j: int| 0 <= j < i && #[trigger] sections[j].id == sections[i].id;
                assert(sections[j].id != sections[i].id);
            }
            if exists|j: int| 0 <= j < i && #[trigger] sections[j].position == sections[i].position {
                let j = choose|j: int| 0 <= j < i && #[trigger] sections[j].position == sections[i].position;
                assert(sections[j].position != sections[i].position);
            }
            lemma_section_valid_iff_well_formed(sections[i]);
        }
    }
}

// ---------------------------------------------------------------------------
// Laws relating validation to the constructors and to adding entries
// ---------------------------------------------------------------------------

/// Law: an entry whose modification time is its creation time, as every
/// constructor leaves it, passes its own check.
pub proof fn lemma_untouched_entries_pass(c: Cue, n: Note, s: Summary)
    requires
        c.modified == c.created,
        n.modified == n.created,
        s.modified == s.created,
    ensures
        cue_fault(c) is None,
        note_fault(n) is None,
        summary_fault(s) is None,
{
}

/// Law: a document as `CornellNote::new` leaves it, with a non-empty title,
/// is refused for having no section.
pub proof fn lemma_new_document_needs_a_section(n: CornellNote)
    requires
        n.version@ == "1.0"@,
        n.metadata.title@.len() > 0,
        n.metadata.modified == n.metadata.created,
        n.sections@.len() == 0,
    ensures
        document_fault(n) == invalid("Document must contain at least one section"@),
{
    reveal_strlit("1.0");
    assert(0 < 1 < n.version@.len() - 1 && n.version@[1] == '.' && (forall|i: int|
        0 <= i < n.version@.len() && i != 1 ==> is_ascii_digit(#[trigger] n.version@[i])));
}

proof fn lemma_add_cue_keeps_well_formed(before: Section, after: Section, cue: Cue)
    requires
        section_well_formed(before),
        forall|j: int| 0 <= j < before.cues@.len() ==> #[trigger] before.cues@[j].id != cue.id,
        forall|j: int| 0 <= j < before.cues@.len() ==> #[trigger] before.cues@[j].position != cue.position,
        !earlier(cue.modified, cue.created),
        after.cues@ == before.cues@.push(cue),
        after.notes == before.notes,
    ensures
        section_well_formed(after),
{
    let cues = after.cues@;
    let old_cues = before.cues@;
    assert forall|a: int, b: int| 0 <= a < b < cues.len() implies #[trigger] cues[a].id
        != #[trigger] cues[b].id by {
        if b == old_cues.len() {
            assert(old_cues[a].id != cue.id);
        } else {
            assert(old_cues[a].id != old_cues[b].id);
        }
    }
    assert forall|a: int, b: int| 0 <= a < b < cues.len() implies #[trigger] cues[a].position
        != #[trigger] cues[b].position by {
        if b == old_cues.len() {
            assert(old_cues[a].position != cue.position);
        } else {
            assert(old_cues[a].position != old_cues[b].position);
        }
    }
    assert forall|i: int| 0 <= i < cues.len() implies !earlier(
        #[trigger] cues[i].modified,
        cues[i].created,
    ) by {
        if i < old_cues.len() {
            assert(!earlier(old_cues[i].modified, old_cues[i].created));
        }
    }
    let notes = after.notes@;
    assert forall|i: int| 0 <= i < notes.len() implies (
    #[trigger] notes[i].cue_links matches Some(links) ==> links_resolve(cues, links@)) by {
        if let Some(links) = notes[i].cue_links {
            assert(links_resolve(old_cues, links@));
            assert forall|k: int| 0 <= k < links@.len() implies has_cue(
                cues,
                #[trigger] links@[k],
            ) by {
                assert(has_cue(old_cues, links@[k]));
                let j = choose|j: int| 0 <= j < old_cues.len() && #[trigger] old_cues[j].id == links@[k];
                assert(cues[j] == old_cues[j]);
            }
        }
    }
}

proof fn lemma_add_note_keeps_well_formed(before: Section, after: Section, note: Note)
    requires
        section_well_formed(before),
        forall|j: int| 0 <= j < before.notes@.len() ==> #[trigger] before.notes@[j].id != note.id,
        forall|j: int|
            0 <= j < before.notes@.len() ==> #[trigger] before.notes@[j].position != note.position,
        !earlier(note.modified, note.created),
        note.cue_links matches Some(links) ==> links_resolve(before.cues@, links@),
        after.notes@ == before.notes@.push(note),
        after.cues == before.cues,
    ensures
        section_well_formed(after),
{
    let notes = after.notes@;
    let old_notes = before.notes@;
    assert forall|a: int, b: int| 0 <= a < b < notes.len() implies #[trigger] notes[a].id
        != #[trigger] notes[b].id by {
        if b == old_notes.len() {
            assert(old_notes[a].id != note.id);
        } else {
            assert(old_notes[a].id != old_notes[b].id);
        }
    }
    assert forall|a: int, b: int| 0 <= a < b < notes.len() implies #[trigger] notes[a].position
        != #[trigger] notes[b].position by {
        if b == old_notes.len() {
            assert(old_notes[a].position != note.position);
        } else {
            assert(old_notes[a].position != old_notes[b].position);
        }
    }
    assert forall|i: int| 0 <= i < notes.len() implies !earlier(
        #[trigger] notes[i].modified,
        notes[i].created,
    ) by {
        if i < old_notes.len() {
            assert(!earlier(old_notes[i].modified, old_notes[i].created));
        }
    }
    assert forall|i: int| 0 <= i < notes.len() implies (
    #[trigger] notes[i].cue_links matches Some(links) ==> links_resolve(after.cues@, links@)) by {
        if i < old_notes.len() {
            assert(old_notes[i] == notes[i]);
        }
    }
}

proof fn lemma_add_section_keeps_well_formed(
    before: CornellNote,
    after: CornellNote,
    section: Section,
)
    requires
        document_well_formed(before),
        section_well_formed(section),
        forall|j: int|
            0 <= j < before.sections@.len() ==> #[trigger] before.sections@[j].id != section.id,
        forall|j: int|
            0 <= j < before.sections@.len() ==> #[trigger] before.sections@[j].position
                != section.position,
        after.sections@ == before.sections@.push(section),
        after.version == before.version,
        after.summary == before.summary,
        same_but_modified(after.metadata, before.metadata),
        !earlier(after.metadata.modified, after.metadata.created),
    ensures
        document_well_formed(after),
{
    let sections = after.sections@;
    let old_sections = before.sections@;
    assert forall|a: int, b: int| 0 <= a < b < sections.len() implies #[trigger] sections[a].id
        != #[trigger] sections[b].id by {
        if b == old_sections.len() {
            assert(old_sections[a].id != section.id);
        } else {
            assert(old_sections[a].id != old_sections[b].id);
        }
    }
    assert forall|a: int, b: int| 0 <= a < b < sections.len() implies #[trigger] sections[a].position
        != #[trigger] sections[b].position by {
        if b == old_sections.len() {
            assert(old_sections[a].position != section.position);
        } else {
            assert(old_sections[a].position != old_sections[b].position);
        }
    }
    assert forall|i: int| 0 <= i < sections.len() implies section_well_formed(
        #[trigger] sections[i],
    ) by {
        if i < old_sections.len() {
            assert(section_well_formed(old_sections[i]));
        }
    }
}

/// Law: adding to a section that passes its check a cue with a new
/// identifier, a new position and a passing date check (as `Section::add_cue`
/// does) gives a section that passes its check.
pub proof fn lemma_add_cue_keeps_section_valid(before: Section, after: Section, cue: Cue)
    requires
        section_fault(before) is None,
        forall|j: int| 0 <= j < before.cues@.len() ==> #[trigger] before.cues@[j].id != cue.id,
        forall|j: int| 0 <= j < before.cues@.len() ==> #[trigger] before.cues@[j].position != cue.position,
        cue_fault(cue) is None,
        after.cues@ == before.cues@.push(cue),
        after.notes == before.notes,
    ensures
        section_fault(after) is None,
{
    lemma_section_valid_iff_well_formed(before);
    lemma_add_cue_keeps_well_formed(before, after, cue);
    lemma_section_valid_iff_well_formed(after);
}

/// Law: adding to a section that passes its check a note entry with a new
/// identifier, a new position, a passing date check and links that name cues
/// of the section (as `Section::add_note` does) gives a section that passes
/// its check.
pub proof fn lemma_add_note_keeps_section_valid(before: Section, after: Section, note: Note)
    requires
        section_fault(before) is None,
        forall|j: int| 0 <= j < before.notes@.len() ==> #[trigger] before.notes@[j].id != note.id,
        forall|j: int|
            0 <= j < before.notes@.len() ==> #[trigger] before.notes@[j].position != note.position,
        note_fault(note) is None,
        note.cue_links matches Some(links) ==> links_resolve(before.cues@, links@),
        after.notes@ == before.notes@.push(note),
        after.cues == before.cues,
    ensures
        section_fault(after) is None,
{
    lemma_section_valid_iff_well_formed(before);
    lemma_add_note_keeps_well_formed(before, after, note);
    lemma_section_valid_iff_well_formed(after);
}

/// Law: adding to a document that passes validation a section that passes
/// its check, with a new identifier and a new position (as
/// `CornellNote::add_section` does), gives a document that passes
/// validation, provided the modification time it stamps is not before the
/// creation time.
pub proof fn lemma_add_section_keeps_document_valid(
    before: CornellNote,
    after: CornellNote,
    section: Section,
)
    requires
        document_fault(before) is None,
        section_fault(section) is None,
        forall|j: int|
            0 <= j < before.sections@.len() ==> #[trigger] before.sections@[j].id != section.id,
        forall|j: int|
            0 <= j < before.sections@.len() ==> #[trigger] before.sections@[j].position
                != section.position,
        after.sections@ == before.sections@.push(section),
        after.version == before.version,
        after.summary == before.summary,
        same_but_modified(after.metadata, before.metadata),
        !earlier(after.metadata.modified, after.metadata.created),
    ensures
        document_fault(after) is None,
{
    lemma_valid_iff_well_formed(before);
    lemma_section_valid_iff_well_formed(section);
    lemma_add_section_keeps_well_formed(before, after, section);
    lemma_valid_iff_well_formed(after);
}

/// Law: removing any one note entry from a section that passes its check
/// gives a section that passes its check.
pub proof fn lemma_remove_note_keeps_section_valid(before: Section, after: Section, i: int)
    requires
        section_fault(before) is None,
        0 <= i < before.notes@.len(),
        after.notes@ == before.notes@.remove(i),
        after.cues == before.cues,
    ensures
        section_fault(after) is None,
{
    lemma_section_valid_iff_well_formed(before);
    let old_notes = before.notes@;
    let notes = after.notes@;
    assert forall|k: int| 0 <= k < notes.len() implies #[trigger] notes[k] == old_notes[if k < i {
        k
    } else {
        k + 1
    }] by {}
    assert forall|a: int, b: int| 0 <= a < b < notes.len() implies #[trigger] notes[a].id
        != #[trigger] notes[b].id by {
        let a2 = if a < i { a } else { a + 1 };
        let b2 = if b < i { b } else { b + 1 };
        assert(notes[a] == old_notes[a2] && notes[b] == old_notes[b2]);
        assert(old_notes[a2].id != old_notes[b2].id);
    }
    assert forall|a: int, b: int| 0 <= a < b < notes.len() implies #[trigger] notes[a].position
        != #[trigger] notes[b].position by {
        let a2 = if a < i { a } else { a + 1 };
        let b2 = if b < i { b } else { b + 1 };
        assert(notes[a] == old_notes[a2] && notes[b] == old_notes[b2]);
        assert(old_notes[a2].position != old_notes[b2].position);
    }
    assert forall|k: int| 0 <= k < notes.len() implies !earlier(
        #[trigger] notes[k].modified,
        notes[k].created,
    ) by {
        let k2 = if k < i { k } else { k + 1 };
        assert(notes[k] == old_notes[k2]);
        assert(!earlier(old_notes[k2].modified, old_notes[k2].created));
    }
    assert forall|k: int| 0 <= k < notes.len() implies (
    #[trigger] notes[k].cue_links matches Some(links) ==> links_resolve(after.cues@, links@)) by {
        let k2 = if k < i { k } else { k + 1 };
        assert(notes[k] == old_notes[k2]);
        assert(old_notes[k2].cue_links matches Some(links) ==> links_resolve(before.cues@, links@));
    }
    lemma_section_valid_iff_well_formed(after);
}

/// A section obeys every rule of a section when its cues and note entries
/// are rearranged.
proof fn lemma_well_formed_rearranged(
    s1: Section,
    s2: Section,
    cue_perm: Seq<int>,
    note_perm: Seq<int>,
)
    requires
        section_well_formed(s1),
        rearranges(s1.cues@, s2.cues@, cue_perm),
        rearranges(s1.notes@, s2.notes@, note_perm),
    ensures
        section_well_formed(s2),
{
    let c1 = s1.cues@;
    let c2 = s2.cues@;
    let e1 = s1.notes@;
    let e2 = s2.notes@;
    assert forall|a: int, b: int| 0 <= a < b < c2.len() implies #[trigger] c2[a].id
        != #[trigger] c2[b].id by {
        let x = cue_perm[a];
        let y = cue_perm[b];
        assert(c2[a] == c1[x] && c2[b] == c1[y] && x != y);
        if x < y {
            assert(c1[x].id != c1[y].id);
        } else {
            assert(c1[y].id != c1[x].id);
        }
    }
    assert forall|a: int, b: int| 0 <= a < b < c2.len() implies #[trigger] c2[a].position
        != #[trigger] c2[b].position by {
        let x = cue_perm[a];
        let y = cue_perm[b];
        assert(c2[a] == c1[x] && c2[b] == c1[y] && x != y);
        if x < y {
            assert(c1[x].position != c1[y].position);
        } else {
            assert(c1[y].position != c1[x].position);
        }
    }
    assert forall|i: int| 0 <= i < c2.len() implies !earlier(
        #[trigger] c2[i].modified,
        c2[i].created,
    ) by {
        assert(c2[i] == c1[cue_perm[i]]);
        assert(!earlier(c1[cue_perm[i]].modified, c1[cue_perm[i]].created));
    }
    assert forall|a: int, b: int| 0 <= a < b < e2.len() implies #[trigger] e2[a].id
        != #[trigger] e2[b].id by {
        let x = note_perm[a];
        let y = note_perm[b];
        assert(e2[a] == e1[x] && e2[b] == e1[y] && x != y);
        if x < y {
            assert(e1[x].id != e1[y].id);
        } else {
            assert(e1[y].id != e1[x].id);
        }
    }
    assert forall|a: int, b: int| 0 <= a < b < e2.len() implies #[trigger] e2[a].position
        != #[trigger] e2[b].position by {
        let x = note_perm[a];
        let y = note_perm[b];
        assert(e2[a] == e1[x] && e2[b] == e1[y] && x != y);
        if x < y {
            assert(e1[x].position != e1[y].position);
        } else {
            assert(e1[y].position != e1[x].position);
        }
    }
    assert forall|i: int| 0 <= i < e2.len() implies !earlier(
        #[trigger] e2[i].modified,
        e2[i].created,
    ) by {
        assert(e2[i] == e1[note_perm[i]]);
        assert(!earlier(e1[note_perm[i]].modified, e1[note_perm[i]].created));
    }
    assert forall|i: int| 0 <= i < e2.len() implies (
    #[trigger] e2[i].cue_links matches Some(links) ==> links_resolve(c2, links@)) by {
        assert(e2[i] == e1[note_perm[i]]);
        if let Some(links) = e2[i].cue_links {
            assert(links_resolve(c1, links@));
            assert forall|k: int| 0 <= k < links@.len() implies has_cue(c2, #[trigger] links@[k]) by {
                assert(has_cue(c1, links@[k]));
                let j = choose|j: int| 0 <= j < c1.len() && #[trigger] c1[j].id == links@[k];
                assert(cue_perm.contains(j));
                let m = choose|m: int| 0 <= m < cue_perm.len() && cue_perm[m] == j;
                assert(c2[m] == c1[j]);
            }
        }
    }
}

/// Law: whether a section passes its check does not depend on the order of
/// its cues or of its note entries (only which error is reported may change).
/// Here `s2` is `s1` with its cues rearranged by `cue_perm` and its note
/// entries by `note_perm`.
pub proof fn lemma_section_check_ignores_entry_order(
    s1: Section,
    s2: Section,
    cue_perm: Seq<int>,
    note_perm: Seq<int>,
)
    requires
        rearranges(s1.cues@, s2.cues@, cue_perm),
        rearranges(s1.notes@, s2.notes@, note_perm),
    ensures
        (section_fault(s1) is None) == (section_fault(s2) is None),
{
    lemma_section_valid_iff_well_formed(s1);
    lemma_section_valid_iff_well_formed(s2);
    if section_well_formed(s1) {
        lemma_well_formed_rearranged(s1, s2, cue_perm, note_perm);
    }
    if section_well_formed(s2) {
        let cue_back = lemma_inverse_rearranges(s1.cues@, s2.cues@, cue_perm);
        let note_back = lemma_inverse_rearranges(s1.notes@, s2.notes@, note_perm);
        lemma_well_formed_rearranged(s2, s1, cue_back, note_back);
    }
}

/// Law: the date rules compare times chronologically: metadata with a title
/// whose modification time falls in a later second than its creation time
/// passes its check whatever the nanoseconds, and so does a cue, a note entry
/// or a summary modified in a later second than it was created.
pub proof fn lemma_later_second_passes_date_rules(m: Metadata, c: Cue, n: Note, s: Summary)
    ensures
        m.title@.len() > 0 && m.modified.seconds > m.created.seconds ==> metadata_fault(m) is None,
        c.modified.seconds > c.created.seconds ==> cue_fault(c) is None,
        n.modified.seconds > n.created.seconds ==> note_fault(n) is None,
        s.modified.seconds > s.created.seconds ==> summary_fault(s) is None,
{
}

} // verus!
