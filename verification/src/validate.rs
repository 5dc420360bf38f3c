//! Validation of a Cornell note against the schema's rules: the version
//! format, a non-empty title, at least one section, no duplicate identifiers
//! or positions, cue links that name existing cues, and modification times
//! that are not before creation times. Each check reports the first rule
//! that fails, in the order the document is read.

use crate::error::{CornellNoteError, ErrorKind, Fault};
use crate::ids::{push_uuid_text, uuid_text, Uuid};
use crate::model::{CornellNote, Cue, Metadata, Note, Section, Summary};
use crate::text::{decimal, push_decimal, push_str};
use crate::time::earlier;
use std::collections::HashSet;
use vstd::prelude::*;

verus! {

// ---------------------------------------------------------------------------
// The version format `^[0-9]+\.[0-9]+$`
// ---------------------------------------------------------------------------

/// `c` is one of the ASCII digits `0`..`9`.
pub open spec fn is_ascii_digit(c: char) -> bool {
    '0' <= c && c <= '9'
}

/// `s` is one or more ASCII digits, a dot, and one or more ASCII digits
/// (the pattern `^[0-9]+\.[0-9]+$`).
pub open spec fn is_version_format(s: Seq<char>) -> bool {
    exists|k: int|
        0 < k < s.len() - 1 && s[k] == '.' && (forall|i: int|
            0 <= i < s.len() && i != k ==> is_ascii_digit(#[trigger] s[i]))
}

/// Law: every string of one or more characters `0`..`9`, a dot, and one or
/// more characters `0`..`9` is a version of the required form (for example
/// `1.9` and `9.0`).
pub proof fn lemma_digits_dot_digits_is_version(a: Seq<char>, b: Seq<char>)
    requires
        a.len() > 0,
        b.len() > 0,
        forall|i: int| 0 <= i < a.len() ==> '0' <= #[trigger] a[i] && a[i] <= '9',
        forall|i: int| 0 <= i < b.len() ==> '0' <= #[trigger] b[i] && b[i] <= '9',
    ensures
        is_version_format(a + seq!['.'] + b),
{
    let s = a + seq!['.'] + b;
    let k = a.len() as int;
    assert forall|i: int| 0 <= i < s.len() && i != k implies is_ascii_digit(#[trigger] s[i]) by {
        if i < k {
            assert(s[i] == a[i]);
        } else {
            assert(s[i] == b[i - k - 1]);
        }
    }
    assert(0 < k < s.len() - 1 && s[k] == '.');
}

/// Law: a string that holds a character other than `0`..`9` and `.` is not a
/// version of the required form, and neither is one without a dot.
pub proof fn lemma_version_chars(s: Seq<char>)
    ensures
        (exists|i: int| 0 <= i < s.len() && s[i] != '.' && !('0' <= #[trigger] s[i] && s[i] <= '9'))
            ==> !is_version_format(s),
        (forall|i: int| 0 <= i < s.len() ==> #[trigger] s[i] != '.') ==> !is_version_format(s),
{
    if is_version_format(s) {
        let k = choose|k: int|
            0 < k < s.len() - 1 && s[k] == '.' && (forall|i: int|
                0 <= i < s.len() && i != k ==> is_ascii_digit(#[trigger] s[i]));
        assert(s[k] == '.');
    }
}

/// Where a scan of a version string stands: nothing read yet, digits before
/// the dot, the dot just read, digits after the dot, or a character that
/// rules the pattern out.
spec fn scan_state(prefix: Seq<char>, state: u8, dot: int) -> bool {
    if state == 0 {
        prefix.len() == 0
    } else if state == 1 {
        prefix.len() > 0 && forall|j: int| 0 <= j < prefix.len() ==> is_ascii_digit(#[trigger] prefix[j])
    } else if state == 2 || state == 3 {
        &&& 0 < dot < prefix.len()
        &&& prefix[dot] == '.'
        &&& forall|j: int| 0 <= j < prefix.len() && j != dot ==> is_ascii_digit(#[trigger] prefix[j])
        &&& (state == 2 <==> dot == prefix.len() - 1)
    } else {
        false
    }
}

/// Whether `s` is a version of the form `digits.digits`.
pub fn is_valid_version(s: &str) -> (b: bool)
    ensures
        b == is_version_format(s@),
{
    broadcast use vstd::string::group_string_axioms;

    let mut state: u8 = 0;
    let ghost mut dot: int = 0;
    for c in it: s.chars()
        invariant
            it.seq() == s@,
            state <= 4,
            state < 4 ==> scan_state(s@.take(it.index()), state, dot),
            state == 4 ==> !is_version_format(s@),
    {
        let ghost i = it.index();
        let ghost prev = s@.take(i);
        assert(s@.take(i + 1) =~= prev.push(c));
        let is_digit = '0' <= c && c <= '9';
        if state == 4 {
        } else if is_digit {
            if state == 0 {
                state = 1;
            } else if state == 2 {
                state = 3;
            }
        } else if c == '.' && state == 1 {
            state = 2;
            proof {
                dot = i;
            }
        } else {
            let ghost old_state = state;
            state = 4;
            assert(!is_version_format(s@)) by {
                if is_version_format(s@) {
                    let m = choose|m: int|
                        0 < m < s@.len() - 1 && s@[m] == '.' && (forall|j: int|
                            0 <= j < s@.len() && j != m ==> is_ascii_digit(#[trigger] s@[j]));
                    if m != i {
                        assert(is_ascii_digit(s@[i]));
                    } else if old_state == 0 {
                        assert(m == 0);
                    } else {
                        assert(prev[dot] == s@[dot]);
                        assert(is_ascii_digit(s@[dot]));
                    }
                }
            }
        }
    }
    assert(s@.take(s@.len() as int) =~= s@);
    if state == 3 {
        assert(0 < dot < s@.len() - 1 && s@[dot] == '.' && (forall|j: int|
            0 <= j < s@.len() && j != dot ==> is_ascii_digit(#[trigger] s@[j])));
        true
    } else {
        assert(!is_version_format(s@)) by {
            if is_version_format(s@) {
                let m = choose|m: int|
                    0 < m < s@.len() - 1 && s@[m] == '.' && (forall|j: int|
                        0 <= j < s@.len() && j != m ==> is_ascii_digit(#[trigger] s@[j]));
                if state != 4 && m != dot {
                    assert(is_ascii_digit(s@[m]));
                }
            }
        }
        false
    }
}

// ---------------------------------------------------------------------------
// What each check reports
// ---------------------------------------------------------------------------

/// `r` is what a check reports when its first failing rule is `fault`
/// (`None`: no rule fails).
pub open spec fn reports(r: Result<(), CornellNoteError>, fault: Option<Fault>) -> bool {
    match fault {
        None => r is Ok,
        Some(f) => r matches Err(e) && e.fault() == f,
    }
}

/// A validation error with the given message.
pub open spec fn invalid(message: Seq<char>) -> Option<Fault> {
    Some((ErrorKind::Validation, message))
}

/// The first rule of the metadata that fails.
pub open spec fn metadata_fault(m: Metadata) -> Option<Fault> {
    if m.title@.len() == 0 {
        invalid("Title cannot be empty"@)
    } else if earlier(m.modified, m.created) {
        invalid("Modified date cannot be before created date"@)
    } else {
        None
    }
}

/// The first rule of a cue that fails (its dates).
pub open spec fn cue_fault(c: Cue) -> Option<Fault> {
    if earlier(c.modified, c.created) {
        invalid("Cue "@ + uuid_text(c.id.0) + " has modified date before created date"@)
    } else {
        None
    }
}

/// The first rule of a note entry that fails (its dates).
pub open spec fn note_fault(n: Note) -> Option<Fault> {
    if earlier(n.modified, n.created) {
        invalid("Note "@ + uuid_text(n.id.0) + " has modified date before created date"@)
    } else {
        None
    }
}

/// The first rule of the summary that fails (its dates).
pub open spec fn summary_fault(s: Summary) -> Option<Fault> {
    if earlier(s.modified, s.created) {
        invalid("Summary has modified date before created date"@)
    } else {
        None
    }
}

/// Some cue of `cues` has identifier `id`.
pub open spec fn has_cue(cues: Seq<Cue>, id: Uuid) -> bool {
    exists|j: int| 0 <= j < cues.len() && #[trigger] cues[j].id == id
}

/// The first of `links[0..n]` that names no cue of `cues`.
pub open spec fn first_unknown_link(cues: Seq<Cue>, links: Seq<Uuid>, n: int) -> Option<Uuid>
    decreases n,
{
    if n <= 0 {
        None
    } else {
        match first_unknown_link(cues, links, n - 1) {
            Some(u) => Some(u),
            None => if has_cue(cues, links[n - 1]) {
                None
            } else {
                Some(links[n - 1])
            },
        }
    }
}

/// The first rule that cue `i` of a section breaks, given that the cues
/// before it passed: a repeated identifier, a repeated position, its dates.
pub open spec fn cue_fault_at(cues: Seq<Cue>, i: int) -> Option<Fault> {
    if exists|j: int| 0 <= j < i && #[trigger] cues[j].id == cues[i].id {
        invalid("Duplicate cue ID in section: "@ + uuid_text(cues[i].id.0))
    } else if exists|j: int| 0 <= j < i && #[trigger] cues[j].position == cues[i].position {
        invalid("Duplicate cue position in section: "@ + decimal(cues[i].position as nat))
    } else {
        cue_fault(cues[i])
    }
}

/// The first rule that the cues `cues[0..n]` break, in order.
pub open spec fn first_cue_fault(cues: Seq<Cue>, n: int) -> Option<Fault>
    decreases n,
{
    if n <= 0 {
        None
    } else {
        match first_cue_fault(cues, n - 1) {
            Some(f) => Some(f),
            None => cue_fault_at(cues, n - 1),
        }
    }
}

/// The first rule that note entry `i` of a section breaks, given that the
/// entries before it passed: a repeated identifier, a repeated position, its
/// dates, a link to a cue that the section does not hold.
pub open spec fn note_fault_at(cues: Seq<Cue>, notes: Seq<Note>, i: int) -> Option<Fault> {
    if exists|j: int| 0 <= j < i && #[trigger] notes[j].id == notes[i].id {
        invalid("Duplicate note ID in section: "@ + uuid_text(notes[i].id.0))
    } else if exists|j: int| 0 <= j < i && #[trigger] notes[j].position == notes[i].position {
        invalid("Duplicate note position in section: "@ + decimal(notes[i].position as nat))
    } else if note_fault(notes[i]) is Some {
        note_fault(notes[i])
    } else {
        match notes[i].cue_links {
            None => None,
            Some(links) => match first_unknown_link(cues, links@, links@.len() as int) {
                None => None,
                Some(u) => invalid(
                    "Note "@ + uuid_text(notes[i].id.0) + " references non-existent cue: "@
                        + uuid_text(u.0),
                ),
            },
        }
    }
}

/// The first rule that the note entries `notes[0..n]` break, in order.
pub open spec fn first_note_fault(cues: Seq<Cue>, notes: Seq<Note>, n: int) -> Option<Fault>
    decreases n,
{
    if n <= 0 {
        None
    } else {
        match first_note_fault(cues, notes, n - 1) {
            Some(f) => Some(f),
            None => note_fault_at(cues, notes, n - 1),
        }
    }
}

/// The first rule of a section that fails: its cues first, then its note entries.
pub open spec fn section_fault(s: Section) -> Option<Fault> {
    match first_cue_fault(s.cues@, s.cues@.len() as int) {
        Some(f) => Some(f),
        None => first_note_fault(s.cues@, s.notes@, s.notes@.len() as int),
    }
}

/// The first rule that section `i` breaks, given that the sections before it
/// passed: a repeated identifier, a repeated position, its own rules.
pub open spec fn section_fault_at(sections: Seq<Section>, i: int) -> Option<Fault> {
    if exists|j: int| 0 <= j < i && #[trigger] sections[j].id == sections[i].id {
        invalid("Duplicate section ID: "@ + uuid_text(sections[i].id.0))
    } else if exists|j: int| 0 <= j < i && #[trigger] sections[j].position == sections[i].position {
        invalid("Duplicate section position: "@ + decimal(sections[i].position as nat))
    } else {
        section_fault(sections[i])
    }
}

/// The first rule that the sections `sections[0..n]` break, in order.
pub open spec fn first_section_fault(sections: Seq<Section>, n: int) -> Option<Fault>
    decreases n,
{
    if n <= 0 {
        None
    } else {
        match first_section_fault(sections, n - 1) {
            Some(f) => Some(f),
            None => section_fault_at(sections, n - 1),
        }
    }
}

/// The message for a version that does not have the required format.
pub open spec fn version_message(version: Seq<char>) -> Seq<char> {
    "Version '"@ + version + "' does not match required format (e.g., '1.0')"@
}

/// The first rule of a document that fails: the version, the metadata, at
/// least one section, the sections in order, the summary.
pub open spec fn document_fault(n: CornellNote) -> Option<Fault> {
    if !is_version_format(n.version@) {
        Some((ErrorKind::InvalidVersion, version_message(n.version@)))
    } else if metadata_fault(n.metadata) is Some {
        metadata_fault(n.metadata)
    } else if n.sections@.len() == 0 {
        invalid("Document must contain at least one section"@)
    } else if first_section_fault(n.sections@, n.sections@.len() as int) is Some {
        first_section_fault(n.sections@, n.sections@.len() as int)
    } else {
        summary_fault(n.summary)
    }
}

// ---------------------------------------------------------------------------
// Building error messages
// ---------------------------------------------------------------------------

fn validation_error(message: &str) -> (e: CornellNoteError)
    ensures
        e.fault() == (ErrorKind::Validation, message@),
{
    CornellNoteError::ValidationError(String::from_str(message))
}

fn validation_error_with_id(prefix: &str, id: Uuid) -> (e: CornellNoteError)
    ensures
        e.fault() == (ErrorKind::Validation, prefix@ + uuid_text(id.0)),
{
    let mut m = String::from_str(prefix);
    push_uuid_text(&mut m, id.0);
    CornellNoteError::ValidationError(m)
}

fn validation_error_around_id(prefix: &str, id: Uuid, suffix: &str) -> (e: CornellNoteError)
    ensures
        e.fault() == (ErrorKind::Validation, prefix@ + uuid_text(id.0) + suffix@),
{
    let mut m = String::from_str(prefix);
    push_uuid_text(&mut m, id.0);
    push_str(&mut m, suffix);
    CornellNoteError::ValidationError(m)
}

fn validation_error_around_id_id(prefix: &str, id: Uuid, middle: &str, other: Uuid) -> (e:
    CornellNoteError)
    ensures
        e.fault() == (ErrorKind::Validation, prefix@ + uuid_text(id.0) + middle@ + uuid_text(other.0)),
{
    let mut m = String::from_str(prefix);
    push_uuid_text(&mut m, id.0);
    push_str(&mut m, middle);
    push_uuid_text(&mut m, other.0);
    CornellNoteError::ValidationError(m)
}

fn validation_error_with_position(prefix: &str, position: u32) -> (e: CornellNoteError)
    ensures
        e.fault() == (ErrorKind::Validation, prefix@ + decimal(position as nat)),
{
    let mut m = String::from_str(prefix);
    push_decimal(&mut m, position);
    CornellNoteError::ValidationError(m)
}

// ---------------------------------------------------------------------------
// The checks
// ---------------------------------------------------------------------------

impl Metadata {
    /// Validate metadata fields: a non-empty title, and a modification time
    /// that is not before the creation time.
    pub fn validate(&self) -> (r: Result<(), CornellNoteError>)
        ensures
            reports(r, metadata_fault(*self)),
    {
        if self.title.as_str().is_empty() {
            return Err(validation_error("Title cannot be empty"));
        }
        if self.modified.is_before(&self.created) {
            return Err(validation_error("Modified date cannot be before created date"));
        }
        Ok(())
    }
}

impl Cue {
    /// Validate a cue: its modification time is not before its creation time.
    pub fn validate(&self) -> (r: Result<(), CornellNoteError>)
        ensures
            reports(r, cue_fault(*self)),
    {
        if self.modified.is_before(&self.created) {
            return Err(
                validation_error_around_id("Cue ", self.id, " has modified date before created date"),
            );
        }
        Ok(())
    }
}

impl Note {
    /// Validate a note entry: its modification time is not before its creation time.
    pub fn validate(&self) -> (r: Result<(), CornellNoteError>)
        ensures
            reports(r, note_fault(*self)),
    {
        if self.modified.is_before(&self.created) {
            return Err(
                validation_error_around_id("Note ", self.id, " has modified date before created date"),
            );
        }
        Ok(())
    }
}

impl Summary {
    /// Validate a summary: its modification time is not before its creation time.
    pub fn validate(&self) -> (r: Result<(), CornellNoteError>)
        ensures
            reports(r, summary_fault(*self)),
    {
        if self.modified.is_before(&self.created) {
            return Err(validation_error("Summary has modified date before created date"));
        }
        Ok(())
    }
}

// ---------------------------------------------------------------------------
// Once a prefix has a failing rule, every longer prefix reports that rule.
// ---------------------------------------------------------------------------

proof fn lemma_cue_fault_settles(cues: Seq<Cue>, m: int, n: int)
    requires
        m <= n,
        first_cue_fault(cues, m) is Some,
    ensures
        first_cue_fault(cues, n) == first_cue_fault(cues, m),
    decreases n - m,
{
    if m < n {
        lemma_cue_fault_settles(cues, m, n - 1);
    }
}

proof fn lemma_note_fault_settles(cues: Seq<Cue>, notes: Seq<Note>, m: int, n: int)
    requires
        m <= n,
        first_note_fault(cues, notes, m) is Some,
    ensures
        first_note_fault(cues, notes, n) == first_note_fault(cues, notes, m),
    decreases n - m,
{
    if m < n {
        lemma_note_fault_settles(cues, notes, m, n - 1);
    }
}

proof fn lemma_section_fault_settles(sections: Seq<Section>, m: int, n: int)
    requires
        m <= n,
        first_section_fault(sections, m) is Some,
    ensures
        first_section_fault(sections, n) == first_section_fault(sections, m),
    decreases n - m,
{
    if m < n {
        lemma_section_fault_settles(sections, m, n - 1);
    }
}

proof fn lemma_unknown_link_settles(cues: Seq<Cue>, links: Seq<Uuid>, m: int, n: int)
    requires
        m <= n,
        first_unknown_link(cues, links, m) is Some,
    ensures
        first_unknown_link(cues, links, n) == first_unknown_link(cues, links, m),
    decreases n - m,
{
    if m < n {
        lemma_unknown_link_settles(cues, links, m, n - 1);
    }
}

impl Section {
    /// Validate a section. Cues are checked in order (a repeated identifier,
    /// a repeated position, their dates), then note entries in order (a
    /// repeated identifier, a repeated position, their dates, links that name
    /// no cue of this section); the first rule broken is reported.
    pub fn validate(&self) -> (r: Result<(), CornellNoteError>)
        ensures
            reports(r, section_fault(*self)),
    {
        broadcast use vstd::std_specs::hash::group_hash_axioms;

        let ghost cues = self.cues@;
        let ghost notes = self.notes@;
        let mut cue_ids: HashSet<u128> = HashSet::new();
        let mut cue_positions: HashSet<u32> = HashSet::new();
        let n = self.cues.len();
        let mut i: usize = 0;
        while i < n
            invariant
                cues == self.cues@,
                n == cues.len(),
                i <= n,
                first_cue_fault(cues, i as int) is None,
                forall|x: u128|
                    #[trigger] cue_ids@.contains(x) <==> exists|j: int|
                        0 <= j < i && #[trigger] cues[j].id.0 == x,
                forall|p: u32|
                    #[trigger] cue_positions@.contains(p) <==> exists|j: int|
                        0 <= j < i && #[trigger] cues[j].position == p,
            decreases n - i,
        {
            let cue = &self.cues[i];
            let ghost old_ids = cue_ids@;
            let ghost old_positions = cue_positions@;
            if !cue_ids.insert(cue.id.0) {
                proof {
                    let j = choose|j: int| 0 <= j < i && #[trigger] cues[j].id.0 == cue.id.0;
                    assert(cues[j].id == cues[i as int].id);
                    lemma_cue_fault_settles(cues, i + 1, n as int);
                }
                return Err(validation_error_with_id("Duplicate cue ID in section: ", cue.id));
            }
            if !cue_positions.insert(cue.position) {
                proof {
                    assert(!exists|j: int| 0 <= j < i && #[trigger] cues[j].id == cues[i as int].id) by {
                        if exists|j: int| 0 <= j < i && #[trigger] cues[j].id == cues[i as int].id {
                            let j = choose|j: int| 0 <= j < i && #[trigger] cues[j].id == cues[i as int].id;
                            assert(old_ids.contains(cues[j].id.0));
                        }
                    }
                    lemma_cue_fault_settles(cues, i + 1, n as int);
                }
                return Err(
                    validation_error_with_position("Duplicate cue position in section: ", cue.position),
                );
            }
            proof {
                assert(!exists|j: int| 0 <= j < i && #[trigger] cues[j].id == cues[i as int].id) by {
                    if exists|j: int| 0 <= j < i && #[trigger] cues[j].id == cues[i as int].id {
                        let j = choose|j: int| 0 <= j < i && #[trigger] cues[j].id == cues[i as int].id;
                        assert(old_ids.contains(cues[j].id.0));
                    }
                }
                assert(!exists|j: int| 0 <= j < i && #[trigger] cues[j].position == cues[i as int].position) by {
                    if exists|j: int| 0 <= j < i && #[trigger] cues[j].position == cues[i as int].position {
                        let j = choose|j: int| 0 <= j < i && #[trigger] cues[j].position == cues[i as int].position;
                        assert(old_positions.contains(cues[j].position));
                    }
                }
            }
            match cue.validate() {
                Ok(()) => {},
                Err(e) => {
                    proof {
                        lemma_cue_fault_settles(cues, i + 1, n as int);
                    }
                    return Err(e);
                },
            }
            proof {
                assert forall|x: u128| #[trigger] cue_ids@.contains(x) <==> exists|j: int|
                    0 <= j < i + 1 && #[trigger] cues[j].id.0 == x by {
                    if x == cues[i as int].id.0 {
                        assert(cues[i as int].id.0 == x);
                    }
                }
                assert forall|p: u32| #[trigger] cue_positions@.contains(p) <==> exists|j: int|
                    0 <= j < i + 1 && #[trigger] cues[j].position == p by {
                    if p == cues[i as int].position {
                        assert(cues[i as int].position == p);
                    }
                }
            }
            i = i + 1;
        }

        let mut note_ids: HashSet<u128> = HashSet::new();
        let mut note_positions: HashSet<u32> = HashSet::new();
        let m = self.notes.len();
        let mut k: usize = 0;
        while k < m
            invariant
                cues == self.cues@,
                notes == self.notes@,
                n == cues.len(),
                m == notes.len(),
                k <= m,
                first_cue_fault(cues, n as int) is None,
                first_note_fault(cues, notes, k as int) is None,
                forall|x: u128|
                    #[trigger] cue_ids@.contains(x) <==> exists|j: int|
                        0 <= j < n && #[trigger] cues[j].id.0 == x,
                forall|x: u128|
                    #[trigger] note_ids@.contains(x) <==> exists|j: int|
                        0 <= j < k && #[trigger] notes[j].id.0 == x,
                forall|p: u32|
                    #[trigger] note_positions@.contains(p) <==> exists|j: int|
                        0 <= j < k && #[trigger] notes[j].position == p,
            decreases m - k,
        {
            let note = &self.notes[k];
            let ghost old_ids = note_ids@;
            let ghost old_positions = note_positions@;
            if !note_ids.insert(note.id.0) {
                proof {
                    let j = choose|j: int| 0 <= j < k && #[trigger] notes[j].id.0 == note.id.0;
                    assert(notes[j].id == notes[k as int].id);
                    lemma_note_fault_settles(cues, notes, k + 1, m as int);
                }
                return Err(validation_error_with_id("Duplicate note ID in section: ", note.id));
            }
            proof {
                assert(!exists|j: int| 0 <= j < k && #[trigger] notes[j].id == notes[k as int].id) by {
                    if exists|j: int| 0 <= j < k && #[trigger] notes[j].id == notes[k as int].id {
                        let j = choose|j: int| 0 <= j < k && #[trigger] notes[j].id == notes[k as int].id;
                        assert(old_ids.contains(notes[j].id.0));
                    }
                }
            }
            if !note_positions.insert(note.position) {
                proof {
                    lemma_note_fault_settles(cues, notes, k + 1, m as int);
                }
                return Err(
                    validation_error_with_position(
                        "Duplicate note position in section: ",
                        note.position,
                    ),
                );
            }
            proof {
                assert(!exists|j: int| 0 <= j < k && #[trigger] notes[j].position == notes[k as int].position) by {
                    if exists|j: int| 0 <= j < k && #[trigger] notes[j].position == notes[k as int].position {
                        let j = choose|j: int| 0 <= j < k && #[trigger] notes[j].position == notes[k as int].position;
                        assert(old_positions.contains(notes[j].position));
                    }
                }
            }
            match note.validate() {
                Ok(()) => {},
                Err(e) => {
                    proof {
                        lemma_note_fault_settles(cues, notes, k + 1, m as int);
                    }
                    return Err(e);
                },
            }
            match &note.cue_links {
                None => {},
                Some(links) => {
                    let ghost ls = links@;
                    let count = links.len();
                    let mut l: usize = 0;
                    while l < count
                        invariant
                            cues == self.cues@,
                            notes == self.notes@,
                            n == cues.len(),
                            m == notes.len(),
                            k < m,
                            *note == notes[k as int],
                            ls == links@,
                            notes[k as int].cue_links matches Some(v) && v@ == ls,
                            first_note_fault(cues, notes, k as int) is None,
                            first_cue_fault(cues, n as int) is None,
                            !exists|j: int| 0 <= j < k && #[trigger] notes[j].id == notes[k as int].id,
                            !exists|j: int|
                                0 <= j < k && #[trigger] notes[j].position == notes[k as int].position,
                            note_fault(notes[k as int]) is None,
                            count == ls.len(),
                            l <= count,
                            first_unknown_link(cues, ls, l as int) is None,
                            forall|x: u128|
                                #[trigger] cue_ids@.contains(x) <==> exists|j: int|
                                    0 <= j < n && #[trigger] cues[j].id.0 == x,
                        decreases count - l,
                    {
                        let link = links[l];
                        if !cue_ids.contains(&link.0) {
                            proof {
                                assert(!has_cue(cues, link)) by {
                                    if has_cue(cues, link) {
                                        let j = choose|j: int| 0 <= j < cues.len() && #[trigger] cues[j].id == link;
                                        assert(cues[j].id.0 == link.0);
                                    }
                                }
                                lemma_unknown_link_settles(cues, ls, l + 1, count as int);
                                lemma_note_fault_settles(cues, notes, k + 1, m as int);
                            }
                            return Err(
                                validation_error_around_id_id(
                                    "Note ",
                                    note.id,
                                    " references non-existent cue: ",
                                    link,
                                ),
                            );
                        }
                        proof {
                            let j = choose|j: int| 0 <= j < n && #[trigger] cues[j].id.0 == link.0;
                            assert(cues[j].id == link);
                        }
                        l = l + 1;
                    }
                },
            }
            proof {
                assert forall|x: u128| #[trigger] note_ids@.contains(x) <==> exists|j: int|
                    0 <= j < k + 1 && #[trigger] notes[j].id.0 == x by {
                    if x == notes[k as int].id.0 {
                        assert(notes[k as int].id.0 == x);
                    }
                }
                assert forall|p: u32| #[trigger] note_positions@.contains(p) <==> exists|j: int|
                    0 <= j < k + 1 && #[trigger] notes[j].position == p by {
                    if p == notes[k as int].position {
                        assert(notes[k as int].position == p);
                    }
                }
            }
            k = k + 1;
        }
        Ok(())
    }
}

impl CornellNote {
    /// Validate the entire Cornell Note document: the version format
    /// (`digits.digits`), the metadata, at least one section, then each
    /// section in order (a repeated identifier, a repeated position, its own
    /// rules), then the summary; the first rule broken is reported.
    pub fn validate(&self) -> (r: Result<(), CornellNoteError>)
        ensures
            reports(r, document_fault(*self)),
    {
        broadcast use vstd::std_specs::hash::group_hash_axioms;

        if !is_valid_version(self.version.as_str()) {
            let mut m = String::from_str("Version '");
            push_str(&mut m, self.version.as_str());
            push_str(&mut m, "' does not match required format (e.g., '1.0')");
            return Err(CornellNoteError::InvalidVersion(m));
        }
        match self.metadata.validate() {
            Ok(()) => {},
            Err(e) => {
                return Err(e);
            },
        }
        if self.sections.len() == 0 {
            return Err(validation_error("Document must contain at least one section"));
        }
        let ghost sections = self.sections@;
        let mut section_ids: HashSet<u128> = HashSet::new();
        let mut section_positions: HashSet<u32> = HashSet::new();
        let n = self.sections.len();
        let mut i: usize = 0;
        while i < n
            invariant
                sections == self.sections@,
                n == sections.len(),
                0 < n,
                i <= n,
                is_version_format(self.version@),
                metadata_fault(self.metadata) is None,
                first_section_fault(sections, i as int) is None,
                forall|x: u128|
                    #[trigger] section_ids@.contains(x) <==> exists|j: int|
                        0 <= j < i && #[trigger] sections[j].id.0 == x,
                forall|p: u32|
                    #[trigger] section_positions@.contains(p) <==> exists|j: int|
                        0 <= j < i && #[trigger] sections[j].position == p,
            decreases n - i,
        {
            let section = &self.sections[i];
            let ghost old_ids = section_ids@;
            let ghost old_positions = section_positions@;
            if !section_ids.insert(section.id.0) {
                proof {
                    let j = choose|j: int| 0 <= j < i && #[trigger] sections[j].id.0 == section.id.0;
                    assert(sections[j].id == sections[i as int].id);
                    lemma_section_fault_settles(sections, i + 1, n as int);
                }
                return Err(validation_error_with_id("Duplicate section ID: ", section.id));
            }
            proof {
                assert(!exists|j: int| 0 <= j < i && #[trigger] sections[j].id == sections[i as int].id) by {
                    if exists|j: int| 0 <= j < i && #[trigger] sections[j].id == sections[i as int].id {
                        let j = choose|j: int| 0 <= j < i && #[trigger] sections[j].id == sections[i as int].id;
                        assert(old_ids.contains(sections[j].id.0));
                    }
                }
            }
            if !section_positions.insert(section.position) {
                proof {
                    lemma_section_fault_settles(sections, i + 1, n as int);
                }
                return Err(
                    validation_error_with_position("Duplicate section position: ", section.position),
                );
            }
            proof {
                assert(!exists|j: int| 0 <= j < i && #[trigger] sections[j].position == sections[i as int].position) by {
                    if exists|j: int| 0 <= j < i && #[trigger] sections[j].position == sections[i as int].position {
                        let j = choose|j: int| 0 <= j < i && #[trigger] sections[j].position == sections[i as int].position;
                        assert(old_positions.contains(sections[j].position));
                    }
                }
            }
            match section.validate() {
                Ok(()) => {},
                Err(e) => {
                    proof {
                        lemma_section_fault_settles(sections, i + 1, n as int);
                    }
                    return Err(e);
                },
            }
            proof {
                assert forall|x: u128| #[trigger] section_ids@.contains(x) <==> exists|j: int|
                    0 <= j < i + 1 && #[trigger] sections[j].id.0 == x by {
                    if x == sections[i as int].id.0 {
                        assert(sections[i as int].id.0 == x);
                    }
                }
                assert forall|p: u32| #[trigger] section_positions@.contains(p) <==> exists|j: int|
                    0 <= j < i + 1 && #[trigger] sections[j].position == p by {
                    if p == sections[i as int].position {
                        assert(sections[i as int].position == p);
                    }
                }
            }
            i = i + 1;
        }
        self.summary.validate()
    }
}

} // verus!
