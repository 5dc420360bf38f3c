//! Export of a Cornell note to Markdown: the title and optional metadata,
//! then the sections by position, each with its cues as a list and its note
//! entries as paragraphs (both by position), then the summary.

use crate::model::{content_text, content_to_string, CornellNote, Cue, Metadata, Note, Section};
use crate::order::{lemma_stable_order_sorts, stable_order, stable_order_of};
use crate::text::{decimal, push_decimal, push_str};
use vstd::prelude::*;

verus! {

/// `label value` on a line of its own when `value` is present; nothing otherwise.
pub open spec fn optional_line(label: Seq<char>, value: Option<String>) -> Seq<char> {
    match value {
        Some(v) => label + v@ + "\n"@,
        None => Seq::empty(),
    }
}

/// The parts, with `sep` between each two neighbours.
pub open spec fn join(parts: Seq<Seq<char>>, sep: Seq<char>) -> Seq<char>
    decreases parts.len(),
{
    if parts.len() == 0 {
        Seq::empty()
    } else if parts.len() == 1 {
        parts[0]
    } else {
        join(parts.drop_last(), sep) + sep + parts.last()
    }
}

/// The texts of a sequence of strings.
pub open spec fn texts(strings: Seq<String>) -> Seq<Seq<char>> {
    strings.map_values(|s: String| s@)
}

/// The tags line: the tags separated by `, `, when there is at least one tag.
pub open spec fn tags_line(tags: Option<Vec<String>>) -> Seq<char> {
    match tags {
        Some(t) => if t@.len() > 0 {
            "**Tags:** "@ + join(texts(t@), ", "@) + "\n"@
        } else {
            Seq::empty()
        },
        None => Seq::empty(),
    }
}

/// The metadata has at least one line to show: a subject, a topic, an
/// author, or at least one tag.
pub open spec fn has_metadata_lines(m: Metadata) -> bool {
    m.subject is Some || m.topic is Some || m.author is Some || (m.tags matches Some(t) && t@.len()
        > 0)
}

/// The head of the document: the title and a blank line, then the subject,
/// topic, author and tags lines (those present, one under the other) followed
/// by a blank line when there is any.
pub open spec fn header_markdown(m: Metadata) -> Seq<char> {
    "# "@ + m.title@ + "\n\n"@ + optional_line("**Subject:** "@, m.subject) + optional_line(
        "**Topic:** "@,
        m.topic,
    ) + optional_line("**Author:** "@, m.author) + tags_line(m.tags) + (if has_metadata_lines(m) {
        "\n"@
    } else {
        Seq::empty()
    })
}

/// The positions of the cues.
pub open spec fn cue_positions(cues: Seq<Cue>) -> Seq<u32> {
    cues.map_values(|c: Cue| c.position)
}

/// The positions of the note entries.
pub open spec fn note_positions(notes: Seq<Note>) -> Seq<u32> {
    notes.map_values(|n: Note| n.position)
}

/// The positions of the sections.
pub open spec fn section_positions(sections: Seq<Section>) -> Seq<u32> {
    sections.map_values(|s: Section| s.position)
}

/// The parts taken in the given order, one after the other.
pub open spec fn in_order(parts: Seq<Seq<char>>, order: Seq<usize>) -> Seq<char>
    decreases order.len(),
{
    if order.len() == 0 {
        Seq::empty()
    } else {
        in_order(parts, order.drop_last()) + parts[order.last() as int]
    }
}

/// The parts in the order in which a stable sort by `keys` leaves them.
pub open spec fn by_position(parts: Seq<Seq<char>>, keys: Seq<u32>) -> Seq<char> {
    in_order(parts, stable_order(keys))
}

/// The list item of a cue.
pub open spec fn cue_line(c: Cue) -> Seq<char> {
    "- "@ + content_text(c.content) + "\n"@
}

/// The paragraph of a note entry.
pub open spec fn note_paragraph(n: Note) -> Seq<char> {
    content_text(n.content) + "\n\n"@
}

/// The list items of the cues, one per cue, in the order of `cues`.
pub open spec fn cue_lines(cues: Seq<Cue>) -> Seq<Seq<char>> {
    cues.map_values(|c: Cue| cue_line(c))
}

/// The paragraphs of the note entries, one per entry, in the order of `notes`.
pub open spec fn note_paragraphs(notes: Seq<Note>) -> Seq<Seq<char>> {
    notes.map_values(|n: Note| note_paragraph(n))
}

/// A section: its heading (numbered from 1 by position), its cues by
/// position when it has any, its note entries by position when it has any.
pub open spec fn section_markdown(s: Section) -> Seq<char> {
    "## Section "@ + decimal((s.position + 1) as nat) + "\n\n"@ + (if s.cues@.len() > 0 {
        "### Cues\n\n"@ + by_position(cue_lines(s.cues@), cue_positions(s.cues@)) + "\n"@
    } else {
        Seq::empty()
    }) + (if s.notes@.len() > 0 {
        "### Notes\n\n"@ + by_position(note_paragraphs(s.notes@), note_positions(s.notes@))
    } else {
        Seq::empty()
    })
}

/// The texts of the sections, one per section, in the order of `sections`.
pub open spec fn section_texts(sections: Seq<Section>) -> Seq<Seq<char>> {
    sections.map_values(|s: Section| section_markdown(s))
}

/// The Markdown text of a document: the head, the sections by position, and
/// the summary.
pub open spec fn markdown(n: CornellNote) -> Seq<char> {
    header_markdown(n.metadata) + by_position(
        section_texts(n.sections@),
        section_positions(n.sections@),
    ) + "## Summary\n\n"@ + content_text(n.summary.content) + "\n"@
}

/// Sections can be numbered from 1: no position is the largest `u32`.
pub open spec fn sections_numberable(sections: Seq<Section>) -> bool {
    forall|i: int| 0 <= i < sections.len() ==> #[trigger] sections[i].position < u32::MAX
}

/// `t` stands in `s` from index `i` on.
pub open spec fn occurs_at(s: Seq<char>, t: Seq<char>, i: int) -> bool {
    0 <= i && i + t.len() <= s.len() && s.subrange(i, i + t.len()) == t
}

/// `t` stands somewhere in `s`.
pub open spec fn contains_text(s: Seq<char>, t: Seq<char>) -> bool {
    exists|i: int| #[trigger] occurs_at(s, t, i)
}

/// The line `label value` of the header.
pub open spec fn labelled_line(label: Seq<char>, value: String) -> Seq<char> {
    label + value@ + "\n"@
}

proof fn lemma_occurs_between(p: Seq<char>, x: Seq<char>, q: Seq<char>)
    ensures
        occurs_at(p + x + q, x, p.len() as int),
        contains_text(p + x + q, x),
{
    assert((p + x + q).subrange(p.len() as int, (p.len() + x.len()) as int) =~= x);
}

/// Law: the header shows its lines in the order subject, topic, author,
/// tags: each present line is followed directly by the next present one.
pub proof fn lemma_header_lines_in_field_order(m: Metadata)
    ensures
        m.subject is Some && m.topic is Some ==> contains_text(
            header_markdown(m),
            labelled_line("**Subject:** "@, m.subject.unwrap()) + labelled_line(
                "**Topic:** "@,
                m.topic.unwrap(),
            ),
        ),
        m.topic is Some && m.author is Some ==> contains_text(
            header_markdown(m),
            labelled_line("**Topic:** "@, m.topic.unwrap()) + labelled_line(
                "**Author:** "@,
                m.author.unwrap(),
            ),
        ),
        m.author is Some && tags_line(m.tags).len() > 0 ==> contains_text(
            header_markdown(m),
            labelled_line("**Author:** "@, m.author.unwrap()) + tags_line(m.tags),
        ),
        m.subject is Some ==> ("# "@ + m.title@ + "\n\n"@ + labelled_line(
            "**Subject:** "@,
            m.subject.unwrap(),
        )).is_prefix_of(header_markdown(m)),
{
    let title = "# "@ + m.title@ + "\n\n"@;
    let os = optional_line("**Subject:** "@, m.subject);
    let ot = optional_line("**Topic:** "@, m.topic);
    let oa = optional_line("**Author:** "@, m.author);
    let tl = tags_line(m.tags);
    let end = if has_metadata_lines(m) {
        "\n"@
    } else {
        Seq::empty()
    };
    assert(header_markdown(m) == title + os + ot + oa + tl + end);
    if m.subject is Some && m.topic is Some {
        assert(title + os + ot + oa + tl + end =~= title + (os + ot) + (oa + tl + end));
        lemma_occurs_between(title, os + ot, oa + tl + end);
    }
    if m.topic is Some && m.author is Some {
        assert(title + os + ot + oa + tl + end =~= (title + os) + (ot + oa) + (tl + end));
        lemma_occurs_between(title + os, ot + oa, tl + end);
    }
    if m.author is Some && tl.len() > 0 {
        assert(title + os + ot + oa + tl + end =~= (title + os + ot) + (oa + tl) + end);
        lemma_occurs_between(title + os + ot, oa + tl, end);
    }
    if m.subject is Some {
        assert((title + os).is_prefix_of(title + os + ot + oa + tl + end)) by {
            assert((title + os + ot + oa + tl + end).subrange(0, (title + os).len() as int)
                =~= title + os);
        }
    }
}

/// The heading line of a section: its number (position + 1) and a blank line.
pub open spec fn section_heading(s: Section) -> Seq<char> {
    "## Section "@ + decimal((s.position + 1) as nat) + "\n\n"@
}

/// Law: in a section's text the cues (the left column) come first and the
/// note entries last: when it has cues, its heading is followed directly by
/// the cues block; when it has note entries, the text ends with the notes
/// block.
pub proof fn lemma_section_cues_before_notes(s: Section)
    ensures
        section_heading(s).is_prefix_of(section_markdown(s)),
        s.cues@.len() > 0 ==> (section_heading(s) + "### Cues\n\n"@ + by_position(
            cue_lines(s.cues@),
            cue_positions(s.cues@),
        ) + "\n"@).is_prefix_of(section_markdown(s)),
        s.notes@.len() > 0 ==> ("### Notes\n\n"@ + by_position(
            note_paragraphs(s.notes@),
            note_positions(s.notes@),
        )).is_suffix_of(section_markdown(s)),
{
    let h = section_heading(s);
    let cb = if s.cues@.len() > 0 {
        "### Cues\n\n"@ + by_position(cue_lines(s.cues@), cue_positions(s.cues@)) + "\n"@
    } else {
        Seq::empty()
    };
    let nb = if s.notes@.len() > 0 {
        "### Notes\n\n"@ + by_position(note_paragraphs(s.notes@), note_positions(s.notes@))
    } else {
        Seq::empty()
    };
    assert(section_markdown(s) == h + cb + nb);
    assert((h + cb + nb).subrange(0, h.len() as int) =~= h);
    if s.cues@.len() > 0 {
        assert((h + cb + nb).subrange(0, (h + cb).len() as int) =~= h + cb);
    }
    if s.notes@.len() > 0 {
        assert((h + cb + nb).subrange((h + cb).len() as int, (h + cb + nb).len() as int) =~= nb);
    }
}

/// Part `k` of an order stands in the text of the parts in that order,
/// right after the parts before it.
proof fn lemma_in_order_holds_part(parts: Seq<Seq<char>>, order: Seq<usize>, k: int)
    requires
        0 <= k < order.len(),
    ensures
        occurs_at(
            in_order(parts, order),
            parts[order[k] as int],
            in_order(parts, order.take(k)).len() as int,
        ),
    decreases order.len(),
{
    let rest = order.drop_last();
    let last = parts[order.last() as int];
    if k == order.len() - 1 {
        assert(order.take(k) =~= rest);
        assert((in_order(parts, rest) + last).subrange(
            in_order(parts, rest).len() as int,
            (in_order(parts, rest).len() + last.len()) as int,
        ) =~= last);
    } else {
        lemma_in_order_holds_part(parts, rest, k);
        assert(rest.take(k) =~= order.take(k));
        assert(rest[k] == order[k]);
        let i = in_order(parts, order.take(k)).len() as int;
        let x = parts[order[k] as int];
        assert((in_order(parts, rest) + last).subrange(i, i + x.len()) =~= in_order(
            parts,
            rest,
        ).subrange(i, i + x.len()));
    }
}

/// Law: the export starts with the title line and a blank line, ends with
/// the summary block, and holds the text of every section.
pub proof fn lemma_export_frame(n: CornellNote)
    requires
        n.sections@.len() <= usize::MAX,
    ensures
        ("# "@ + n.metadata.title@ + "\n\n"@).is_prefix_of(markdown(n)),
        ("## Summary\n\n"@ + content_text(n.summary.content) + "\n"@).is_suffix_of(markdown(n)),
        forall|i: int|
            0 <= i < n.sections@.len() ==> contains_text(
                markdown(n),
                section_markdown(#[trigger] n.sections@[i]),
            ),
{
    let t = "# "@ + n.metadata.title@ + "\n\n"@;
    assert(header_markdown(n.metadata).subrange(0, t.len() as int) =~= t);
    let body = by_position(section_texts(n.sections@), section_positions(n.sections@));
    let tail = "## Summary\n\n"@ + content_text(n.summary.content) + "\n"@;
    let h = header_markdown(n.metadata);
    assert(markdown(n) =~= h + body + tail);
    assert((h + body + tail).subrange(0, t.len() as int) =~= h.subrange(0, t.len() as int));
    assert((h + body + tail).subrange((h + body).len() as int, (h + body + tail).len() as int)
        =~= tail);
    lemma_stable_order_sorts(section_positions(n.sections@));
    let o = stable_order(section_positions(n.sections@));
    assert forall|i: int| 0 <= i < n.sections@.len() implies contains_text(
        markdown(n),
        section_markdown(#[trigger] n.sections@[i]),
    ) by {
        assert(o.contains(i as usize));
        let k = choose|k: int| 0 <= k < o.len() && o[k] == i as usize;
        lemma_in_order_holds_part(section_texts(n.sections@), o, k);
        let j = in_order(section_texts(n.sections@), o.take(k)).len() as int;
        let x = section_markdown(n.sections@[i]);
        assert(section_texts(n.sections@)[i] == x);
        assert((h + body + tail).subrange(h.len() + j, h.len() + j + x.len()) =~= body.subrange(
            j,
            j + x.len(),
        ));
        assert(occurs_at(markdown(n), x, h.len() + j));
    }
}

fn push_optional_line(out: &mut String, label: &str, value: &Option<String>)
    ensures
        final(out)@ == old(out)@ + optional_line(label@, *value),
{
    match value {
        Some(v) => {
            push_str(out, label);
            push_str(out, v.as_str());
            push_str(out, "\n");
        },
        None => {
            assert(old(out)@ + Seq::<char>::empty() =~= old(out)@);
        },
    }
}

fn push_joined(out: &mut String, parts: &Vec<String>, sep: &str)
    ensures
        final(out)@ == old(out)@ + join(texts(parts@), sep@),
{
    let ghost start = out@;
    let ghost all = texts(parts@);
    let n = parts.len();
    let mut i: usize = 0;
    assert(all.take(0) =~= Seq::<Seq<char>>::empty());
    assert(start + Seq::<char>::empty() =~= start);
    while i < n
        invariant
            n == parts@.len(),
            all == texts(parts@),
            i <= n,
            out@ == start + join(all.take(i as int), sep@),
        decreases n - i,
    {
        let ghost before = out@;
        assert(all.take(i + 1).drop_last() =~= all.take(i as int));
        if i > 0 {
            push_str(out, sep);
        }
        push_str(out, parts[i].as_str());
        proof {
            if i > 0 {
                assert(out@ =~= start + (join(all.take(i as int), sep@) + sep@ + all[i as int]));
            } else {
                assert(out@ =~= start + all[0]);
            }
        }
        i = i + 1;
    }
    assert(all.take(n as int) =~= all);
}

fn cue_keys(cues: &Vec<Cue>) -> (keys: Vec<u32>)
    ensures
        keys@ == cue_positions(cues@),
{
    let mut keys: Vec<u32> = Vec::new();
    let mut i: usize = 0;
    while i < cues.len()
        invariant
            i <= cues@.len(),
            keys@ =~= cue_positions(cues@).take(i as int),
        decreases cues@.len() - i,
    {
        keys.push(cues[i].position);
        i = i + 1;
    }
    keys
}

fn note_keys(notes: &Vec<Note>) -> (keys: Vec<u32>)
    ensures
        keys@ == note_positions(notes@),
{
    let mut keys: Vec<u32> = Vec::new();
    let mut i: usize = 0;
    while i < notes.len()
        invariant
            i <= notes@.len(),
            keys@ =~= note_positions(notes@).take(i as int),
        decreases notes@.len() - i,
    {
        keys.push(notes[i].position);
        i = i + 1;
    }
    keys
}

fn section_keys(sections: &Vec<Section>) -> (keys: Vec<u32>)
    ensures
        keys@ == section_positions(sections@),
{
    let mut keys: Vec<u32> = Vec::new();
    let mut i: usize = 0;
    while i < sections.len()
        invariant
            i <= sections@.len(),
            keys@ =~= section_positions(sections@).take(i as int),
        decreases sections@.len() - i,
    {
        keys.push(sections[i].position);
        i = i + 1;
    }
    keys
}

fn push_cue_lines(out: &mut String, cues: &Vec<Cue>)
    ensures
        final(out)@ == old(out)@ + by_position(cue_lines(cues@), cue_positions(cues@)),
{
    let ghost start = out@;
    let keys = cue_keys(cues);
    let order = stable_order_of(&keys);
    let n = order.len();
    let mut k: usize = 0;
    assert(order@.take(0) =~= Seq::<usize>::empty());
    assert(start + Seq::<char>::empty() =~= start);
    while k < n
        invariant
            n == order@.len(),
            order@ == stable_order(cue_positions(cues@)),
            order@.len() == cues@.len(),
            forall|j: int| 0 <= j < order@.len() ==> #[trigger] order@[j] < cues@.len(),
            k <= n,
            out@ == start + in_order(cue_lines(cues@), order@.take(k as int)),
        decreases n - k,
    {
        assert(order@.take(k + 1).drop_last() =~= order@.take(k as int));
        let cue = &cues[order[k]];
        let content = content_to_string(&cue.content);
        push_str(out, "- ");
        push_str(out, content.as_str());
        push_str(out, "\n");
        assert(out@ =~= start + in_order(cue_lines(cues@), order@.take(k + 1)));
        k = k + 1;
    }
    assert(order@.take(n as int) =~= order@);
}

fn push_note_paragraphs(out: &mut String, notes: &Vec<Note>)
    ensures
        final(out)@ == old(out)@ + by_position(note_paragraphs(notes@), note_positions(notes@)),
{
    let ghost start = out@;
    let keys = note_keys(notes);
    let order = stable_order_of(&keys);
    let n = order.len();
    let mut k: usize = 0;
    assert(order@.take(0) =~= Seq::<usize>::empty());
    assert(start + Seq::<char>::empty() =~= start);
    while k < n
        invariant
            n == order@.len(),
            order@ == stable_order(note_positions(notes@)),
            order@.len() == notes@.len(),
            forall|j: int| 0 <= j < order@.len() ==> #[trigger] order@[j] < notes@.len(),
            k <= n,
            out@ == start + in_order(note_paragraphs(notes@), order@.take(k as int)),
        decreases n - k,
    {
        assert(order@.take(k + 1).drop_last() =~= order@.take(k as int));
        let note = &notes[order[k]];
        let content = content_to_string(&note.content);
        push_str(out, content.as_str());
        push_str(out, "\n\n");
        assert(out@ =~= start + in_order(note_paragraphs(notes@), order@.take(k + 1)));
        k = k + 1;
    }
    assert(order@.take(n as int) =~= order@);
}

fn push_section_markdown(out: &mut String, section: &Section)
    requires
        section.position < u32::MAX,
    ensures
        final(out)@ == old(out)@ + section_markdown(*section),
{
    let ghost start = out@;
    push_str(out, "## Section ");
    push_decimal(out, section.position + 1);
    push_str(out, "\n\n");
    let ghost head = out@;
    if section.cues.len() > 0 {
        push_str(out, "### Cues\n\n");
        push_cue_lines(out, &section.cues);
        push_str(out, "\n");
    }
    let ghost middle = out@;
    if section.notes.len() > 0 {
        push_str(out, "### Notes\n\n");
        push_note_paragraphs(out, &section.notes);
    }
    assert(out@ =~= start + section_markdown(*section));
}

/// Export a Cornell Note to Markdown format: `# title`, the subject, topic,
/// author and tags lines where present, each section by position (with its
/// cues as a list and its note entries as paragraphs, both by position; equal
/// positions keep their order), and the summary.
pub fn to_markdown(note: &CornellNote) -> (output: String)
    requires
        sections_numberable(note.sections@),
    ensures
        output@ == markdown(*note),
{
    let mut output = String::new();
    push_str(&mut output, "# ");
    push_str(&mut output, note.metadata.title.as_str());
    push_str(&mut output, "\n\n");
    push_optional_line(&mut output, "**Subject:** ", &note.metadata.subject);
    push_optional_line(&mut output, "**Topic:** ", &note.metadata.topic);
    push_optional_line(&mut output, "**Author:** ", &note.metadata.author);
    let mut has_tags = false;
    match &note.metadata.tags {
        Some(tags) => {
            if tags.len() > 0 {
                push_str(&mut output, "**Tags:** ");
                push_joined(&mut output, tags, ", ");
                push_str(&mut output, "\n");
                has_tags = true;
            }
        },
        None => {},
    }
    if note.metadata.subject.is_some() || note.metadata.topic.is_some()
        || note.metadata.author.is_some() || has_tags {
        push_str(&mut output, "\n");
    }
    assert(output@ =~= header_markdown(note.metadata));
    let ghost head = output@;

    let keys = section_keys(&note.sections);
    let order = stable_order_of(&keys);
    let n = order.len();
    let mut k: usize = 0;
    assert(order@.take(0) =~= Seq::<usize>::empty());
    assert(head + Seq::<char>::empty() =~= head);
    while k < n
        invariant
            n == order@.len(),
            order@ == stable_order(section_positions(note.sections@)),
            order@.len() == note.sections@.len(),
            forall|j: int| 0 <= j < order@.len() ==> #[trigger] order@[j] < note.sections@.len(),
            sections_numberable(note.sections@),
            k <= n,
            output@ == head + in_order(section_texts(note.sections@), order@.take(k as int)),
        decreases n - k,
    {
        assert(order@.take(k + 1).drop_last() =~= order@.take(k as int));
        let section = &note.sections[order[k]];
        push_section_markdown(&mut output, section);
        assert(output@ =~= head + in_order(section_texts(note.sections@), order@.take(k + 1)));
        k = k + 1;
    }
    assert(order@.take(n as int) =~= order@);

    push_str(&mut output, "## Summary\n\n");
    let summary_content = content_to_string(&note.summary.content);
    push_str(&mut output, summary_content.as_str());
    push_str(&mut output, "\n");
    output
}

} // verus!
