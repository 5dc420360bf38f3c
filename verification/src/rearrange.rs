//! Rearranging entries: what a reordering of sections, cues and note entries
//! leaves unchanged in the Markdown export, and what the export reads.

use crate::markdown::{
    by_position, cue_lines, cue_positions, header_markdown, in_order, markdown, note_paragraphs,
    note_positions, section_markdown, section_positions, section_texts, texts,
};
use crate::model::{content_text, CornellNote, Section};
use crate::order::{is_stable_order, lemma_stable_order_unique, precedes, stable_order};
use vstd::prelude::*;

verus! {

/// `p` maps the indices `0..n` onto themselves, one to one.
pub open spec fn is_bijection(p: Seq<int>, n: int) -> bool {
    &&& p.len() == n
    &&& forall|i: int| 0 <= i < n ==> 0 <= #[trigger] p[i] < n
    &&& forall|i: int, j: int| 0 <= i < n && 0 <= j < n && i != j ==> #[trigger] p[i] != #[trigger] p[j]
    &&& forall|k: int| 0 <= k < n ==> #[trigger] p.contains(k)
}

/// `b` is `a` rearranged by `p`: entry `i` of `b` is entry `p[i]` of `a`.
pub open spec fn rearranges<A>(a: Seq<A>, b: Seq<A>, p: Seq<int>) -> bool {
    &&& a.len() == b.len()
    &&& is_bijection(p, a.len() as int)
    &&& forall|i: int| 0 <= i < b.len() ==> #[trigger] b[i] == a[p[i]]
}

/// No two of the keys are equal.
pub open spec fn distinct_keys(keys: Seq<u32>) -> bool {
    forall|a: int, b: int| 0 <= a < b < keys.len() ==> #[trigger] keys[a] != #[trigger] keys[b]
}

/// The inverse of a rearrangement rearranges back.
pub proof fn lemma_inverse_rearranges<A>(a: Seq<A>, b: Seq<A>, p: Seq<int>) -> (inv: Seq<int>)
    requires
        rearranges(a, b, p),
    ensures
        rearranges(b, a, inv),
{
    let n = a.len() as int;
    let inv = Seq::new(n as nat, |k: int| choose|i: int| 0 <= i < n && p[i] == k);
    assert forall|k: int| 0 <= k < n implies 0 <= #[trigger] inv[k] < n && p[inv[k]] == k by {
        assert(p.contains(k));
    }
    assert forall|i: int, j: int| 0 <= i < n && 0 <= j < n && i != j implies #[trigger] inv[i]
        != #[trigger] inv[j] by {
        assert(p[inv[i]] == i && p[inv[j]] == j);
    }
    assert forall|k: int| 0 <= k < n implies #[trigger] inv.contains(k) by {
        let i = p[k];
        assert(0 <= i < n);
        assert(p[inv[i]] == i);
        if inv[i] != k {
            assert(p[inv[i]] != p[k]);
        }
        assert(inv[i] == k);
    }
    assert forall|i: int| 0 <= i < a.len() implies #[trigger] a[i] == b[inv[i]] by {
        assert(p[inv[i]] == i);
        assert(b[inv[i]] == a[p[inv[i]]]);
    }
    inv
}

/// Two orders that pick equal parts place by place give the same text.
proof fn lemma_in_order_matching(
    parts1: Seq<Seq<char>>,
    o1: Seq<usize>,
    parts2: Seq<Seq<char>>,
    o2: Seq<usize>,
)
    requires
        o1.len() == o2.len(),
        forall|k: int| 0 <= k < o1.len() ==> parts1[#[trigger] o1[k] as int] == parts2[o2[k] as int],
    ensures
        in_order(parts1, o1) == in_order(parts2, o2),
    decreases o1.len(),
{
    if o1.len() > 0 {
        let k = o1.len() - 1;
        assert(parts1[o1[k] as int] == parts2[o2[k] as int]);
        lemma_in_order_matching(parts1, o1.drop_last(), parts2, o2.drop_last());
    }
}

/// Parts with distinct keys, rearranged together with their keys, come out
/// by position in the same text.
proof fn lemma_by_position_rearranged(
    parts1: Seq<Seq<char>>,
    keys1: Seq<u32>,
    parts2: Seq<Seq<char>>,
    keys2: Seq<u32>,
    p: Seq<int>,
)
    requires
        keys1.len() <= usize::MAX,
        parts1.len() == keys1.len(),
        rearranges(keys1, keys2, p),
        rearranges(parts1, parts2, p),
        distinct_keys(keys1),
    ensures
        by_position(parts1, keys1) == by_position(parts2, keys2),
{
    let n = keys1.len() as int;
    lemma_stable_order_unique(keys1, Seq::empty());
    lemma_stable_order_unique(keys2, Seq::empty());
    let o1 = stable_order(keys1);
    let o2 = stable_order(keys2);
    let q = Seq::new(n as nat, |k: int| p[o2[k] as int] as usize);
    assert forall|k: int| 0 <= k < n implies #[trigger] q[k] < n && q[k] as int == p[o2[k] as int] by {
        assert(o2[k] < n);
    }
    assert forall|j: usize| 0 <= j < n implies #[trigger] q.contains(j) by {
        assert(p.contains(j as int));
        let i = choose|i: int| 0 <= i < n && #[trigger] p[i] == j;
        assert(o2.contains(i as usize));
        let k = choose|k: int| 0 <= k < o2.len() && o2[k] == i as usize;
        assert(q[k] == j);
    }
    assert forall|a: int, b: int| 0 <= a < b < q.len() implies precedes(
        keys1,
        #[trigger] q[a],
        #[trigger] q[b],
    ) by {
        let x = o2[a] as int;
        let y = o2[b] as int;
        assert(precedes(keys2, o2[a], o2[b]));
        assert(x != y);
        assert(p[x] != p[y]);
        assert(keys2[x] == keys1[p[x]]);
        assert(keys2[y] == keys1[p[y]]);
        if p[x] < p[y] {
            assert(keys1[p[x]] != keys1[p[y]]);
        } else {
            assert(keys1[p[y]] != keys1[p[x]]);
        }
    }
    assert(is_stable_order(keys1, q));
    lemma_stable_order_unique(keys1, q);
    assert forall|k: int| 0 <= k < o1.len() implies parts1[#[trigger] o1[k] as int] == parts2[
        o2[k] as int] by {
        assert(o1[k] == q[k]);
        assert(parts2[o2[k] as int] == parts1[p[o2[k] as int]]);
    }
    lemma_in_order_matching(parts1, o1, parts2, o2);
}

/// `s2` is section `s1` with its cues rearranged by `cue_perm` and its note
/// entries rearranged by `note_perm`.
pub open spec fn section_rearranged(
    s1: Section,
    s2: Section,
    cue_perm: Seq<int>,
    note_perm: Seq<int>,
) -> bool {
    &&& s2.position == s1.position
    &&& rearranges(s1.cues@, s2.cues@, cue_perm)
    &&& rearranges(s1.notes@, s2.notes@, note_perm)
}

/// The cues of a section have distinct positions, and so have its note entries.
pub open spec fn entry_positions_distinct(s: Section) -> bool {
    distinct_keys(cue_positions(s.cues@)) && distinct_keys(note_positions(s.notes@))
}

proof fn lemma_section_text_rearranged(s1: Section, s2: Section, cue_perm: Seq<int>, note_perm: Seq<int>)
    requires
        section_rearranged(s1, s2, cue_perm, note_perm),
        entry_positions_distinct(s1),
        s1.cues@.len() <= usize::MAX,
        s1.notes@.len() <= usize::MAX,
    ensures
        section_markdown(s1) == section_markdown(s2),
{
    let c1 = s1.cues@;
    let c2 = s2.cues@;
    assert forall|i: int| 0 <= i < c2.len() implies #[trigger] cue_positions(c2)[i] == cue_positions(
        c1,
    )[cue_perm[i]] && cue_lines(c2)[i] == cue_lines(c1)[cue_perm[i]] by {
        assert(c2[i] == c1[cue_perm[i]]);
    }
    assert forall|i: int| 0 <= i < c2.len() implies #[trigger] cue_lines(c2)[i] == cue_lines(c1)[
        cue_perm[i]] by {
        assert(c2[i] == c1[cue_perm[i]]);
    }
    lemma_by_position_rearranged(cue_lines(c1), cue_positions(c1), cue_lines(c2), cue_positions(c2), cue_perm);
    let e1 = s1.notes@;
    let e2 = s2.notes@;
    assert forall|i: int| 0 <= i < e2.len() implies #[trigger] note_positions(e2)[i] == note_positions(
        e1,
    )[note_perm[i]] by {
        assert(e2[i] == e1[note_perm[i]]);
    }
    assert forall|i: int| 0 <= i < e2.len() implies #[trigger] note_paragraphs(e2)[i]
        == note_paragraphs(e1)[note_perm[i]] by {
        assert(e2[i] == e1[note_perm[i]]);
    }
    lemma_by_position_rearranged(
        note_paragraphs(e1),
        note_positions(e1),
        note_paragraphs(e2),
        note_positions(e2),
        note_perm,
    );
}

/// Law: the export does not depend on the order in which sections, cues and
/// note entries are stored, when sections have distinct positions and the
/// cues (and the note entries) of each section have distinct positions.
/// Here `n2` is `n1` with its sections rearranged by `section_perm`, and the
/// cues and note entries of its section `i` rearranged by `cue_perms[i]` and
/// `note_perms[i]`.
pub proof fn lemma_export_ignores_storage_order(
    n1: CornellNote,
    n2: CornellNote,
    section_perm: Seq<int>,
    cue_perms: Seq<Seq<int>>,
    note_perms: Seq<Seq<int>>,
)
    requires
        n2.metadata == n1.metadata,
        n2.summary == n1.summary,
        n1.sections@.len() == n2.sections@.len(),
        is_bijection(section_perm, n1.sections@.len() as int),
        cue_perms.len() == n2.sections@.len(),
        note_perms.len() == n2.sections@.len(),
        forall|i: int|
            0 <= i < n2.sections@.len() ==> section_rearranged(
                n1.sections@[section_perm[i]],
                #[trigger] n2.sections@[i],
                cue_perms[i],
                note_perms[i],
            ),
        distinct_keys(section_positions(n1.sections@)),
        forall|i: int|
            0 <= i < n1.sections@.len() ==> entry_positions_distinct(#[trigger] n1.sections@[i]),
    ensures
        markdown(n1) == markdown(n2),
{
    let s1 = n1.sections@;
    let s2 = n2.sections@;
    assert(s1.len() == n1.sections.len());
    assert forall|i: int| 0 <= i < s2.len() implies #[trigger] section_positions(s2)[i]
        == section_positions(s1)[section_perm[i]] by {
        assert(s2[i].position == s1[section_perm[i]].position);
    }
    assert forall|i: int| 0 <= i < s2.len() implies #[trigger] section_texts(s2)[i] == section_texts(s1)[
        section_perm[i]] by {
        let j = section_perm[i];
        assert(0 <= j < s1.len());
        assert(entry_positions_distinct(s1[j]));
        assert(s1[j].cues@.len() == s1[j].cues.len());
        assert(s1[j].notes@.len() == s1[j].notes.len());
        lemma_section_text_rearranged(s1[j], s2[i], cue_perms[i], note_perms[i]);
    }
    lemma_by_position_rearranged(
        section_texts(s1),
        section_positions(s1),
        section_texts(s2),
        section_positions(s2),
        section_perm,
    );
}

/// The text of an optional string.
pub open spec fn optional_text(o: Option<String>) -> Option<Seq<char>> {
    match o {
        Some(s) => Some(s@),
        None => None,
    }
}

/// The texts of an optional list of strings.
pub open spec fn optional_texts(o: Option<Vec<String>>) -> Option<Seq<Seq<char>>> {
    match o {
        Some(v) => Some(texts(v@)),
        None => None,
    }
}

/// Two sections agree on what the export prints of them: their position,
/// and, entry by entry, the position and text of their cues and note entries.
pub open spec fn same_printed_section(s1: Section, s2: Section) -> bool {
    &&& s1.position == s2.position
    &&& s1.cues@.len() == s2.cues@.len()
    &&& forall|i: int|
        0 <= i < s1.cues@.len() ==> #[trigger] s1.cues@[i].position == s2.cues@[i].position
            && content_text(s1.cues@[i].content) == content_text(s2.cues@[i].content)
    &&& s1.notes@.len() == s2.notes@.len()
    &&& forall|i: int|
        0 <= i < s1.notes@.len() ==> #[trigger] s1.notes@[i].position == s2.notes@[i].position
            && content_text(s1.notes@[i].content) == content_text(s2.notes@[i].content)
}

/// Two documents agree on what the export prints of them: the title,
/// subject, topic, author and tags, the text of the summary, and section by
/// section what is printed of each section.
pub open spec fn same_printed_document(n1: CornellNote, n2: CornellNote) -> bool {
    &&& n1.metadata.title@ == n2.metadata.title@
    &&& optional_text(n1.metadata.subject) == optional_text(n2.metadata.subject)
    &&& optional_text(n1.metadata.topic) == optional_text(n2.metadata.topic)
    &&& optional_text(n1.metadata.author) == optional_text(n2.metadata.author)
    &&& optional_texts(n1.metadata.tags) == optional_texts(n2.metadata.tags)
    &&& content_text(n1.summary.content) == content_text(n2.summary.content)
    &&& n1.sections@.len() == n2.sections@.len()
    &&& forall|i: int|
        0 <= i < n1.sections@.len() ==> same_printed_section(
            #[trigger] n1.sections@[i],
            n2.sections@[i],
        )
}

/// Law: the export reads nothing but what it prints. Documents that agree on
/// the title, subject, topic, author, tags, summary text, and on the
/// positions and texts of their sections' entries have the same export,
/// whatever their version, identifiers, times, entry types, cue links,
/// content formats and attachments.
pub proof fn lemma_export_reads_only_printed_fields(n1: CornellNote, n2: CornellNote)
    requires
        same_printed_document(n1, n2),
    ensures
        markdown(n1) == markdown(n2),
{
    let m1 = n1.metadata;
    let m2 = n2.metadata;
    if let Some(t1) = m1.tags {
        let t2 = m2.tags.unwrap();
        assert(texts(t1@).len() == t1@.len());
        assert(texts(t2@).len() == t2@.len());
    }
    assert(header_markdown(m1) == header_markdown(m2));
    let s1 = n1.sections@;
    let s2 = n2.sections@;
    assert forall|i: int| 0 <= i < s1.len() implies #[trigger] section_texts(s1)[i] == section_texts(
        s2,
    )[i] by {
        let a = s1[i];
        let b = s2[i];
        assert(same_printed_section(a, b));
        assert forall|k: int| 0 <= k < a.cues@.len() implies #[trigger] cue_lines(a.cues@)[k]
            == cue_lines(b.cues@)[k] by {
            assert(a.cues@[k].position == b.cues@[k].position);
        }
        assert(cue_lines(a.cues@) =~= cue_lines(b.cues@));
        assert(cue_positions(a.cues@) =~= cue_positions(b.cues@));
        assert forall|k: int| 0 <= k < a.notes@.len() implies #[trigger] note_paragraphs(a.notes@)[k]
            == note_paragraphs(b.notes@)[k] by {
            assert(a.notes@[k].position == b.notes@[k].position);
        }
        assert(note_paragraphs(a.notes@) =~= note_paragraphs(b.notes@));
        assert(note_positions(a.notes@) =~= note_positions(b.notes@));
    }
    assert(section_texts(s1) =~= section_texts(s2));
    assert(section_positions(s1) =~= section_positions(s2));
}

} // verus!
