//! Writing an outline and reading it back: the law that a written outline
//! reads back as itself, and what it rests on.

use crate::body::{
    body_elements, has_keyword, planning_of, planning_timestamp, scan_line, scan_lines, scan_start,
    BodyElements, Scan,
};
use crate::clock::clock_entry;
use crate::heading::{header_fields, header_text, heading_level, is_heading, HeaderFields};
use crate::heading_laws::{is_tag, is_well_formed_heading, lemma_heading_round_trip};
use crate::line_laws::{
    all_lines, ends_clean, is_line, is_terminated, lemma_ends_clean_with_feed, lemma_join_of_lines,
    lemma_lines_append, lemma_lines_append_six, lemma_lines_are_lines, lemma_lines_concat,
    lemma_lines_of_joined_body, lemma_lines_of_one, lemma_subrange_index, lemma_subrange_split,
};
use crate::model::{ClockEntryView, LogbookView, NoteView, PlanningView, TimestampView};
use crate::nesting_laws::{lemma_body_end_is, lemma_section_end_is, lemma_skip_plain};
use crate::parser::{
    body_end, closes_section, document, levels_descend, note_at, notes_between, section_end,
};
use crate::serializer::{
    content_text, entries_text, heading_line, is_blank, labels_part, logbook_text, note_text,
    notes_text, planning_line, planning_text, status_part,
};
use crate::text::{
    is_space, is_word, join, lacks, lines, repeat, starts_with, trim, trim_start, words,
};
use crate::text_laws::{
    lemma_find_behind_prefix, lemma_join_lacks, lemma_trim_begins, lemma_trim_clean,
    lemma_trim_first, lemma_trimmed_ends,
};
use crate::timestamp::timestamp;
use vstd::prelude::*;

verus! {

/// The planning line of one role, if the role has a value.
pub open spec fn planning_line_of(keyword: Seq<char>, value: Option<TimestampView>) -> Seq<
    Seq<char>,
> {
    match value {
        Some(t) => seq![keyword + seq![' '] + t.raw],
        None => Seq::empty(),
    }
}

/// The planning lines that a note is written with.
pub open spec fn planning_lines(planning: Option<PlanningView>) -> Seq<Seq<char>> {
    match planning {
        Some(p) => planning_line_of("SCHEDULED:"@, p.scheduled) + planning_line_of(
            "DEADLINE:"@,
            p.deadline,
        ) + planning_line_of("CLOSED:"@, p.closed),
        None => Seq::empty(),
    }
}

/// The lines of the clock entries, each as it was read.
pub open spec fn entry_lines(entries: Seq<ClockEntryView>) -> Seq<Seq<char>> {
    Seq::new(entries.len(), |i: int| entries[i].raw)
}

/// The lines of the drawer that a note is written with.
pub open spec fn logbook_lines(logbook: Option<LogbookView>) -> Seq<Seq<char>> {
    match logbook {
        Some(l) => if l.clock_entries.len() > 0 {
            seq![":LOGBOOK:"@] + entry_lines(l.clock_entries) + seq![":END:"@]
        } else {
            Seq::empty()
        },
        None => Seq::empty(),
    }
}

/// The lines of the text that a note is written with.
pub open spec fn content_lines(content: Seq<char>) -> Seq<Seq<char>> {
    if is_blank(content) {
        Seq::empty()
    } else {
        lines(content + seq!['\n'])
    }
}

/// The lines between the heading of a written note and the empty line
/// that ends its body.
pub open spec fn body_lines(note: NoteView) -> Seq<Seq<char>> {
    planning_lines(note.planning) + logbook_lines(note.logbook) + content_lines(note.content)
}

/// The lines that a note is written as, with all below it.
pub open spec fn note_lines(note: NoteView) -> Seq<Seq<char>>
    decreases note, 0nat,
{
    seq![heading_line(note.level, note.status, note.title, note.labels)] + body_lines(note)
        + seq![Seq::<char>::empty()] + forest_lines(note.children)
}

/// The lines that a list of notes is written as.
pub open spec fn forest_lines(list: Seq<NoteView>) -> Seq<Seq<char>>
    decreases list, 1nat,
{
    if list.len() == 0 {
        Seq::empty()
    } else {
        note_lines(list[0]) + forest_lines(list.drop_first())
    }
}

/// A timestamp that is written and read back as itself: its text is
/// trimmed, holds no line feed, and reads as the timestamp.
pub open spec fn is_stable_stamp(t: TimestampView) -> bool {
    timestamp(t.raw) == Some(t) && trim(t.raw) == t.raw && lacks(t.raw, '\n')
}

/// Planning that is written and read back as itself: it has a value, each
/// value is stable, and no value's text holds the keyword of a role that
/// is read before its own.
pub open spec fn is_stable_planning(planning: Option<PlanningView>) -> bool {
    match planning {
        Some(p) => {
            &&& p.scheduled is Some || p.deadline is Some || p.closed is Some
            &&& p.scheduled matches Some(t) ==> is_stable_stamp(t)
            &&& p.deadline matches Some(t) ==> is_stable_stamp(t) && !has_keyword(
                t.raw,
                "SCHEDULED:"@,
            )
            &&& p.closed matches Some(t) ==> is_stable_stamp(t) && !has_keyword(
                t.raw,
                "SCHEDULED:"@,
            ) && !has_keyword(t.raw, "DEADLINE:"@)
        },
        None => true,
    }
}

/// A clock entry that is written and read back as itself: its line is a
/// line and reads as the entry.
pub open spec fn is_stable_entry(e: ClockEntryView) -> bool {
    clock_entry(e.raw) == Some(e) && is_line(e.raw)
}

/// A log that is written and read back as itself: it has entries, each is
/// stable, and its drawer held their lines and no others.
pub open spec fn is_stable_logbook(logbook: Option<LogbookView>) -> bool {
    match logbook {
        Some(l) => {
            &&& l.clock_entries.len() > 0
            &&& forall|i: int|
                0 <= i < l.clock_entries.len() ==> is_stable_entry(#[trigger] l.clock_entries[i])
            &&& l.raw_content == entry_lines(l.clock_entries)
        },
        None => true,
    }
}

/// A line that stays in the text of a note where no drawer is open: it
/// opens none, holds no planning keyword, and is no heading.
pub open spec fn is_plain_line(l: Seq<char>) -> bool {
    &&& trim(l) != ":LOGBOOK:"@
    &&& !has_keyword(l, "SCHEDULED:"@)
    &&& !has_keyword(l, "DEADLINE:"@)
    &&& !has_keyword(l, "CLOSED:"@)
    &&& !is_heading(l)
}

/// Text that is written and read back as itself: it is empty or not
/// blank, none of its lines ends in a carriage return, and each of them is
/// plain.
pub open spec fn is_stable_content(content: Seq<char>) -> bool {
    &&& is_blank(content) ==> content.len() == 0
    &&& ends_clean(content)
    &&& forall|i: int|
        0 <= i < content_lines(content).len() ==> is_plain_line(
            #[trigger] content_lines(content)[i],
        )
}

/// A note that is written and read back as itself, with all below it.
///
/// Its level is positive and its heading is well formed, the title being
/// words with single spaces between them. Planning, log and text are
/// stable. Its children lie deeper than it, their levels never rise from
/// one to the next, and each is stable.
pub open spec fn is_stable(note: NoteView) -> bool
    decreases note,
{
    &&& note.level > 0
    &&& join(words(note.title), ' ') == note.title
    &&& is_well_formed_heading(note.status, words(note.title), note.labels)
    &&& is_stable_planning(note.planning)
    &&& is_stable_logbook(note.logbook)
    &&& is_stable_content(note.content)
    &&& levels_descend(note.children)
    &&& forall|i: int|
        0 <= i < note.children.len() ==> (#[trigger] note.children[i]).level > note.level
            && is_stable(note.children[i])
}

/// A list of notes that is written and read back as itself.
pub open spec fn all_stable(list: Seq<NoteView>) -> bool {
    levels_descend(list) && forall|i: int| 0 <= i < list.len() ==> is_stable(#[trigger] list[i])
}

/// The heading line of a well-formed heading holds no whitespace but
/// spaces.
pub proof fn lemma_heading_line_lacks(
    level: nat,
    status: Option<Seq<char>>,
    title_words: Seq<Seq<char>>,
    labels: Seq<Seq<char>>,
    c: char,
)
    requires
        is_well_formed_heading(status, title_words, labels),
        is_space(c),
        c != ' ',
    ensures
        lacks(heading_line(level, status, join(title_words, ' '), labels), c),
{
    let title = join(title_words, ' ');
    assert forall|i: int| 0 <= i < title_words.len() implies lacks(
        #[trigger] title_words[i],
        c,
    ) by {
        assert(is_word(title_words[i]));
    }
    lemma_join_lacks(title_words, ' ', c);
    assert forall|i: int| 0 <= i < labels.len() implies lacks(#[trigger] labels[i], c) by {
        assert(is_tag(labels[i]));
    }
    lemma_join_lacks(labels, ':', c);
    assert(lacks(status_part(status), c));
    assert(lacks(labels_part(labels), c));
    assert(lacks(repeat('*', level), c));
}

/// The heading line of a well-formed heading is a line.
pub proof fn lemma_heading_line_is_line(
    level: nat,
    status: Option<Seq<char>>,
    title_words: Seq<Seq<char>>,
    labels: Seq<Seq<char>>,
)
    requires
        is_well_formed_heading(status, title_words, labels),
    ensures
        is_line(heading_line(level, status, join(title_words, ' '), labels)),
{
    lemma_heading_line_lacks(level, status, title_words, labels, '\n');
    lemma_heading_line_lacks(level, status, title_words, labels, '\r');
}

/// The three planning keywords hold no line break and no whitespace, and
/// each begins as it does.
pub proof fn lemma_keywords()
    ensures
        lacks("SCHEDULED:"@, '\n'),
        lacks("DEADLINE:"@, '\n'),
        lacks("CLOSED:"@, '\n'),
        "SCHEDULED:"@.len() == 10,
        "DEADLINE:"@.len() == 9,
        "CLOSED:"@.len() == 7,
        "SCHEDULED:"@[0] == 'S',
        "SCHEDULED:"@[1] == 'C',
        "DEADLINE:"@[0] == 'D',
        "DEADLINE:"@[1] == 'E',
        "CLOSED:"@[0] == 'C',
        "CLOSED:"@[1] == 'L',
{
    reveal_strlit("SCHEDULED:");
    reveal_strlit("DEADLINE:");
    reveal_strlit("CLOSED:");
}

/// A planning line of a stable timestamp is a line.
pub proof fn lemma_planning_line_is_line(keyword: Seq<char>, t: TimestampView)
    requires
        is_stable_stamp(t),
        lacks(keyword, '\n'),
    ensures
        is_line(keyword + seq![' '] + t.raw),
{
    let l = keyword + seq![' '] + t.raw;
    if t.raw.len() > 0 {
        lemma_trimmed_ends(t.raw);
        assert(l.last() == t.raw.last());
    } else {
        assert(l.last() == ' ');
    }
}

/// The text of one planning line reads as that line.
pub proof fn lemma_lines_of_planning_line(keyword: Seq<char>, value: Option<TimestampView>)
    requires
        value matches Some(t) ==> is_stable_stamp(t),
        lacks(keyword, '\n'),
    ensures
        lines(planning_line(keyword, value)) == planning_line_of(keyword, value),
        is_terminated(planning_line(keyword, value)),
{
    match value {
        Some(t) => {
            lemma_planning_line_is_line(keyword, t);
            lemma_lines_of_one(keyword + seq![' '] + t.raw);
        },
        None => {},
    }
}

/// The planning text of a note reads as its planning lines.
pub proof fn lemma_lines_of_planning_text(planning: Option<PlanningView>)
    requires
        is_stable_planning(planning),
    ensures
        lines(planning_text(planning)) == planning_lines(planning),
        is_terminated(planning_text(planning)),
{
    lemma_keywords();
    match planning {
        Some(p) => {
            let a = planning_line("SCHEDULED:"@, p.scheduled);
            let b = planning_line("DEADLINE:"@, p.deadline);
            let c = planning_line("CLOSED:"@, p.closed);
            lemma_lines_of_planning_line("SCHEDULED:"@, p.scheduled);
            lemma_lines_of_planning_line("DEADLINE:"@, p.deadline);
            lemma_lines_of_planning_line("CLOSED:"@, p.closed);
            lemma_lines_concat(a, b);
            lemma_lines_concat(a + b, c);
        },
        None => {},
    }
}

/// The text of the entries reads as their lines.
pub proof fn lemma_lines_of_entries_text(entries: Seq<ClockEntryView>)
    requires
        forall|i: int| 0 <= i < entries.len() ==> is_line(#[trigger] entries[i].raw),
    ensures
        lines(entries_text(entries)) == entry_lines(entries),
        is_terminated(entries_text(entries)),
    decreases entries.len(),
{
    if entries.len() == 0 {
        assert(entry_lines(entries) == Seq::<Seq<char>>::empty());
    } else {
        let init = entries.drop_last();
        assert forall|i: int| 0 <= i < init.len() implies is_line(#[trigger] init[i].raw) by {
            assert(init[i] == entries[i]);
        }
        lemma_lines_of_entries_text(init);
        let last = entries.last();
        assert(is_line(last.raw));
        lemma_lines_of_one(last.raw);
        assert(entries_text(entries) == entries_text(init) + (last.raw + seq!['\n']));
        lemma_lines_append(
            entries_text(init),
            entry_lines(init),
            last.raw + seq!['\n'],
            seq![last.raw],
        );
        assert(entry_lines(init) + seq![last.raw] == entry_lines(entries));
    }
}

/// The two marks of a drawer are lines.
pub proof fn lemma_drawer_marks()
    ensures
        is_line(":LOGBOOK:"@),
        is_line(":END:"@),
        ":LOGBOOK:"@.len() == 9,
        ":END:"@.len() == 5,
        ":LOGBOOK:"@[0] == ':',
        ":END:"@[0] == ':',
        ":LOGBOOK:"@.last() == ':',
        ":END:"@.last() == ':',
{
    reveal_strlit(":LOGBOOK:");
    reveal_strlit(":END:");
}

/// The drawer of a note reads as its lines.
pub proof fn lemma_lines_of_logbook_text(logbook: Option<LogbookView>)
    requires
        is_stable_logbook(logbook),
    ensures
        lines(logbook_text(logbook)) == logbook_lines(logbook),
        is_terminated(logbook_text(logbook)),
{
    lemma_drawer_marks();
    match logbook {
        Some(l) => {
            if l.clock_entries.len() > 0 {
                let open = ":LOGBOOK:"@ + seq!['\n'];
                let mid = entries_text(l.clock_entries);
                let close = ":END:"@ + seq!['\n'];
                lemma_lines_of_one(":LOGBOOK:"@);
                lemma_lines_of_one(":END:"@);
                assert forall|i: int| 0 <= i < l.clock_entries.len() implies is_line(
                    #[trigger] l.clock_entries[i].raw,
                ) by {
                    assert(is_stable_entry(l.clock_entries[i]));
                }
                lemma_lines_of_entries_text(l.clock_entries);
                assert(logbook_text(logbook) == open + mid + close);
                lemma_lines_concat(open, mid);
                lemma_lines_concat(open + mid, close);
            }
        },
        None => {},
    }
}

/// The lines of a list of notes end with the lines of its last note.
pub proof fn lemma_forest_lines_last(list: Seq<NoteView>)
    requires
        list.len() > 0,
    ensures
        forest_lines(list) == forest_lines(list.drop_last()) + note_lines(list.last()),
    decreases list.len(),
{
    if list.len() == 1 {
        assert(list.drop_first() == Seq::<NoteView>::empty());
        assert(list.drop_last() == Seq::<NoteView>::empty());
        assert(forest_lines(Seq::<NoteView>::empty()) == Seq::<Seq<char>>::empty());
        assert(forest_lines(list) == note_lines(list[0]) + forest_lines(list.drop_first()));
        assert(forest_lines(list) == note_lines(list[0]) + Seq::<Seq<char>>::empty());
        assert(Seq::<Seq<char>>::empty() + note_lines(list[0]) == note_lines(list[0]));
    } else {
        let rest = list.drop_first();
        lemma_forest_lines_last(rest);
        assert(rest.drop_last() == list.drop_last().drop_first());
        assert(rest.last() == list.last());
        assert(list.drop_last()[0] == list[0]);
        assert(note_lines(list[0]) + (forest_lines(rest.drop_last()) + note_lines(list.last()))
            == (note_lines(list[0]) + forest_lines(rest.drop_last())) + note_lines(list.last()));
    }
}

/// The text of a note in six parts: the heading line, the planning, the
/// drawer, the text, the empty line and the children.
pub open spec fn note_text_parts(note: NoteView) -> Seq<Seq<char>> {
    seq![
        heading_line(note.level, note.status, note.title, note.labels) + seq!['\n'],
        planning_text(note.planning),
        logbook_text(note.logbook),
        content_text(note.content),
        seq!['\n'],
        notes_text(note.children),
    ]
}

/// The lines of a note in six parts, as its text has them.
pub open spec fn note_lines_parts(note: NoteView) -> Seq<Seq<Seq<char>>> {
    seq![
        seq![heading_line(note.level, note.status, note.title, note.labels)],
        planning_lines(note.planning),
        logbook_lines(note.logbook),
        content_lines(note.content),
        seq![Seq::<char>::empty()],
        forest_lines(note.children),
    ]
}

/// The text and the lines of a note are made of their six parts.
pub proof fn lemma_note_parts(note: NoteView)
    ensures
        note_text(note) == note_text_parts(note)[0] + note_text_parts(note)[1] + note_text_parts(
            note,
        )[2] + note_text_parts(note)[3] + note_text_parts(note)[4] + note_text_parts(note)[5],
        note_lines(note) == note_lines_parts(note)[0] + note_lines_parts(note)[1]
            + note_lines_parts(note)[2] + note_lines_parts(note)[3] + note_lines_parts(note)[4]
            + note_lines_parts(note)[5],
        note_text_parts(note).len() == 6,
        note_lines_parts(note).len() == 6,
{
    let heading = heading_line(note.level, note.status, note.title, note.labels);
    let lb = planning_lines(note.planning);
    let lc = logbook_lines(note.logbook);
    let ld = content_lines(note.content);
    let le = seq![Seq::<char>::empty()];
    let lf = forest_lines(note.children);
    assert(body_lines(note) == lb + lc + ld);
    assert(seq![heading] + (lb + lc + ld) + le + lf == seq![heading] + lb + lc + ld + le + lf);
}

/// The text of a stable note reads as the lines it is written as.
pub proof fn lemma_lines_of_note_text(note: NoteView)
    requires
        is_stable(note),
    ensures
        lines(note_text(note)) == note_lines(note),
        is_terminated(note_text(note)),
        note_text(note).len() > 0,
    decreases note, 0nat,
{
    let heading = heading_line(note.level, note.status, note.title, note.labels);
    let texts = note_text_parts(note);
    let read = note_lines_parts(note);
    assert(lines(texts[0]) == read[0] && is_terminated(texts[0])) by {
        lemma_heading_line_is_line(note.level, note.status, words(note.title), note.labels);
        lemma_lines_of_one(heading);
    }
    assert(lines(texts[1]) == read[1] && is_terminated(texts[1])) by {
        lemma_lines_of_planning_text(note.planning);
    }
    assert(lines(texts[2]) == read[2] && is_terminated(texts[2])) by {
        lemma_lines_of_logbook_text(note.logbook);
    }
    assert(lines(texts[3]) == read[3] && is_terminated(texts[3]));
    assert(lines(texts[4]) == read[4] && is_terminated(texts[4])) by {
        lemma_lines_of_one(Seq::<char>::empty());
        assert(Seq::<char>::empty() + seq!['\n'] == texts[4]);
    }
    assert(lines(texts[5]) == read[5] && is_terminated(texts[5])) by {
        assert forall|i: int| 0 <= i < note.children.len() implies is_stable(
            #[trigger] note.children[i],
        ) by {}
        lemma_lines_of_notes_text(note.children);
    }
    lemma_lines_append_six(texts, read);
    lemma_note_parts(note);
    assert(texts[0].len() > 0);
}

/// The text of a list of stable notes reads as the lines it is written as.
pub proof fn lemma_lines_of_notes_text(list: Seq<NoteView>)
    requires
        forall|i: int| 0 <= i < list.len() ==> is_stable(#[trigger] list[i]),
    ensures
        lines(notes_text(list)) == forest_lines(list),
        is_terminated(notes_text(list)),
    decreases list, 1nat,
{
    if list.len() > 0 {
        let init = list.drop_last();
        assert forall|i: int| 0 <= i < init.len() implies is_stable(#[trigger] init[i]) by {
            assert(init[i] == list[i]);
        }
        lemma_lines_of_notes_text(init);
        assert(is_stable(list.last()));
        lemma_lines_of_note_text(list.last());
        lemma_lines_concat(notes_text(init), note_text(list.last()));
        lemma_forest_lines_last(list);
    }
}

/// The scan that goes on from `st` over the lines `more`.
pub open spec fn scan_from(st: Scan, more: Seq<Seq<char>>) -> Scan
    decreases more.len(),
{
    if more.len() == 0 {
        st
    } else {
        scan_line(scan_from(st, more.drop_last()), more.last())
    }
}

/// The scan over lines goes on from the scan before the first line.
pub proof fn lemma_scan_from_start(body: Seq<Seq<char>>)
    ensures
        scan_lines(body) == scan_from(scan_start(), body),
    decreases body.len(),
{
    if body.len() > 0 {
        lemma_scan_from_start(body.drop_last());
    }
}

/// A scan over two runs of lines goes over the first and on over the
/// second.
pub proof fn lemma_scan_from_concat(st: Scan, first: Seq<Seq<char>>, second: Seq<Seq<char>>)
    ensures
        scan_from(st, first + second) == scan_from(scan_from(st, first), second),
    decreases second.len(),
{
    if second.len() == 0 {
        assert(first + second == first);
    } else {
        assert((first + second).drop_last() == first + second.drop_last());
        assert((first + second).last() == second.last());
        lemma_scan_from_concat(st, first, second.drop_last());
    }
}

/// A scan that goes on over one line is the scan after that line.
pub proof fn lemma_scan_from_one(st: Scan, line: Seq<char>)
    ensures
        scan_from(st, seq![line]) == scan_line(st, line),
{
    assert(seq![line].drop_last() == Seq::<Seq<char>>::empty());
    assert(scan_from(st, Seq::<Seq<char>>::empty()) == st);
}

/// A planning line is read as the value of its role: the keyword is found
/// at its beginning and the timestamp behind it is the one written.
pub proof fn lemma_planning_line_value(keyword: Seq<char>, t: TimestampView)
    requires
        is_stable_stamp(t),
        keyword.len() > 0,
    ensures
        has_keyword(keyword + seq![' '] + t.raw, keyword),
        planning_timestamp(keyword + seq![' '] + t.raw, keyword) == Some(t),
{
    let line = keyword + seq![' '] + t.raw;
    assert(line.take(keyword.len() as int) == keyword);
    assert(starts_with(line, keyword));
    let after = line.skip(keyword.len() as int);
    assert(after == seq![' '] + t.raw);
    assert(after[0] == ' ');
    assert(after.drop_first() == t.raw);
    assert(trim_start(after) == trim_start(t.raw));
}

/// A planning line opens no drawer and is no heading.
pub proof fn lemma_planning_line_shape(keyword: Seq<char>, raw: Seq<char>)
    requires
        keyword.len() > 0,
        !is_space(keyword[0]),
        keyword[0] != ':',
        keyword[0] != '*',
    ensures
        trim(keyword + seq![' '] + raw) != ":LOGBOOK:"@,
        !is_heading(keyword + seq![' '] + raw),
{
    let line = keyword + seq![' '] + raw;
    assert(line[0] == keyword[0]);
    lemma_trim_first(line);
    lemma_drawer_marks();
    assert(trim_start(line) == line);
}

/// The scan over the planning lines of a note sets each role that has a
/// value and changes nothing else.
pub proof fn lemma_scan_planning(st: Scan, planning: Option<PlanningView>)
    requires
        !st.in_drawer,
        is_stable_planning(planning),
        st.scheduled is None,
        st.deadline is None,
        st.closed is None,
    ensures
        scan_from(st, planning_lines(planning)) == (match planning {
            Some(p) => Scan {
                scheduled: p.scheduled,
                deadline: p.deadline,
                closed: p.closed,
                ..st
            },
            None => st,
        }),
{
    lemma_keywords();
    match planning {
        Some(p) => {
            let a = planning_line_of("SCHEDULED:"@, p.scheduled);
            let b = planning_line_of("DEADLINE:"@, p.deadline);
            let c = planning_line_of("CLOSED:"@, p.closed);
            let st1 = Scan { scheduled: p.scheduled, ..st };
            let st2 = Scan { deadline: p.deadline, ..st1 };
            let st3 = Scan { closed: p.closed, ..st2 };
            assert(scan_from(st, a) == st1) by {
                match p.scheduled {
                    Some(t) => {
                        let line = "SCHEDULED:"@ + seq![' '] + t.raw;
                        lemma_scan_from_one(st, line);
                        lemma_planning_line_shape("SCHEDULED:"@, t.raw);
                        lemma_planning_line_value("SCHEDULED:"@, t);
                    },
                    None => {},
                }
            }
            assert(scan_from(st1, b) == st2) by {
                match p.deadline {
                    Some(t) => {
                        let line = "DEADLINE:"@ + seq![' '] + t.raw;
                        lemma_scan_from_one(st1, line);
                        lemma_planning_line_shape("DEADLINE:"@, t.raw);
                        lemma_planning_line_value("DEADLINE:"@, t);
                        lemma_deadline_prefix();
                        lemma_find_behind_prefix(
                            "DEADLINE:"@ + seq![' '],
                            t.raw,
                            "SCHEDULED:"@,
                        );
                    },
                    None => {},
                }
            }
            assert(scan_from(st2, c) == st3) by {
                match p.closed {
                    Some(t) => {
                        let line = "CLOSED:"@ + seq![' '] + t.raw;
                        lemma_scan_from_one(st2, line);
                        lemma_planning_line_shape("CLOSED:"@, t.raw);
                        lemma_planning_line_value("CLOSED:"@, t);
                        lemma_closed_prefix();
                        lemma_find_behind_prefix("CLOSED:"@ + seq![' '], t.raw, "SCHEDULED:"@);
                        lemma_find_behind_prefix("CLOSED:"@ + seq![' '], t.raw, "DEADLINE:"@);
                    },
                    None => {},
                }
            }
            lemma_scan_from_concat(st, a, b);
            lemma_scan_from_concat(st, a + b, c);
        },
        None => {},
    }
}

/// In `DEADLINE: ` the keyword `SCHEDULED:` cannot begin.
pub proof fn lemma_deadline_prefix()
    ensures
        forall|k: int|
            0 <= k < ("DEADLINE:"@ + seq![' ']).len() ==> #[trigger] ("DEADLINE:"@ + seq![' '])[k]
                != "SCHEDULED:"@[0] || (k + 1 < ("DEADLINE:"@ + seq![' ']).len() && ("DEADLINE:"@
                + seq![' '])[k + 1] != "SCHEDULED:"@[1]),
{
    reveal_strlit("SCHEDULED:");
    reveal_strlit("DEADLINE:");
}

/// In `CLOSED: ` neither `SCHEDULED:` nor `DEADLINE:` can begin.
pub proof fn lemma_closed_prefix()
    ensures
        forall|k: int|
            0 <= k < ("CLOSED:"@ + seq![' ']).len() ==> #[trigger] ("CLOSED:"@ + seq![' '])[k]
                != "SCHEDULED:"@[0] || (k + 1 < ("CLOSED:"@ + seq![' ']).len() && ("CLOSED:"@
                + seq![' '])[k + 1] != "SCHEDULED:"@[1]),
        forall|k: int|
            0 <= k < ("CLOSED:"@ + seq![' ']).len() ==> #[trigger] ("CLOSED:"@ + seq![' '])[k]
                != "DEADLINE:"@[0] || (k + 1 < ("CLOSED:"@ + seq![' ']).len() && ("CLOSED:"@
                + seq![' '])[k + 1] != "DEADLINE:"@[1]),
{
    reveal_strlit("SCHEDULED:");
    reveal_strlit("DEADLINE:");
    reveal_strlit("CLOSED:");
}

/// The line of a stable clock entry begins, behind its leading
/// whitespace, with the `C` of `CLOCK:`.
pub proof fn lemma_entry_line_begins(e: ClockEntryView)
    requires
        is_stable_entry(e),
    ensures
        trim(e.raw).len() > 0,
        trim(e.raw)[0] == 'C',
        trim_start(e.raw).len() > 0,
        trim_start(e.raw)[0] == 'C',
{
    reveal_strlit("CLOCK:");
    let t = trim(e.raw);
    assert(starts_with(t, "CLOCK:"@));
    assert(t.take("CLOCK:"@.len() as int)[0] == "CLOCK:"@[0]);
    lemma_trim_begins(e.raw);
}

/// The line of a stable clock entry is no heading and no mark of a drawer.
pub proof fn lemma_entry_line_shape(e: ClockEntryView)
    requires
        is_stable_entry(e),
    ensures
        !is_heading(e.raw),
        trim(e.raw) != ":LOGBOOK:"@,
        trim(e.raw) != ":END:"@,
{
    lemma_entry_line_begins(e);
    lemma_drawer_marks();
}

/// The scan over the lines of stable entries in an open drawer keeps each
/// line with the drawer and adds each entry.
pub proof fn lemma_scan_entries(st: Scan, entries: Seq<ClockEntryView>)
    requires
        st.in_drawer,
        forall|i: int| 0 <= i < entries.len() ==> is_stable_entry(#[trigger] entries[i]),
    ensures
        scan_from(st, entry_lines(entries)) == (Scan {
            drawer_lines: st.drawer_lines + entry_lines(entries),
            clock_entries: st.clock_entries + entries,
            ..st
        }),
    decreases entries.len(),
{
    let list = entry_lines(entries);
    if entries.len() == 0 {
        assert(st.drawer_lines + list == st.drawer_lines);
        assert(st.clock_entries + entries == st.clock_entries);
    } else {
        let init = entries.drop_last();
        let last = entries.last();
        assert forall|i: int| 0 <= i < init.len() implies is_stable_entry(#[trigger] init[i]) by {
            assert(init[i] == entries[i]);
        }
        lemma_scan_entries(st, init);
        assert(list.drop_last() == entry_lines(init));
        assert(list.last() == last.raw);
        assert(is_stable_entry(last));
        lemma_entry_line_shape(last);
        assert((st.drawer_lines + entry_lines(init)).push(last.raw) == st.drawer_lines + list);
        assert((st.clock_entries + init).push(last) == st.clock_entries + entries);
    }
}

/// The scan over the drawer of a note yields its log.
pub proof fn lemma_scan_logbook(st: Scan, logbook: Option<LogbookView>)
    requires
        !st.in_drawer,
        st.logbook is None,
        st.drawer_lines.len() == 0,
        st.clock_entries.len() == 0,
        is_stable_logbook(logbook),
    ensures
        scan_from(st, logbook_lines(logbook)).kept == st.kept,
        scan_from(st, logbook_lines(logbook)).scheduled == st.scheduled,
        scan_from(st, logbook_lines(logbook)).deadline == st.deadline,
        scan_from(st, logbook_lines(logbook)).closed == st.closed,
        scan_from(st, logbook_lines(logbook)).logbook == logbook,
        !scan_from(st, logbook_lines(logbook)).in_drawer,
{
    lemma_drawer_marks();
    match logbook {
        Some(l) => {
            let open = seq![":LOGBOOK:"@];
            let mid = entry_lines(l.clock_entries);
            let close = seq![":END:"@];
            let st1 = Scan { in_drawer: true, ..st };
            assert(scan_from(st, open) == st1) by {
                lemma_scan_from_one(st, ":LOGBOOK:"@);
                lemma_trim_clean_mark(":LOGBOOK:"@);
            }
            lemma_scan_entries(st1, l.clock_entries);
            let st2 = scan_from(st1, mid);
            assert(st2.drawer_lines == mid) by {
                assert(st.drawer_lines + mid == mid);
            }
            assert(st2.clock_entries == l.clock_entries) by {
                assert(st.clock_entries + l.clock_entries == l.clock_entries);
            }
            let st3 = scan_from(st2, close);
            assert(st3 == scan_line(st2, ":END:"@)) by {
                lemma_scan_from_one(st2, ":END:"@);
            }
            assert(trim(":END:"@) == ":END:"@) by {
                lemma_trim_clean_mark(":END:"@);
            }
            assert(":END:"@ != ":LOGBOOK:"@);
            lemma_scan_from_concat(st, open, mid);
            lemma_scan_from_concat(st, open + mid, close);
            assert(st3.logbook == Some(
                LogbookView { clock_entries: l.clock_entries, raw_content: mid },
            ));
        },
        None => {},
    }
}

/// A mark of a drawer is its own trimming.
pub proof fn lemma_trim_clean_mark(mark: Seq<char>)
    requires
        mark.len() > 0,
        mark[0] == ':',
        mark.last() == ':',
    ensures
        trim(mark) == mark,
{
    lemma_trim_clean(mark);
}

/// The scan over plain lines outside a drawer keeps each of them.
pub proof fn lemma_scan_plain(st: Scan, plain: Seq<Seq<char>>)
    requires
        !st.in_drawer,
        forall|i: int| 0 <= i < plain.len() ==> is_plain_line(#[trigger] plain[i]),
    ensures
        scan_from(st, plain) == (Scan { kept: st.kept + plain, ..st }),
    decreases plain.len(),
{
    if plain.len() == 0 {
        assert(st.kept + plain == st.kept);
    } else {
        let init = plain.drop_last();
        assert forall|i: int| 0 <= i < init.len() implies is_plain_line(#[trigger] init[i]) by {
            assert(init[i] == plain[i]);
        }
        lemma_scan_plain(st, init);
        assert(is_plain_line(plain.last()));
        assert((st.kept + init).push(plain.last()) == st.kept + plain);
    }
}

/// The lines that the body of a stable note is written as are lines.
pub proof fn lemma_body_lines_are_lines(note: NoteView)
    requires
        is_stable_planning(note.planning),
        is_stable_logbook(note.logbook),
        is_stable_content(note.content),
    ensures
        all_lines(body_lines(note)),
{
    lemma_keywords();
    lemma_drawer_marks();
    let a = planning_lines(note.planning);
    let b = logbook_lines(note.logbook);
    let c = content_lines(note.content);
    assert(all_lines(a)) by {
        match note.planning {
            Some(p) => {
                if p.scheduled is Some {
                    lemma_planning_line_is_line("SCHEDULED:"@, p.scheduled->0);
                }
                if p.deadline is Some {
                    lemma_planning_line_is_line("DEADLINE:"@, p.deadline->0);
                }
                if p.closed is Some {
                    lemma_planning_line_is_line("CLOSED:"@, p.closed->0);
                }
            },
            None => {},
        }
    }
    assert(all_lines(b)) by {
        match note.logbook {
            Some(l) => {
                assert forall|i: int| 0 <= i < b.len() implies is_line(#[trigger] b[i]) by {
                    if 0 < i < b.len() - 1 {
                        assert(b[i] == l.clock_entries[i - 1].raw);
                        assert(is_stable_entry(l.clock_entries[i - 1]));
                    }
                }
            },
            None => {},
        }
    }
    assert(all_lines(c)) by {
        if !is_blank(note.content) {
            lemma_ends_clean_with_feed(note.content);
            assert(Seq::<char>::empty() + (note.content + seq!['\n']) == note.content + seq!['\n']);
            lemma_lines_are_lines(note.content + seq!['\n'], Seq::empty());
        }
    }
}

/// The body of a stable note, as it is written, reads as the text, the
/// planning and the log of the note.
pub proof fn lemma_body_round_trip(note: NoteView)
    requires
        is_stable_planning(note.planning),
        is_stable_logbook(note.logbook),
        is_stable_content(note.content),
    ensures
        body_elements(join(body_lines(note).push(Seq::empty()), '\n')) == (BodyElements {
            content: note.content,
            planning: note.planning,
            logbook: note.logbook,
        }),
{
    reveal(body_elements);
    let a = planning_lines(note.planning);
    let b = logbook_lines(note.logbook);
    let c = content_lines(note.content);
    let body = body_lines(note);
    lemma_body_lines_are_lines(note);
    lemma_lines_of_joined_body(body);
    lemma_scan_from_start(body);
    let st0 = scan_start();
    lemma_scan_planning(st0, note.planning);
    let st1 = scan_from(st0, a);
    lemma_scan_logbook(st1, note.logbook);
    let st2 = scan_from(st1, b);
    lemma_scan_plain(st2, c);
    let st3 = scan_from(st2, c);
    lemma_scan_from_concat(st0, a, b);
    lemma_scan_from_concat(st0, a + b, c);
    assert(scan_lines(body) == st3);
    assert(st3.kept == c) by {
        assert(st2.kept + c == c);
    }
    assert(join(c, '\n') == note.content) by {
        if !is_blank(note.content) {
            assert(Seq::<char>::empty() + note.content == note.content);
            lemma_join_of_lines(note.content, Seq::empty());
        } else {
            assert(note.content == Seq::<char>::empty());
        }
    }
    assert(planning_of(st3) == note.planning);
    assert(st3.logbook == note.logbook);
}

/// No line closes a section of `level`.
pub open spec fn stays_above(list: Seq<Seq<char>>, level: nat) -> bool {
    forall|j: int| 0 <= j < list.len() ==> !closes_section(#[trigger] list[j], level)
}

/// The heading line of a stable note is a heading of its level and reads
/// as its status, title and tags.
pub proof fn lemma_stable_heading(note: NoteView)
    requires
        is_stable(note),
    ensures
        heading_level(heading_line(note.level, note.status, note.title, note.labels)) == Some(
            note.level,
        ),
        header_fields(
            header_text(
                heading_line(note.level, note.status, note.title, note.labels),
                note.level,
            ),
        ) == (HeaderFields { status: note.status, title: note.title, labels: note.labels }),
        note_lines(note).len() > 0,
        note_lines(note)[0] == heading_line(note.level, note.status, note.title, note.labels),
{
    lemma_heading_round_trip(note.level, note.status, words(note.title), note.labels);
}

/// No line of the written body of a stable note is a heading.
pub proof fn lemma_body_lines_plain(note: NoteView)
    requires
        is_stable_planning(note.planning),
        is_stable_logbook(note.logbook),
        is_stable_content(note.content),
    ensures
        forall|i: int|
            0 <= i < body_lines(note).len() ==> !is_heading(#[trigger] body_lines(note)[i]),
        !is_heading(Seq::<char>::empty()),
{
    lemma_keywords();
    lemma_drawer_marks();
    let a = planning_lines(note.planning);
    let b = logbook_lines(note.logbook);
    let c = content_lines(note.content);
    assert forall|i: int| 0 <= i < a.len() implies !is_heading(#[trigger] a[i]) by {
        match note.planning {
            Some(p) => {
                if p.scheduled is Some {
                    lemma_planning_line_shape("SCHEDULED:"@, p.scheduled->0.raw);
                }
                if p.deadline is Some {
                    lemma_planning_line_shape("DEADLINE:"@, p.deadline->0.raw);
                }
                if p.closed is Some {
                    lemma_planning_line_shape("CLOSED:"@, p.closed->0.raw);
                }
            },
            None => {},
        }
    }
    assert forall|i: int| 0 <= i < b.len() implies !is_heading(#[trigger] b[i]) by {
        match note.logbook {
            Some(l) => {
                if 0 < i < b.len() - 1 {
                    assert(b[i] == l.clock_entries[i - 1].raw);
                    assert(is_stable_entry(l.clock_entries[i - 1]));
                    lemma_entry_line_shape(l.clock_entries[i - 1]);
                } else {
                    let mark = b[i];
                    assert(mark[0] == ':');
                    assert(trim_start(mark) == mark);
                }
            },
            None => {},
        }
    }
    assert forall|i: int| 0 <= i < c.len() implies !is_heading(#[trigger] c[i]) by {
        assert(is_plain_line(c[i]));
    }
    assert forall|i: int| 0 <= i < body_lines(note).len() implies !is_heading(
        #[trigger] body_lines(note)[i],
    ) by {
        if i < a.len() {
            assert(body_lines(note)[i] == a[i]);
        } else if i < a.len() + b.len() {
            assert(body_lines(note)[i] == b[i - a.len()]);
        } else {
            assert(body_lines(note)[i] == c[i - a.len() - b.len()]);
        }
    }
}

/// No line that a stable note deeper than `level` is written as closes a
/// section of `level`.
pub proof fn lemma_note_lines_above(note: NoteView, level: nat)
    requires
        is_stable(note),
        note.level > level,
    ensures
        stays_above(note_lines(note), level),
    decreases note, 0nat,
{
    let heading = heading_line(note.level, note.status, note.title, note.labels);
    let body = body_lines(note);
    let below = forest_lines(note.children);
    lemma_stable_heading(note);
    lemma_body_lines_plain(note);
    assert forall|i: int| 0 <= i < note.children.len() implies is_stable(
        #[trigger] note.children[i],
    ) && note.children[i].level > level by {}
    lemma_forest_lines_above(note.children, level);
    let all = note_lines(note);
    assert forall|j: int| 0 <= j < all.len() implies !closes_section(#[trigger] all[j], level) by {
        if j == 0 {
            assert(all[j] == heading);
        } else if j < 1 + body.len() {
            assert(all[j] == body[j - 1]);
        } else if j == 1 + body.len() {
            assert(all[j] == Seq::<char>::empty());
        } else {
            assert(all[j] == below[j - 2 - body.len()]);
        }
    }
}

/// No line that stable notes deeper than `level` are written as closes a
/// section of `level`.
pub proof fn lemma_forest_lines_above(list: Seq<NoteView>, level: nat)
    requires
        forall|i: int|
            0 <= i < list.len() ==> is_stable(#[trigger] list[i]) && list[i].level > level,
    ensures
        stays_above(forest_lines(list), level),
    decreases list, 1nat,
{
    if list.len() > 0 {
        let rest = list.drop_first();
        assert(is_stable(list[0]) && list[0].level > level);
        lemma_note_lines_above(list[0], level);
        assert forall|i: int| 0 <= i < rest.len() implies is_stable(#[trigger] rest[i])
            && rest[i].level > level by {
            assert(rest[i] == list[i + 1]);
        }
        lemma_forest_lines_above(rest, level);
        let first = note_lines(list[0]);
        let all = forest_lines(list);
        assert forall|j: int| 0 <= j < all.len() implies !closes_section(
            #[trigger] all[j],
            level,
        ) by {
            if j < first.len() {
                assert(all[j] == first[j]);
            } else {
                assert(all[j] == forest_lines(rest)[j - first.len()]);
            }
        }
    }
}

/// The written body of a note with the empty line that ends it.
pub open spec fn body_block(note: NoteView) -> Seq<Seq<char>> {
    body_lines(note).push(Seq::empty())
}

/// A note is written as its heading line, its body with the empty line,
/// and the lines of its children.
pub proof fn lemma_note_lines_parts(note: NoteView)
    ensures
        note_lines(note) == (seq![
            heading_line(note.level, note.status, note.title, note.labels),
        ] + body_block(note)) + forest_lines(note.children),
        note_lines(note).len() == 1 + body_block(note).len() + forest_lines(note.children).len(),
{
    let heading = heading_line(note.level, note.status, note.title, note.labels);
    assert(seq![heading] + body_lines(note) + seq![Seq::<char>::empty()] == seq![heading]
        + body_block(note));
}

/// Where the written body of a stable note stands behind its heading line
/// and a heading follows it, or nothing, the body of the note that is read
/// there is the written body.
pub proof fn lemma_read_body(source: Seq<Seq<char>>, pos: int, note: NoteView)
    requires
        is_stable_planning(note.planning),
        is_stable_logbook(note.logbook),
        is_stable_content(note.content),
        0 <= pos,
        pos + 1 + body_block(note).len() <= source.len(),
        source.subrange(pos + 1, pos + 1 + body_block(note).len()) == body_block(note),
        pos + 1 + body_block(note).len() < source.len() ==> is_heading(
            source[pos + 1 + body_block(note).len()],
        ),
    ensures
        body_end(source, pos + 1) == pos + 1 + body_block(note).len(),
        forall|j: int|
            pos + 1 <= j < pos + 1 + body_block(note).len() ==> !is_heading(#[trigger] source[j]),
{
    let block = body_block(note);
    let b0 = pos + 1 + block.len();
    lemma_body_lines_plain(note);
    assert forall|j: int| pos + 1 <= j < b0 implies !is_heading(#[trigger] source[j]) by {
        lemma_subrange_index(source, pos + 1, block, j);
        if j - pos - 1 < body_lines(note).len() {
            assert(block[j - pos - 1] == body_lines(note)[j - pos - 1]);
        } else {
            assert(block[j - pos - 1] == Seq::<char>::empty());
        }
    }
    lemma_body_end_is(source, pos + 1, b0);
}

/// Where the lines of stable notes deeper than `level` stand in a
/// document, none of them closes a section of `level`.
pub proof fn lemma_forest_stays_above(
    source: Seq<Seq<char>>,
    pos: int,
    list: Seq<NoteView>,
    level: nat,
)
    requires
        forall|i: int|
            0 <= i < list.len() ==> is_stable(#[trigger] list[i]) && list[i].level > level,
        0 <= pos,
        pos + forest_lines(list).len() <= source.len(),
        source.subrange(pos, pos + forest_lines(list).len()) == forest_lines(list),
    ensures
        forall|j: int|
            pos <= j < pos + forest_lines(list).len() ==> !closes_section(
                #[trigger] source[j],
                level,
            ),
{
    lemma_forest_lines_above(list, level);
    assert forall|j: int| pos <= j < pos + forest_lines(list).len() implies !closes_section(
        #[trigger] source[j],
        level,
    ) by {
        lemma_subrange_index(source, pos, forest_lines(list), j);
    }
}

/// The children of a stable note are stable, lie deeper than it, and their
/// levels never rise.
pub proof fn lemma_stable_children(note: NoteView)
    requires
        is_stable(note),
    ensures
        all_stable(note.children),
        forall|i: int|
            0 <= i < note.children.len() ==> is_stable(#[trigger] note.children[i])
                && note.children[i].level > note.level,
        is_stable_planning(note.planning),
        is_stable_logbook(note.logbook),
        is_stable_content(note.content),
{
}

/// Where the lines of a stable note stand in a document and a line that
/// closes its section follows them, or none, the note is read from them.
pub proof fn lemma_read_note(source: Seq<Seq<char>>, pos: int, note: NoteView)
    requires
        is_stable(note),
        0 <= pos,
        pos + note_lines(note).len() <= source.len(),
        source.subrange(pos, pos + note_lines(note).len()) == note_lines(note),
        pos + note_lines(note).len() < source.len() ==> closes_section(
            source[pos + note_lines(note).len()],
            note.level,
        ),
    ensures
        heading_level(source[pos]) == Some(note.level),
        note_at(source, pos, note.level) == note,
        section_end(source, pos + 1, note.level) == pos + note_lines(note).len(),
    decreases note, 0nat,
{
    let heading = heading_line(note.level, note.status, note.title, note.labels);
    let block = body_block(note);
    let below = forest_lines(note.children);
    let e = pos + note_lines(note).len();
    let b0 = pos + 1 + block.len();
    lemma_note_lines_parts(note);
    lemma_stable_children(note);
    lemma_subrange_split(source, pos, seq![heading] + block, below);
    lemma_subrange_split(source, pos, seq![heading], block);
    assert(source[pos] == heading);
    lemma_stable_heading(note);
    assert(b0 < source.len() ==> is_heading(source[b0])) by {
        if b0 < source.len() && b0 < e {
            assert(note.children.len() > 0);
            lemma_stable_heading(note.children[0]);
            assert(below[0] == note_lines(note.children[0])[0]);
        }
    }
    lemma_read_body(source, pos, note);
    lemma_body_round_trip(note);
    lemma_forest_stays_above(source, b0, note.children, note.level);
    assert forall|j: int| pos + 1 <= j < e implies !closes_section(
        #[trigger] source[j],
        note.level,
    ) by {}
    lemma_section_end_is(source, pos + 1, e, note.level);
    lemma_skip_plain(source, pos + 1, b0, e);
    lemma_read_forest(source, b0, note.children, note.level);
    let read = note_at(source, pos, note.level);
    assert(read.children == note.children);
    assert(read.content == note.content);
    assert(read.planning == note.planning);
    assert(read.logbook == note.logbook);
    assert(read.status == note.status);
    assert(read.title == note.title);
    assert(read.labels == note.labels);
}

/// The notes behind the first of a stable list are a stable list.
pub proof fn lemma_rest_stable(list: Seq<NoteView>, level: nat)
    requires
        list.len() > 0,
        all_stable(list),
        forall|i: int| 0 <= i < list.len() ==> (#[trigger] list[i]).level > level,
    ensures
        all_stable(list.drop_first()),
        forall|i: int|
            0 <= i < list.drop_first().len() ==> (#[trigger] list.drop_first()[i]).level > level,
        list.len() > 1 ==> list.drop_first()[0].level <= list[0].level,
        is_stable(list[0]),
        list[0].level > level,
{
    let rest = list.drop_first();
    assert forall|i: int| 0 <= i < rest.len() implies is_stable(#[trigger] rest[i]) by {
        assert(rest[i] == list[i + 1]);
    }
    assert forall|i: int| 0 < i < rest.len() implies (#[trigger] rest[i]).level <= rest[i
        - 1].level by {
        assert(rest[i] == list[i + 1]);
        assert(rest[i - 1] == list[i]);
        assert(list[i + 1].level <= list[i].level);
    }
    assert forall|i: int| 0 <= i < rest.len() implies (#[trigger] rest[i]).level > level by {
        assert(rest[i] == list[i + 1]);
    }
    if list.len() > 1 {
        assert(rest[0] == list[1]);
        assert(list[1].level <= list[0].level);
    }
}

/// Where the lines of stable notes deeper than `level` stand in a document
/// and a line that closes a section of `level` follows them, or none, the
/// notes are read from them.
pub proof fn lemma_read_forest(source: Seq<Seq<char>>, pos: int, list: Seq<NoteView>, level: nat)
    requires
        all_stable(list),
        forall|i: int| 0 <= i < list.len() ==> (#[trigger] list[i]).level > level,
        0 <= pos,
        pos + forest_lines(list).len() <= source.len(),
        source.subrange(pos, pos + forest_lines(list).len()) == forest_lines(list),
        pos + forest_lines(list).len() < source.len() ==> closes_section(
            source[pos + forest_lines(list).len()],
            level,
        ),
    ensures
        notes_between(source, pos, pos + forest_lines(list).len()) == list,
    decreases list, 1nat,
{
    let all = forest_lines(list);
    let e = pos + all.len();
    if list.len() == 0 {
        assert(all.len() == 0);
    } else {
        let first = list[0];
        let rest = list.drop_first();
        let first_lines = note_lines(first);
        let rest_lines = forest_lines(rest);
        let e1 = pos + first_lines.len();
        assert(all == first_lines + rest_lines);
        lemma_rest_stable(list, level);
        lemma_stable_heading(first);
        lemma_subrange_split(source, pos, first_lines, rest_lines);
        assert(e1 < source.len() ==> closes_section(source[e1], first.level)) by {
            if e1 < source.len() {
                if rest.len() == 0 {
                    assert(rest_lines.len() == 0);
                } else {
                    assert(is_stable(rest[0]));
                    lemma_stable_heading(rest[0]);
                    assert(rest_lines == note_lines(rest[0]) + forest_lines(rest.drop_first()));
                    assert(rest_lines[0] == note_lines(rest[0])[0]);
                }
            }
        }
        lemma_read_note(source, pos, first);
        lemma_read_forest(source, e1, rest, level);
        assert(notes_between(source, pos, e) == seq![first] + notes_between(source, e1, e));
        assert(seq![first] + rest == list);
    }
}

/// An outline of stable notes, written as text and read back, is the
/// outline again.
pub proof fn lemma_round_trip(list: Seq<NoteView>)
    requires
        all_stable(list),
    ensures
        document(lines(notes_text(list))) == list,
{
    lemma_lines_of_notes_text(list);
    let source = forest_lines(list);
    assert(source.subrange(0, source.len() as int) == source);
    assert forall|i: int| 0 <= i < list.len() implies (#[trigger] list[i]).level > 0 by {
        assert(is_stable(list[i]));
    }
    lemma_read_forest(source, 0, list, 0);
}

} // verus!
