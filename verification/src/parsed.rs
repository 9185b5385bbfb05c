//! What reading guarantees of every note, and with it the law of reading,
//! writing and reading again, stated of documents.

use crate::body::{
    body_elements, has_keyword, planning_timestamp, scan_line, scan_lines, BodyElements, Scan,
};
use crate::clock::{clock_entry, lemma_clock_entry_shape};
use crate::heading::{header_text, heading_level, is_heading, tag_split};
use crate::heading_laws::{
    header_words_text, is_well_formed_heading, lemma_header_fields_shape, lemma_strip_cr_plain,
};
use crate::line_laws::{
    all_lines, ends_clean, is_line, lemma_join_parts_end_clean, lemma_lines_concat,
    lemma_lines_lack_line_feed, lemma_lines_of_joined, lemma_lines_of_joined_stripped,
    lemma_lines_of_text_without_feed, stripped,
};
use crate::model::{ClockEntryView, NoteView};
use crate::parser::{
    body_end, document, lemma_body_end, lemma_notes_between_deeper, lemma_section_end, note_at,
    notes_between, section_end,
};
use crate::roundtrip::{
    content_lines, entry_lines, is_plain_line, is_stable, is_stable_content, is_stable_entry,
    is_stable_logbook, is_stable_planning, is_stable_stamp, lemma_round_trip,
};
use crate::serializer::{is_blank, notes_text};
use crate::text::{find, flush, join, lacks, lemma_find, lines, strip_cr, trim, words};
use crate::text_laws::{lemma_find_in_skip, lemma_trim_is_part, lemma_trim_is_trimmed};
use vstd::prelude::*;

verus! {

/// What the scan guarantees of its state after any lines that hold no
/// line feed and are no headings.
pub open spec fn is_read_scan(st: Scan) -> bool {
    &&& st.scheduled matches Some(t) ==> is_stable_stamp(t)
    &&& st.deadline matches Some(t) ==> is_stable_stamp(t) && !has_keyword(t.raw, "SCHEDULED:"@)
    &&& st.closed matches Some(t) ==> is_stable_stamp(t) && !has_keyword(t.raw, "SCHEDULED:"@)
        && !has_keyword(t.raw, "DEADLINE:"@)
    &&& forall|i: int|
        0 <= i < st.clock_entries.len() ==> is_read_entry(#[trigger] st.clock_entries[i])
    &&& st.logbook matches Some(l) ==> forall|i: int|
        0 <= i < l.clock_entries.len() ==> is_read_entry(#[trigger] l.clock_entries[i])
    &&& forall|i: int| 0 <= i < st.kept.len() ==> is_kept_line(#[trigger] st.kept[i])
}

/// A clock entry as it is read: its line holds no line feed and reads as
/// the entry.
pub open spec fn is_read_entry(e: ClockEntryView) -> bool {
    clock_entry(e.raw) == Some(e) && lacks(e.raw, '\n')
}

/// A line as it is kept in the text of a note: plain, and without a line
/// feed.
pub open spec fn is_kept_line(l: Seq<char>) -> bool {
    is_plain_line(l) && lacks(l, '\n')
}

/// The timestamp read behind a planning keyword is stable, and its text
/// holds no keyword that its line does not hold.
pub proof fn lemma_planning_timestamp_shape(line: Seq<char>, keyword: Seq<char>, other: Seq<char>)
    requires
        lacks(line, '\n'),
        planning_timestamp(line, keyword) is Some,
    ensures
        is_stable_stamp(planning_timestamp(line, keyword)->0),
        !has_keyword(line, other) ==> !has_keyword(planning_timestamp(line, keyword)->0.raw, other),
{
    lemma_find(line, keyword);
    let i = find(line, keyword)->0;
    let after = line.skip(i + keyword.len());
    let raw = trim(after);
    let t = planning_timestamp(line, keyword)->0;
    assert(t.raw == raw);
    lemma_trim_is_trimmed(after);
    lemma_trim_is_part(after, other, '\n');
    assert(lacks(after, '\n')) by {
        assert forall|k: int| 0 <= k < after.len() implies #[trigger] after[k] != '\n' by {
            assert(after[k] == line[i + keyword.len() + k]);
        }
    }
    if has_keyword(raw, other) {
        lemma_find_in_skip(line, i + keyword.len(), other);
    }
}

/// One more line that holds no line feed and is no heading leaves the scan
/// as reading guarantees it.
pub proof fn lemma_scan_line_shape(st: Scan, line: Seq<char>)
    requires
        is_read_scan(st),
        lacks(line, '\n'),
        !is_heading(line),
    ensures
        is_read_scan(scan_line(st, line)),
{
    let next = scan_line(st, line);
    let t = trim(line);
    if t == ":LOGBOOK:"@ {
    } else if t == ":END:"@ && st.in_drawer {
    } else if st.in_drawer {
        match clock_entry(line) {
            Some(e) => {
                lemma_clock_entry_shape(line);
                assert forall|i: int| 0 <= i < next.clock_entries.len() implies is_read_entry(
                    #[trigger] next.clock_entries[i],
                ) by {
                    if i < st.clock_entries.len() {
                        assert(next.clock_entries[i] == st.clock_entries[i]);
                    } else {
                        assert(next.clock_entries[i] == e);
                    }
                }
            },
            None => {},
        }
    } else if has_keyword(line, "SCHEDULED:"@) {
        if planning_timestamp(line, "SCHEDULED:"@) is Some {
            lemma_planning_timestamp_shape(line, "SCHEDULED:"@, "SCHEDULED:"@);
        }
    } else if has_keyword(line, "DEADLINE:"@) {
        if planning_timestamp(line, "DEADLINE:"@) is Some {
            lemma_planning_timestamp_shape(line, "DEADLINE:"@, "SCHEDULED:"@);
        }
    } else if has_keyword(line, "CLOSED:"@) {
        if planning_timestamp(line, "CLOSED:"@) is Some {
            lemma_planning_timestamp_shape(line, "CLOSED:"@, "SCHEDULED:"@);
            lemma_planning_timestamp_shape(line, "CLOSED:"@, "DEADLINE:"@);
        }
    } else {
        assert forall|i: int| 0 <= i < next.kept.len() implies is_kept_line(
            #[trigger] next.kept[i],
        ) by {
            if i < st.kept.len() {
                assert(next.kept[i] == st.kept[i]);
            } else {
                assert(next.kept[i] == line);
            }
        }
    }
}

/// The scan over lines that hold no line feed and are no headings is as
/// reading guarantees it.
pub proof fn lemma_scan_lines_shape(body: Seq<Seq<char>>)
    requires
        forall|i: int|
            0 <= i < body.len() ==> lacks(#[trigger] body[i], '\n') && !is_heading(body[i]),
    ensures
        is_read_scan(scan_lines(body)),
    decreases body.len(),
{
    if body.len() > 0 {
        let init = body.drop_last();
        assert forall|i: int| 0 <= i < init.len() implies lacks(#[trigger] init[i], '\n')
            && !is_heading(init[i]) by {
            assert(init[i] == body[i]);
        }
        lemma_scan_lines_shape(init);
        assert(lacks(body.last(), '\n') && !is_heading(body.last()));
        lemma_scan_line_shape(scan_lines(init), body.last());
    }
}

/// The lines read from lines that are joined by line feeds hold no line
/// feed and are no headings, where the joined lines hold none and are
/// none.
pub proof fn lemma_lines_of_join_shape(list: Seq<Seq<char>>)
    requires
        forall|i: int|
            0 <= i < list.len() ==> lacks(#[trigger] list[i], '\n') && !is_heading(list[i]),
    ensures
        forall|j: int|
            0 <= j < lines(join(list, '\n')).len() ==> lacks(
                #[trigger] lines(join(list, '\n'))[j],
                '\n',
            ) && !is_heading(lines(join(list, '\n'))[j]),
{
    let text = join(list, '\n');
    lemma_lines_lack_line_feed(text, Seq::empty());
    if list.len() == 0 {
    } else {
        let last = list.last();
        assert(lacks(last, '\n') && !is_heading(last));
        lemma_lines_of_text_without_feed(last, Seq::empty());
        assert(Seq::<char>::empty() + last == last);
        if list.len() == 1 {
            assert forall|j: int| 0 <= j < lines(text).len() implies !is_heading(
                #[trigger] lines(text)[j],
            ) by {
                assert(lines(text)[j] == last);
            }
        } else {
            let init = list.drop_last();
            assert forall|i: int| 0 <= i < init.len() implies lacks(#[trigger] init[i], '\n') by {
                assert(init[i] == list[i]);
            }
            lemma_lines_of_joined_stripped(init);
            let head = join(init, '\n') + seq!['\n'];
            assert(text == head + last);
            lemma_lines_concat(head, last);
            let all = stripped(init) + flush(last);
            assert(lines(text) == all);
            assert forall|j: int| 0 <= j < all.len() implies !is_heading(#[trigger] all[j]) by {
                if j < init.len() {
                    assert(all[j] == strip_cr(init[j]));
                    assert(init[j] == list[j]);
                    lemma_strip_cr_plain(init[j]);
                } else {
                    assert(all[j] == last);
                }
            }
        }
    }
}

/// What must hold of a note beyond what reading guarantees, so that it is
/// written and read back as itself, with all below it.
///
/// Without tags, the words of its heading do not end in what reads as a
/// run of tags. A log has entries, its drawer held their lines and no
/// others, and no line of an entry ends in a carriage return. The text is
/// empty or not blank, and none of its lines ends in a carriage return.
pub open spec fn is_replayable(note: NoteView) -> bool
    decreases note,
{
    &&& note.labels.len() == 0 ==> tag_split(
        trim(header_words_text(note.status, words(note.title))),
    ) is None
    &&& note.logbook matches Some(l) ==> {
        &&& l.clock_entries.len() > 0
        &&& l.raw_content == entry_lines(l.clock_entries)
        &&& forall|i: int|
            0 <= i < l.clock_entries.len() ==> (#[trigger] l.clock_entries[i]).raw.len() > 0
                ==> l.clock_entries[i].raw.last() != '\r'
    }
    &&& is_blank(note.content) ==> note.content.len() == 0
    &&& ends_clean(note.content)
    &&& forall|i: int| 0 <= i < note.children.len() ==> is_replayable(#[trigger] note.children[i])
}

/// The text, planning and log that are read from a body whose lines are no
/// headings are stable, where the log and the text are as a replayable
/// note has them.
pub proof fn lemma_read_body_stable(content: Seq<char>, note: NoteView)
    requires
        forall|j: int|
            0 <= j < lines(content).len() ==> lacks(#[trigger] lines(content)[j], '\n')
                && !is_heading(lines(content)[j]),
        body_elements(content) == (BodyElements {
            content: note.content,
            planning: note.planning,
            logbook: note.logbook,
        }),
        is_replayable(note),
    ensures
        is_stable_planning(note.planning),
        is_stable_logbook(note.logbook),
        is_stable_content(note.content),
{
    reveal(body_elements);
    let st = scan_lines(lines(content));
    lemma_scan_lines_shape(lines(content));
    assert(is_stable_logbook(note.logbook)) by {
        match note.logbook {
            Some(l) => {
                assert forall|i: int| 0 <= i < l.clock_entries.len() implies is_stable_entry(
                    #[trigger] l.clock_entries[i],
                ) by {
                    assert(is_read_entry(l.clock_entries[i]));
                }
            },
            None => {},
        }
    }
    assert(is_stable_content(note.content)) by {
        if !is_blank(note.content) {
            let kept = st.kept;
            assert(note.content == join(kept, '\n'));
            assert(kept.len() > 0);
            lemma_join_parts_end_clean(kept);
            assert(all_lines(kept)) by {
                assert forall|i: int| 0 <= i < kept.len() implies is_line(#[trigger] kept[i]) by {
                    assert(is_kept_line(kept[i]));
                }
            }
            lemma_lines_of_joined(kept);
            assert(content_lines(note.content) == kept);
            assert forall|i: int| 0 <= i < kept.len() implies is_plain_line(#[trigger] kept[i]) by {
                assert(is_kept_line(kept[i]));
            }
        }
    }
}

/// A replayable note that is read from lines without line feeds is
/// stable.
pub proof fn lemma_read_note_stable(source: Seq<Seq<char>>, pos: int, level: nat)
    requires
        forall|i: int| 0 <= i < source.len() ==> lacks(#[trigger] source[i], '\n'),
        0 <= pos < source.len(),
        level > 0,
        is_replayable(note_at(source, pos, level)),
    ensures
        is_stable(note_at(source, pos, level)),
    decreases source.len() - pos, 0nat,
{
    let note = note_at(source, pos, level);
    let end = section_end(source, pos + 1, level);
    let b = body_end(source, pos + 1);
    let body = source.subrange(pos + 1, b);
    lemma_section_end(source, pos + 1, level);
    lemma_body_end(source, pos + 1);
    lemma_header_fields_shape(header_text(source[pos], level));
    assert(is_well_formed_heading(note.status, words(note.title), note.labels));
    assert forall|i: int| 0 <= i < body.len() implies lacks(#[trigger] body[i], '\n')
        && !is_heading(body[i]) by {
        assert(body[i] == source[pos + 1 + i]);
    }
    lemma_lines_of_join_shape(body);
    lemma_read_body_stable(join(body, '\n'), note);
    lemma_notes_between_deeper(source, pos + 1, end, level);
    assert(note.children == notes_between(source, pos + 1, end));
    assert forall|i: int| 0 <= i < note.children.len() implies is_replayable(
        #[trigger] notes_between(source, pos + 1, end)[i],
    ) by {
        assert(is_replayable(note.children[i]));
    }
    lemma_read_notes_stable(source, pos + 1, end, level);
}

/// The replayable notes that are read from lines without line feeds are
/// stable.
pub proof fn lemma_read_notes_stable(source: Seq<Seq<char>>, pos: int, end: int, level: nat)
    requires
        forall|i: int| 0 <= i < source.len() ==> lacks(#[trigger] source[i], '\n'),
        0 <= pos,
        end <= source.len(),
        forall|i: int|
            0 <= i < notes_between(source, pos, end).len() ==> is_replayable(
                #[trigger] notes_between(source, pos, end)[i],
            ),
    ensures
        forall|i: int|
            0 <= i < notes_between(source, pos, end).len() ==> is_stable(
                #[trigger] notes_between(source, pos, end)[i],
            ),
    decreases source.len() - pos, 1nat,
{
    if 0 <= pos < end <= source.len() {
        match heading_level(source[pos]) {
            Some(l) => {
                lemma_section_end(source, pos + 1, l);
                let next = section_end(source, pos + 1, l);
                let first = note_at(source, pos, l);
                let rest = notes_between(source, next, end);
                let all = notes_between(source, pos, end);
                assert(all == seq![first] + rest);
                assert(is_replayable(first)) by {
                    assert(all[0] == first);
                }
                assert forall|i: int| 0 <= i < rest.len() implies is_replayable(
                    #[trigger] rest[i],
                ) by {
                    assert(all[i + 1] == rest[i]);
                }
                lemma_read_note_stable(source, pos, l);
                lemma_read_notes_stable(source, next, end, level);
                assert forall|i: int| 0 <= i < all.len() implies is_stable(#[trigger] all[i]) by {
                    if i > 0 {
                        assert(all[i] == rest[i - 1]);
                    }
                }
            },
            None => {
                assert(notes_between(source, pos, end) == notes_between(source, pos + 1, end));
                lemma_read_notes_stable(source, pos + 1, end, level);
            },
        }
    }
}

/// Reading a text, writing what was read and reading that again gives what
/// was read the first time, where the notes read are replayable.
pub proof fn lemma_read_write_read(text: Seq<char>)
    requires
        forall|i: int|
            0 <= i < document(lines(text)).len() ==> is_replayable(
                #[trigger] document(lines(text))[i],
            ),
    ensures
        document(lines(notes_text(document(lines(text))))) == document(lines(text)),
{
    let source = lines(text);
    lemma_lines_lack_line_feed(text, Seq::empty());
    assert(document(source) == notes_between(source, 0, source.len() as int));
    lemma_read_notes_stable(source, 0, source.len() as int, 0);
    lemma_notes_between_deeper(source, 0, source.len() as int, 0);
    lemma_round_trip(document(source));
}

} // verus!
