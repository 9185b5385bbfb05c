use rorg::editor::{
    add_note, apply, apply_at, clock_in, clock_out, clock_out_allowed, commit_edit, edit_allowed,
    edit_allowed_at, set_current_time, Edit, EditMode, Moment, PlanningRole,
};
use rorg::fields::{
    count_visible_fields, field_at_index, get_field_name_at_index, start_editing,
    visible_fields_of, Field,
};
use rorg::now::{apply_now, apply_stamp, Stamp};
use rorg::outline::{find_note_by_flat_index, flatten_notes, remove_note_by_flat_index};
use rorg::stats::{collect_time_stats, TimeStats};
use rorg::{serialize_to_org_format, OrgNote, OrgParser};

fn parse(text: &str) -> Vec<OrgNote> {
    OrgParser::new(text).parse()
}

fn moment(hour: u32, minute: u32) -> Moment {
    Moment { year: 2024, month: 3, day: 5, hour, minute, day_name: "Tue".to_string() }
}

const TREE: &str = "* a\n** a1\n*** a1a\n** a2\n* b\n";

#[test]
fn positions_count_each_note_before_its_children() {
    let notes = parse(TREE);
    let titles: Vec<String> = (0..5)
        .map(|i| find_note_by_flat_index(&notes, i).unwrap().title.clone())
        .collect();
    assert_eq!(titles, vec!["a", "a1", "a1a", "a2", "b"]);
    assert!(find_note_by_flat_index(&notes, 5).is_none());
    assert!(find_note_by_flat_index(&notes, usize::MAX).is_none());
    assert!(find_note_by_flat_index(&Vec::new(), 0).is_none());
}

#[test]
fn removing_a_note_removes_all_below_it() {
    let mut notes = parse(TREE);
    assert!(remove_note_by_flat_index(&mut notes, 1));
    assert_eq!(serialize_to_org_format(&notes), "* a\n\n** a2\n\n* b\n\n");
    assert!(!remove_note_by_flat_index(&mut notes, 3));
    assert!(remove_note_by_flat_index(&mut notes, 2));
    assert_eq!(serialize_to_org_format(&notes), "* a\n\n** a2\n\n");
    assert!(remove_note_by_flat_index(&mut notes, 0));
    assert!(notes.is_empty());
    assert!(!remove_note_by_flat_index(&mut notes, 0));
}

#[test]
fn removing_a_deep_note_leaves_the_rest() {
    let mut notes = parse(TREE);
    assert!(remove_note_by_flat_index(&mut notes, 2));
    assert_eq!(serialize_to_org_format(&notes), "* a\n\n** a1\n\n** a2\n\n* b\n\n");
}

#[test]
fn rows_show_indentation_stars_status_and_title() {
    let notes = parse("* a\n** TODO b\n*** c\n**** d\n* DONE e :t:\n");
    let rows = flatten_notes(&notes);
    let expected = vec!["** a", "  ** TODO b", "    ** c", "      ** d", "** DONE e"];
    assert_eq!(rows.len(), expected.len());
    for (i, (index, row)) in rows.iter().enumerate() {
        assert_eq!(*index, i);
        assert_eq!(row, expected[i]);
    }
    let deep = parse("*** deep\n***** deeper\n* shallow\n");
    let rows = flatten_notes(&deep);
    assert_eq!(rows[0].1, "**** deep");
    assert_eq!(rows[1].1, "  ***** deeper");
    assert_eq!(rows[2].1, "** shallow");
    let mut note = OrgNote::new(0, "zero".to_string());
    note.children.push(OrgNote::new(1, "one".to_string()));
    let rows = flatten_notes(&vec![note]);
    assert_eq!(rows[0].1, "* zero");
    assert_eq!(rows[1].1, "  * one");
}

#[test]
fn new_note_is_appended_at_the_top_level() {
    let mut notes = parse(TREE);
    add_note(&mut notes);
    assert_eq!(notes.len(), 3);
    assert_eq!(notes[2].level, 1);
    assert_eq!(notes[2].title, "New Note");
    assert_eq!(find_note_by_flat_index(&notes, 5).unwrap().title, "New Note");
}

#[test]
fn clock_in_adds_a_running_entry() {
    let mut note = OrgNote::new(1, "task".to_string());
    clock_in(&mut note, &moment(9, 7));
    let log = note.logbook.as_ref().unwrap();
    assert_eq!(log.clock_entries.len(), 1);
    assert!(log.raw_content.is_empty());
    let entry = &log.clock_entries[0];
    assert_eq!(entry.raw, "CLOCK: [2024-03-05 Tue 09:07]");
    assert_eq!(entry.start.raw, "[2024-03-05 Tue 09:07]");
    assert_eq!((entry.start.year, entry.start.month, entry.start.day), (2024, 3, 5));
    assert_eq!((entry.start.hour, entry.start.minute), (Some(9), Some(7)));
    assert_eq!(entry.start.day_name, Some("Tue".to_string()));
    assert!(entry.end.is_none());
    assert!(entry.duration.is_none());
    clock_in(&mut note, &moment(10, 0));
    assert_eq!(note.logbook.as_ref().unwrap().clock_entries.len(), 2);
    let read = OrgParser::new("").parse_clock_line("CLOCK: [2024-03-05 Tue 09:07]").unwrap();
    assert_eq!(format!("{:?}", read), format!("{:?}", note.logbook.unwrap().clock_entries[0]));
}

#[test]
fn clock_out_closes_the_oldest_running_entry() {
    let mut notes = parse("* task\n:LOGBOOK:\nCLOCK: [2024-03-05 Tue 08:00]--[2024-03-05 Tue 08:30] =>  0:30\nCLOCK: [2024-03-05 Tue 09:07]\nCLOCK: [2024-03-05 Tue 09:30]\n:END:");
    let note = &mut notes[0];
    assert!(clock_out_allowed(note, &moment(10, 0)));
    assert!(clock_out(note, &moment(10, 0)));
    let log = note.logbook.as_ref().unwrap();
    let closed = &log.clock_entries[1];
    assert_eq!(closed.duration, Some("0:53".to_string()));
    assert_eq!(closed.raw, "[2024-03-05 Tue 09:07]--[2024-03-05 Tue 10:00] =>  0:53");
    let end = closed.end.as_ref().unwrap();
    assert_eq!(end.raw, "[2024-03-05 Tue 10:00]");
    assert_eq!((end.hour, end.minute), (Some(10), Some(0)));
    assert_eq!(closed.start.raw, "[2024-03-05 Tue 09:07]");
    assert!(log.clock_entries[2].end.is_none());
    assert_eq!(log.clock_entries[0].duration, Some("0:30".to_string()));
    assert_eq!(log.total_minutes(), 83);
}

#[test]
fn clock_out_wraps_across_midnight() {
    let mut note = OrgNote::new(1, "task".to_string());
    clock_in(&mut note, &moment(23, 30));
    assert!(clock_out(&mut note, &moment(0, 15)));
    let entry = &note.logbook.as_ref().unwrap().clock_entries[0];
    assert_eq!(entry.duration, Some("0:45".to_string()));
    let mut long = OrgNote::new(1, "task".to_string());
    clock_in(&mut long, &moment(0, 0));
    assert!(clock_out(&mut long, &moment(23, 59)));
    assert_eq!(long.logbook.unwrap().clock_entries[0].duration, Some("23:59".to_string()));
    let mut day = OrgNote::new(1, "task".to_string());
    clock_in(&mut day, &moment(12, 1));
    assert!(clock_out(&mut day, &moment(12, 0)));
    assert_eq!(day.logbook.unwrap().clock_entries[0].duration, Some("23:59".to_string()));
}

#[test]
fn clock_out_counts_a_start_without_time_from_midnight() {
    let mut notes = parse("* task\n:LOGBOOK:\nCLOCK: [2024-03-05 Tue]\n:END:");
    assert!(clock_out(&mut notes[0], &moment(1, 5)));
    let entry = &notes[0].logbook.as_ref().unwrap().clock_entries[0];
    assert_eq!(entry.duration, Some("1:05".to_string()));
    assert_eq!(entry.raw, "[2024-03-05 Tue]--[2024-03-05 Tue 01:05] =>  1:05");
}

#[test]
fn clock_out_without_a_running_entry_changes_nothing() {
    let mut notes = parse("* task\n:LOGBOOK:\nCLOCK: [2024-03-05 Tue 08:00]--[2024-03-05 Tue 08:30] =>  0:30\n:END:\n* other");
    let before = format!("{:?}", notes);
    assert!(!clock_out(&mut notes[0], &moment(10, 0)));
    assert!(!clock_out(&mut notes[1], &moment(10, 0)));
    assert_eq!(format!("{:?}", notes), before);
}

#[test]
fn clock_out_is_refused_where_the_time_would_be_negative() {
    let mut notes = parse("* task\n:LOGBOOK:\nCLOCK: [2024-03-05 Tue 25:00]\n:END:");
    assert!(!clock_out_allowed(&notes[0], &moment(0, 30)));
    assert!(clock_out_allowed(&notes[0], &moment(1, 0)));
    assert!(!clock_out_allowed(&notes[0], &Moment { hour: 24, ..moment(0, 0) }));
    assert!(!clock_out_allowed(&notes[0], &Moment { minute: 60, ..moment(0, 0) }));
    let now = moment(0, 30);
    let edit = Edit::ClockOut(&now);
    assert!(!edit_allowed(&notes[0], &edit));
    assert!(!edit_allowed_at(&notes, 0, &edit));
    assert!(edit_allowed_at(&notes, 7, &edit));
    let before = format!("{:?}", notes);
    assert!(!apply_stamp(&mut notes, 0, Stamp::ClockOut, &now));
    assert_eq!(format!("{:?}", notes), before);
    assert!(apply_stamp(&mut notes, 0, Stamp::ClockOut, &moment(1, 0)));
    assert_eq!(
        notes[0].logbook.as_ref().unwrap().clock_entries[0].duration,
        Some("0:00".to_string())
    );
}

#[test]
fn planning_timestamp_is_set_to_the_moment() {
    let mut note = OrgNote::new(1, "task".to_string());
    set_current_time(&mut note, PlanningRole::Deadline, &moment(9, 7));
    let planning = note.planning.as_ref().unwrap();
    assert!(planning.scheduled.is_none());
    assert!(planning.closed.is_none());
    let deadline = planning.deadline.as_ref().unwrap();
    assert_eq!(deadline.raw, "<2024-03-05 Tue 09:07>");
    assert_eq!((deadline.year, deadline.month, deadline.day), (2024, 3, 5));
    assert_eq!((deadline.hour, deadline.minute), (Some(9), Some(7)));
    set_current_time(&mut note, PlanningRole::Scheduled, &Moment { year: 987, ..moment(0, 0) });
    set_current_time(&mut note, PlanningRole::Closed, &moment(23, 59));
    let planning = note.planning.as_ref().unwrap();
    assert_eq!(planning.scheduled.as_ref().unwrap().raw, "<987-03-05 Tue 00:00>");
    assert_eq!(planning.closed.as_ref().unwrap().raw, "<2024-03-05 Tue 23:59>");
    assert_eq!(planning.deadline.as_ref().unwrap().raw, "<2024-03-05 Tue 09:07>");
    let read = rorg::parse_timestamp_from_text("<2024-03-05 Tue 23:59>").unwrap();
    assert_eq!(format!("{:?}", read), format!("{:?}", planning.closed.as_ref().unwrap()));
}

#[test]
fn committed_text_replaces_the_field() {
    let mut note = parse("* TODO task :old:\ntext").remove(0);
    commit_edit(&mut note, EditMode::Idle, "ignored");
    assert_eq!(note.title, "task");
    commit_edit(&mut note, EditMode::Status, "DONE");
    assert_eq!(note.status, Some("DONE".to_string()));
    commit_edit(&mut note, EditMode::Status, "");
    assert_eq!(note.status, None);
    commit_edit(&mut note, EditMode::Title, "  new  title ");
    assert_eq!(note.title, "  new  title ");
    commit_edit(&mut note, EditMode::Content, "one\ntwo");
    assert_eq!(note.content, "one\ntwo");
    assert_eq!(note.labels, vec!["old".to_string()]);
    assert!(note.planning.is_none());
}

#[test]
fn committed_tags_are_split_at_colons() {
    let mut note = OrgNote::new(1, "task".to_string());
    commit_edit(&mut note, EditMode::Labels, ":a:b:");
    assert_eq!(note.labels, vec!["a".to_string(), "b".to_string()]);
    commit_edit(&mut note, EditMode::Labels, ":::a::b c:::");
    assert_eq!(note.labels, vec!["a".to_string(), String::new(), "b c".to_string()]);
    commit_edit(&mut note, EditMode::Labels, "plain");
    assert_eq!(note.labels, vec!["plain".to_string()]);
    commit_edit(&mut note, EditMode::Labels, "::");
    assert!(note.labels.is_empty());
    commit_edit(&mut note, EditMode::Labels, "x");
    commit_edit(&mut note, EditMode::Labels, "");
    assert!(note.labels.is_empty());
}

#[test]
fn committed_planning_text_must_be_a_timestamp() {
    let mut note = OrgNote::new(1, "task".to_string());
    commit_edit(&mut note, EditMode::Scheduled, "soon");
    assert!(note.planning.is_none());
    commit_edit(&mut note, EditMode::Scheduled, "<2024-01-01 Mon 09:00>");
    commit_edit(&mut note, EditMode::Deadline, "[2024-01-02 Tue]");
    commit_edit(&mut note, EditMode::Closed, "2024-01-03 Wed");
    commit_edit(&mut note, EditMode::Deadline, "never");
    let planning = note.planning.as_ref().unwrap();
    assert_eq!(planning.scheduled.as_ref().unwrap().hour, Some(9));
    assert_eq!(planning.deadline.as_ref().unwrap().day, 2);
    assert_eq!(planning.closed.as_ref().unwrap().raw, "2024-01-03 Wed");
}

#[test]
fn edits_are_made_at_a_position() {
    let mut notes = parse(TREE);
    let now = moment(9, 7);
    assert!(apply_at(&mut notes, 2, &Edit::Commit(EditMode::Title, "renamed")));
    assert!(apply_at(&mut notes, 3, &Edit::ClockIn(&now)));
    assert!(apply_at(&mut notes, 4, &Edit::Plan(PlanningRole::Scheduled, &now)));
    assert!(apply_at(&mut notes, 3, &Edit::ClockOut(&moment(9, 10))));
    assert!(!apply_at(&mut notes, 5, &Edit::Commit(EditMode::Title, "nobody")));
    assert_eq!(
        serialize_to_org_format(&notes),
        "* a\n\n** a1\n\n*** renamed\n\n** a2\n:LOGBOOK:\n[2024-03-05 Tue 09:07]--[2024-03-05 Tue 09:10] =>  0:03\n:END:\n\n* b\nSCHEDULED: <2024-03-05 Tue 09:07>\n\n"
    );
    let mut one = OrgNote::new(1, "x".to_string());
    apply(&mut one, &Edit::Commit(EditMode::Content, "text"));
    assert_eq!(one.content, "text");
}

#[test]
fn edits_at_the_present_moment_use_the_clock() {
    let mut notes = parse(TREE);
    assert!(apply_now(&mut notes, 1, Stamp::ClockIn));
    assert!(!apply_now(&mut notes, 9, Stamp::ClockIn));
    assert!(apply_now(&mut notes, 0, Stamp::Plan(PlanningRole::Closed)));
    let entry = &notes[0].children[0].logbook.as_ref().unwrap().clock_entries[0];
    let start = &entry.start;
    assert!(start.year >= 2024);
    assert!((1..=12).contains(&start.month));
    assert!((1..=31).contains(&start.day));
    assert!(start.hour.unwrap() < 24);
    assert!(start.minute.unwrap() < 60);
    let name = start.day_name.clone().unwrap();
    assert!(["Mon", "Tue", "Wed", "Thu", "Fri", "Sat", "Sun"].contains(&name.as_str()));
    assert_eq!(
        entry.raw,
        format!(
            "CLOCK: [{:04}-{:02}-{:02} {} {:02}:{:02}]",
            start.year,
            start.month,
            start.day,
            name,
            start.hour.unwrap(),
            start.minute.unwrap()
        )
    );
    let closed = notes[0].planning.as_ref().unwrap().closed.as_ref().unwrap();
    assert!(closed.raw.starts_with('<') && closed.raw.ends_with('>'));
    assert_eq!(closed.year, start.year);
    let stopped = apply_now(&mut notes, 1, Stamp::ClockOut);
    let entry = &notes[0].children[0].logbook.as_ref().unwrap().clock_entries[0];
    assert_eq!(stopped, entry.end.is_some());
    let before = format!("{:?}", notes);
    assert!(apply_now(&mut notes, 4, Stamp::ClockOut));
    assert!(!apply_now(&mut notes, 5, Stamp::ClockOut));
    assert_eq!(format!("{:?}", notes), before);
}

const RICH: &str = "* TODO First task :a:b:\nSCHEDULED: <2024-01-01 Mon 09:00>\nDEADLINE: <2024-01-10 Wed>\n:LOGBOOK:\nCLOCK: [2024-01-01 Mon 09:00]--[2024-01-01 Mon 12:00] =>  3:00\nCLOCK: [2024-01-02 Tue 14:05]\n:END:\nSome text.";

#[test]
fn fields_are_listed_in_the_order_shown() {
    let notes = parse(RICH);
    let note = &notes[0];
    assert_eq!(
        visible_fields_of(note),
        vec![
            Field::Status,
            Field::Title,
            Field::Labels,
            Field::Scheduled,
            Field::Deadline,
            Field::Clock(0),
            Field::Clock(1),
            Field::Content
        ]
    );
    assert_eq!(count_visible_fields(note), 8);
    assert_eq!(field_at_index(note, 5), Some(Field::Clock(0)));
    assert_eq!(field_at_index(note, 7), Some(Field::Content));
    assert_eq!(field_at_index(note, 8), None);
    let bare = OrgNote::new(1, "x".to_string());
    assert_eq!(visible_fields_of(&bare), vec![Field::Title, Field::Content]);
    assert_eq!(count_visible_fields(&bare), 2);
    let closed = parse("* x\nCLOSED: [2024-01-01 Mon]");
    assert_eq!(visible_fields_of(&closed[0]), vec![Field::Title, Field::Closed, Field::Content]);
}

#[test]
fn fields_are_named_for_the_status_line() {
    let notes = parse(RICH);
    let note = &notes[0];
    let names: Vec<String> = (0..9).map(|i| get_field_name_at_index(note, i)).collect();
    assert_eq!(
        names,
        vec![
            "Status: TODO",
            "Title: First task",
            "Labels: :a:b:",
            "Scheduled: <2024-01-01 Mon 09:00>",
            "Deadline: <2024-01-10 Wed>",
            "Clock 1: 2024-01-01 09:00 => 3:00",
            "Clock 2: 2024-01-02 14:05 (running)",
            "Content",
            "Unknown field"
        ]
    );
    let closed = parse("* x\nCLOSED: [2024-01-01 Mon]");
    assert_eq!(get_field_name_at_index(&closed[0], 1), "Closed: [2024-01-01 Mon]");
}

#[test]
fn editing_begins_with_the_text_of_the_field() {
    let notes = parse(RICH);
    let note = &notes[0];
    let expected: Vec<(EditMode, &str, &str)> = vec![
        (EditMode::Status, "TODO", "Editing Status - Press Enter to save, Esc to cancel"),
        (EditMode::Title, "First task", "Editing Title - Press Enter to save, Esc to cancel"),
        (EditMode::Labels, ":a:b:", "Editing Labels - Press Enter to save, Esc to cancel"),
        (
            EditMode::Scheduled,
            "<2024-01-01 Mon 09:00>",
            "Editing Scheduled - Press Enter to save, Esc to cancel",
        ),
        (
            EditMode::Deadline,
            "<2024-01-10 Wed>",
            "Editing Deadline - Press Enter to save, Esc to cancel",
        ),
        (
            EditMode::Content,
            "CLOCK: [2024-01-01 Mon 09:00]--[2024-01-01 Mon 12:00] =>  3:00",
            "Editing Clock Entry 1 - Press Esc to save, Enter for new line",
        ),
        (
            EditMode::Content,
            "CLOCK: [2024-01-02 Tue 14:05]",
            "Editing Clock Entry 2 - Press Esc to save, Enter for new line",
        ),
        (EditMode::Content, "Some text.", "Editing Content - Press Enter to save, Esc to cancel"),
    ];
    for (i, (mode, buffer, message)) in expected.iter().enumerate() {
        let start = start_editing(note, i).unwrap();
        assert_eq!(start.mode, *mode);
        assert_eq!(start.buffer, *buffer);
        assert_eq!(start.message, *message);
    }
    assert!(start_editing(note, 8).is_none());
    let closed = parse("* x\nCLOSED: [2024-01-01 Mon]");
    let start = start_editing(&closed[0], 1).unwrap();
    assert_eq!(start.mode, EditMode::Closed);
    assert_eq!(start.buffer, "[2024-01-01 Mon]");
    assert_eq!(start.message, "Editing Closed - Press Enter to save, Esc to cancel");
}

#[test]
fn summary_counts_the_whole_outline() {
    let notes = parse(
        "* DONE one\nDEADLINE: <2023-12-31 Sun>\n:LOGBOOK:\nCLOCK: [2024-01-01 Mon 09:00]--[2024-01-01 Mon 12:00] =>  3:00\n:END:\n** TODO two\nSCHEDULED: <2024-01-01 Mon>\nDEADLINE: <2024-11-30 Sat>\n*** IN-PROGRESS three\nDEADLINE: <2024-12-01 Sun>\n:LOGBOOK:\nCLOCK: [2024-01-02 Tue 09:00]--[2024-01-02 Tue 09:30] =>  0:30\nCLOCK: [2024-01-02 Tue 10:00]\n:END:\n* WAITING four\nSCHEDULED: <2025-01-01 Wed>\n* five\nDEADLINE: <2025-06-01 Sun>\n** DONE six\n",
    );
    assert_eq!(
        collect_time_stats(&notes),
        Some(TimeStats { total_minutes: 210, completed: 2, active: 2, scheduled: 2, overdue: 2 })
    );
    assert_eq!(
        collect_time_stats(&Vec::new()),
        Some(TimeStats { total_minutes: 0, completed: 0, active: 0, scheduled: 0, overdue: 0 })
    );
}

#[test]
fn summary_that_does_not_fit_is_reported() {
    let notes = parse(
        "* a\n:LOGBOOK:\nCLOCK: [2024-01-01 Mon 09:00]--[2024-01-01 Mon 12:00] => 71582788:15\n:END:\n** b\n:LOGBOOK:\nCLOCK: [2024-01-01 Mon 09:00]--[2024-01-01 Mon 12:00] => 0:01\n:END:\n",
    );
    assert_eq!(collect_time_stats(&notes), None);
}
