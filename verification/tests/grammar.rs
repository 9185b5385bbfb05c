use rorg::{OrgClockEntry, OrgLogbook, OrgParser, OrgTimestamp};

fn parse(text: &str) -> Vec<rorg::OrgNote> {
    OrgParser::new(text).parse()
}

fn stamp(hour: Option<u32>, minute: Option<u32>) -> OrgTimestamp {
    OrgTimestamp {
        year: 2024,
        month: 1,
        day: 1,
        hour,
        minute,
        day_name: Some("Mon".to_string()),
        raw: "[2024-01-01 Mon]".to_string(),
    }
}

fn entry(duration: Option<&str>) -> OrgClockEntry {
    OrgClockEntry {
        start: stamp(Some(9), Some(0)),
        end: None,
        duration: duration.map(|d| d.to_string()),
        raw: String::new(),
    }
}

#[test]
fn heading_needs_a_space_after_the_markers() {
    let parser = OrgParser::new("");
    assert_eq!(parser.count_asterisks("*"), None);
    assert_eq!(parser.count_asterisks("**"), None);
    assert_eq!(parser.count_asterisks("**bold** text"), None);
    assert_eq!(parser.count_asterisks("*\tTab"), None);
    assert_eq!(parser.count_asterisks("* "), Some(1));
    assert_eq!(parser.count_asterisks("**** "), Some(4));
    assert_eq!(parser.count_asterisks("text * Heading"), None);
}

#[test]
fn heading_level_ignores_any_leading_whitespace() {
    let parser = OrgParser::new("");
    assert_eq!(parser.count_asterisks("\t\t** Two"), Some(2));
    assert_eq!(parser.count_asterisks(" \u{a0}\u{3000}* One"), Some(1));
    assert_eq!(parser.count_asterisks("   *No space"), None);
}

#[test]
fn marker_line_without_space_is_body_text_at_any_depth() {
    let notes = parse("* A\n*No space\n** B\n**No space\n***No space");
    assert_eq!(notes.len(), 1);
    assert_eq!(notes[0].content, "*No space");
    assert_eq!(notes[0].children.len(), 1);
    assert_eq!(notes[0].children[0].content, "**No space\n***No space");
}

#[test]
fn heading_with_nothing_after_the_space_has_an_empty_title() {
    let notes = parse("* \nbody");
    assert_eq!(notes.len(), 1);
    assert_eq!(notes[0].level, 1);
    assert_eq!(notes[0].status, None);
    assert_eq!(notes[0].title, "");
    assert_eq!(notes[0].labels, Vec::<String>::new());
    assert_eq!(notes[0].content, "body");
}

#[test]
fn header_content_skips_markers_and_space() {
    let parser = OrgParser::new("");
    assert_eq!(parser.extract_header_content("  ** TODO x", 2), "TODO x");
    assert_eq!(parser.extract_header_content("* ", 1), "");
    assert_eq!(parser.extract_header_content("*", 1), "");
    assert_eq!(parser.extract_header_content("* abc", 9), "");
}

#[test]
fn status_is_a_first_word_without_lowercase_letters() {
    let parser = OrgParser::new("");
    let (status, title, _) = parser.parse_header_parts("todo My task");
    assert_eq!(status, None);
    assert_eq!(title, "todo My task");
    let (status, title, _) = parser.parse_header_parts("Todo My task");
    assert_eq!(status, None);
    assert_eq!(title, "Todo My task");
    let (status, title, _) = parser.parse_header_parts("[#A] My task");
    assert_eq!(status, Some("[#A]".to_string()));
    assert_eq!(title, "My task");
    let (status, title, _) = parser.parse_header_parts("123 things");
    assert_eq!(status, Some("123".to_string()));
    assert_eq!(title, "things");
    let (status, title, _) = parser.parse_header_parts("\u{c4}B\u{d6} x");
    assert_eq!(status, Some("\u{c4}B\u{d6}".to_string()));
    assert_eq!(title, "x");
    let (status, title, _) = parser.parse_header_parts("\u{e4}b x");
    assert_eq!(status, None);
    assert_eq!(title, "\u{e4}b x");
    let (status, title, _) = parser.parse_header_parts("IMPORTANT");
    assert_eq!(status, Some("IMPORTANT".to_string()));
    assert_eq!(title, "");
}

#[test]
fn title_words_are_joined_by_single_spaces() {
    let parser = OrgParser::new("");
    let (status, title, labels) = parser.parse_header_parts("  DONE   a \t b   :x:  ");
    assert_eq!(status, Some("DONE".to_string()));
    assert_eq!(title, "a b");
    assert_eq!(labels, vec!["x".to_string()]);
}

#[test]
fn tags_need_whitespace_before_and_colons_around() {
    let parser = OrgParser::new("");
    let (_, title, labels) = parser.parse_header_parts(":tag:");
    assert_eq!(title, ":tag:");
    assert_eq!(labels, Vec::<String>::new());
    let (_, title, labels) = parser.parse_header_parts("a ::");
    assert_eq!(title, "a ::");
    assert_eq!(labels, Vec::<String>::new());
    let (_, title, labels) = parser.parse_header_parts("a :b");
    assert_eq!(title, "a :b");
    assert_eq!(labels, Vec::<String>::new());
    let (_, title, labels) = parser.parse_header_parts("a :b: c");
    assert_eq!(title, "a :b: c");
    assert_eq!(labels, Vec::<String>::new());
    let (_, title, labels) = parser.parse_header_parts("a :b::c:");
    assert_eq!(title, "a");
    assert_eq!(labels, vec!["b".to_string(), "c".to_string()]);
    let (_, title, labels) = parser.parse_header_parts("a :::");
    assert_eq!(title, "a");
    assert_eq!(labels, Vec::<String>::new());
    let (_, title, labels) = parser.parse_header_parts("a :\u{e9}:");
    assert_eq!(title, "a");
    assert_eq!(labels, vec!["\u{e9}".to_string()]);
}

#[test]
fn timestamp_brackets_are_stripped_alike() {
    let parser = OrgParser::new("");
    let a = parser.parse_timestamp_from_text("[2024-02-03 Sat 04:05]").unwrap();
    let b = parser.parse_timestamp_from_text("<2024-02-03 Sat 04:05>").unwrap();
    let c = parser.parse_timestamp_from_text("2024-02-03 Sat 04:05").unwrap();
    for t in [&a, &b, &c] {
        assert_eq!((t.year, t.month, t.day), (2024, 2, 3));
        assert_eq!((t.hour, t.minute), (Some(4), Some(5)));
        assert_eq!(t.day_name, Some("Sat".to_string()));
    }
    assert_eq!(a.raw, "[2024-02-03 Sat 04:05]");
    assert_eq!(b.raw, "<2024-02-03 Sat 04:05>");
    assert_eq!(c.raw, "2024-02-03 Sat 04:05");
    assert!(parser.parse_timestamp_from_text("[2024-02-03 Sat>").is_none());
    let half = parser.parse_timestamp_from_text("2024-02-03 Sat>").unwrap();
    assert_eq!(half.day_name, Some("Sat>".to_string()));
}

#[test]
fn timestamp_needs_a_date_and_a_second_word() {
    let parser = OrgParser::new("");
    assert!(parser.parse_timestamp_from_text("").is_none());
    assert!(parser.parse_timestamp_from_text("[]").is_none());
    assert!(parser.parse_timestamp_from_text("[2024-01-01]").is_none());
    assert!(parser.parse_timestamp_from_text("2024-01 Mon").is_none());
    assert!(parser.parse_timestamp_from_text("2024-01-01-02 Mon").is_none());
    assert!(parser.parse_timestamp_from_text("2024-xx-01 Mon").is_none());
    assert!(parser.parse_timestamp_from_text("2024--01 Mon").is_none());
    assert!(parser.parse_timestamp_from_text("-2024-01-01 Mon").is_none());
    assert!(parser.parse_timestamp_from_text("4294967296-01-01 Mon").is_none());
    assert!(parser.parse_timestamp_from_text("4294967295-01-01 Mon").is_some());
}

#[test]
fn timestamp_does_not_check_the_calendar() {
    let parser = OrgParser::new("");
    let t = parser.parse_timestamp_from_text("<0-13-32 whatever 25:61>").unwrap();
    assert_eq!((t.year, t.month, t.day), (0, 13, 32));
    assert_eq!((t.hour, t.minute), (Some(25), Some(61)));
    assert_eq!(t.day_name, Some("whatever".to_string()));
    let plus = parser.parse_timestamp_from_text("+2024-+1-+02 x").unwrap();
    assert_eq!((plus.year, plus.month, plus.day), (2024, 1, 2));
}

#[test]
fn time_of_day_comes_as_a_pair_or_not_at_all() {
    let parser = OrgParser::new("");
    for text in ["2024-01-01 Mon 10", "2024-01-01 Mon 10:30:00", "2024-01-01 Mon 10:xx",
        "2024-01-01 Mon xx:30", "2024-01-01 Mon :", "2024-01-01 Mon"] {
        let t = parser.parse_timestamp_from_text(text).unwrap();
        assert_eq!(t.hour, None, "{}", text);
        assert_eq!(t.minute, None, "{}", text);
    }
    let t = parser.parse_timestamp_from_text("2024-01-01 Mon 7:5 more words").unwrap();
    assert_eq!((t.hour, t.minute), (Some(7), Some(5)));
}

#[test]
fn free_function_reads_a_timestamp_like_the_parser() {
    let t = rorg::parse_timestamp_from_text("<2024-03-04 Mon 05:06>").unwrap();
    assert_eq!((t.year, t.month, t.day, t.hour, t.minute), (2024, 3, 4, Some(5), Some(6)));
    assert!(rorg::parse_timestamp_from_text("soon").is_none());
}

#[test]
fn clock_line_closed() {
    let parser = OrgParser::new("");
    let line = "CLOCK: [2024-01-01 Mon 09:00]--[2024-01-01 Mon 12:00] =>  3:00";
    let e = parser.parse_clock_line(line).unwrap();
    assert_eq!((e.start.year, e.start.month, e.start.day), (2024, 1, 1));
    assert_eq!((e.start.hour, e.start.minute), (Some(9), Some(0)));
    assert_eq!(e.start.raw, "[2024-01-01 Mon 09:00]");
    let end = e.end.unwrap();
    assert_eq!((end.hour, end.minute), (Some(12), Some(0)));
    assert_eq!(end.raw, "[2024-01-01 Mon 12:00]");
    assert_eq!(e.duration, Some("3:00".to_string()));
    assert_eq!(e.raw, line);
}

#[test]
fn clock_line_running() {
    let parser = OrgParser::new("");
    let e = parser.parse_clock_line("  CLOCK: [2024-01-01 Mon 09:00]  ").unwrap();
    assert!(e.end.is_none());
    assert!(e.duration.is_none());
    assert_eq!(e.start.hour, Some(9));
    assert_eq!(e.start.raw, "[2024-01-01 Mon 09:00]");
    assert_eq!(e.raw, "  CLOCK: [2024-01-01 Mon 09:00]  ");
}

#[test]
fn clock_line_of_another_shape_is_no_entry() {
    let parser = OrgParser::new("");
    assert!(parser.parse_clock_line("[2024-01-01 Mon 09:00]").is_none());
    assert!(parser.parse_clock_line("clock: [2024-01-01 Mon 09:00]").is_none());
    assert!(parser.parse_clock_line("CLOCK: [2024-01-01 Mon 09:00] => 1:00").is_none());
    assert!(parser.parse_clock_line("CLOCK: [2024-01-01 Mon 09:00]--[nope] => 1:00").is_none());
    assert!(parser.parse_clock_line("CLOCK: [nope]--[2024-01-01 Mon 09:00] => 1:00").is_none());
    assert!(parser.parse_clock_line("CLOCK: soon").is_none());
    assert!(parser.parse_clock_line("CLOCK:").is_none());
    let odd = parser
        .parse_clock_line("CLOCK:[2024-01-01 Mon 09:00]--[2024-01-01 Mon 09:10]=>whatever")
        .unwrap();
    assert_eq!(odd.duration, Some("whatever".to_string()));
    assert_eq!(odd.parse_duration_minutes(), None);
}

#[test]
fn duration_minutes_are_sixty_times_hours_plus_minutes() {
    assert_eq!(entry(Some("0:00")).parse_duration_minutes(), Some(0));
    assert_eq!(entry(Some(" 12:05 ")).parse_duration_minutes(), Some(725));
    assert_eq!(entry(Some("100:99")).parse_duration_minutes(), Some(6099));
    assert_eq!(entry(Some("71582788:15")).parse_duration_minutes(), Some(4294967295));
    assert_eq!(entry(Some("71582788:16")).parse_duration_minutes(), None);
    assert_eq!(entry(Some("1:2:3")).parse_duration_minutes(), None);
    assert_eq!(entry(Some("90")).parse_duration_minutes(), None);
    assert_eq!(entry(Some("a:30")).parse_duration_minutes(), None);
    assert_eq!(entry(Some("-1:30")).parse_duration_minutes(), None);
    assert_eq!(entry(None).parse_duration_minutes(), None);
}

#[test]
fn duration_is_shown_with_its_minutes() {
    assert_eq!(entry(Some("0:07")).format_duration(), "0:07 (7 minutes)");
    assert_eq!(entry(Some("soon")).format_duration(), "soon (duration)");
    assert_eq!(entry(None).format_duration(), "running");
}

#[test]
fn logbook_total_counts_unreadable_durations_as_zero() {
    let log = OrgLogbook {
        clock_entries: vec![
            entry(Some("3:00")),
            entry(None),
            entry(Some("x")),
            entry(Some("2:30")),
        ],
        raw_content: Vec::new(),
    };
    assert_eq!(log.total_minutes(), 330);
    assert_eq!(log.checked_total_minutes(), Some(330));
    assert_eq!(log.format_total_time(), "5h 30m");
    let empty = OrgLogbook { clock_entries: Vec::new(), raw_content: Vec::new() };
    assert_eq!(empty.total_minutes(), 0);
    assert_eq!(empty.format_total_time(), "0h 0m");
}

#[test]
fn logbook_total_that_does_not_fit_is_reported() {
    let log = OrgLogbook {
        clock_entries: vec![entry(Some("71582788:15")), entry(Some("0:01"))],
        raw_content: Vec::new(),
    };
    assert_eq!(log.checked_total_minutes(), None);
}

#[test]
fn dates_are_padded_with_zeros() {
    let mut t = stamp(None, None);
    t.year = 7;
    t.month = 3;
    t.day = 9;
    assert_eq!(t.to_date_string(), "0007-03-09");
    assert_eq!(t.to_datetime_string(), "0007-03-09");
    t.year = 12345;
    t.month = 123;
    t.day = 0;
    t.hour = Some(5);
    t.minute = Some(0);
    assert_eq!(t.to_date_string(), "12345-123-00");
    assert_eq!(t.to_datetime_string(), "12345-123-00 05:00");
    t.minute = None;
    assert_eq!(t.to_datetime_string(), "12345-123-00");
}

#[test]
fn planning_lines_leave_the_text_in_order() {
    let notes = parse(
        "* Task\nfirst\nSCHEDULED: <2024-01-01 Mon 09:00>\nsecond\n  DEADLINE: <2024-01-10 Wed>\nthird\nCLOSED: [2024-01-11 Thu 10:00]",
    );
    let note = &notes[0];
    assert_eq!(note.content, "first\nsecond\nthird");
    let planning = note.planning.as_ref().unwrap();
    let scheduled = planning.scheduled.as_ref().unwrap();
    assert_eq!((scheduled.year, scheduled.hour), (2024, Some(9)));
    assert_eq!(scheduled.raw, "<2024-01-01 Mon 09:00>");
    let deadline = planning.deadline.as_ref().unwrap();
    assert_eq!((deadline.day, deadline.hour), (10, None));
    let closed = planning.closed.as_ref().unwrap();
    assert_eq!(closed.raw, "[2024-01-11 Thu 10:00]");
}

#[test]
fn planning_keyword_claims_its_line_even_without_a_timestamp() {
    let notes = parse("* Task\nSCHEDULED: soon\nkept\nsee DEADLINE: later today");
    let note = &notes[0];
    assert_eq!(note.content, "kept");
    assert!(note.planning.is_none());
}

#[test]
fn first_planning_keyword_in_order_of_roles_wins() {
    let notes = parse("* Task\nDEADLINE: <2024-01-10 Wed> SCHEDULED: <2024-01-01 Mon>");
    let planning = notes[0].planning.as_ref().unwrap();
    assert!(planning.deadline.is_none());
    assert_eq!(planning.scheduled.as_ref().unwrap().day, 1);
    assert_eq!(notes[0].content, "");
}

#[test]
fn last_planning_line_of_a_role_wins() {
    let notes = parse("* Task\nSCHEDULED: <2024-01-01 Mon>\nSCHEDULED: <2024-02-02 Fri>\nSCHEDULED: never");
    let planning = notes[0].planning.as_ref().unwrap();
    assert_eq!(planning.scheduled.as_ref().unwrap().month, 2);
}

#[test]
fn planning_timestamp_follows_the_first_keyword() {
    let parser = OrgParser::new("");
    let t = parser
        .extract_planning_timestamp("x SCHEDULED:   <2024-05-06 Mon>  ", "SCHEDULED:")
        .unwrap();
    assert_eq!(t.raw, "<2024-05-06 Mon>");
    assert!(parser.extract_planning_timestamp("DEADLINE: <2024-05-06 Mon>", "SCHEDULED:").is_none());
    assert!(parser.extract_planning_timestamp("SCHEDULED: x", "SCHEDULED:").is_none());
}

#[test]
fn drawer_lines_are_kept_raw_and_read_as_clock_lines() {
    let notes = parse(
        "* Task\n  :LOGBOOK:  \nCLOCK: [2024-01-01 Mon 09:00]--[2024-01-01 Mon 10:00] =>  1:00\n- a note\nCLOCK: [2024-01-02 Tue 09:00]\n :END: \nafter",
    );
    let note = &notes[0];
    let log = note.logbook.as_ref().unwrap();
    assert_eq!(log.clock_entries.len(), 2);
    assert_eq!(log.raw_content.len(), 3);
    assert_eq!(log.raw_content[1], "- a note");
    assert!(log.clock_entries[1].end.is_none());
    assert_eq!(note.content, "after");
}

#[test]
fn unterminated_drawer_yields_no_logbook_and_swallows_its_lines() {
    let notes = parse("* Task\nbefore\n:LOGBOOK:\nCLOCK: [2024-01-01 Mon 09:00]\nlost\n* Next\nbody");
    assert_eq!(notes.len(), 2);
    assert!(notes[0].logbook.is_none());
    assert_eq!(notes[0].content, "before");
    assert_eq!(notes[1].content, "body");
}

#[test]
fn end_mark_outside_a_drawer_is_text() {
    let notes = parse("* Task\n:END:\ntext");
    assert!(notes[0].logbook.is_none());
    assert_eq!(notes[0].content, ":END:\ntext");
}

#[test]
fn planning_keywords_inside_a_drawer_are_drawer_lines() {
    let notes = parse("* Task\n:LOGBOOK:\nSCHEDULED: <2024-01-01 Mon>\n:END:");
    assert!(notes[0].planning.is_none());
    let log = notes[0].logbook.as_ref().unwrap();
    assert_eq!(log.clock_entries.len(), 0);
    assert_eq!(log.raw_content, vec!["SCHEDULED: <2024-01-01 Mon>".to_string()]);
}

#[test]
fn later_drawer_wins_and_clock_entries_add_up() {
    let notes = parse(
        "* Task\n:LOGBOOK:\nCLOCK: [2024-01-01 Mon 09:00]\n:END:\n:LOGBOOK:\nCLOCK: [2024-01-02 Tue 09:00]\n:END:",
    );
    let log = notes[0].logbook.as_ref().unwrap();
    assert_eq!(log.clock_entries.len(), 2);
    assert_eq!(log.raw_content, vec!["CLOCK: [2024-01-02 Tue 09:00]".to_string()]);
}

#[test]
fn time_elements_of_a_body() {
    let parser = OrgParser::new("");
    let (content, planning, logbook) =
        parser.parse_time_elements("a\nCLOSED: [2024-01-01 Mon]\n\nb\n");
    assert_eq!(content, "a\n\nb");
    assert!(planning.unwrap().closed.is_some());
    assert!(logbook.is_none());
    let (content, planning, logbook) = parser.parse_time_elements("");
    assert_eq!(content, "");
    assert!(planning.is_none());
    assert!(logbook.is_none());
}

#[test]
fn lines_end_at_line_feeds_with_or_without_carriage_return() {
    let notes = parse("* One\r\nbody\r\n** Two\r\n");
    assert_eq!(notes.len(), 1);
    assert_eq!(notes[0].title, "One");
    assert_eq!(notes[0].content, "body");
    assert_eq!(notes[0].children[0].title, "Two");
}

#[test]
fn nesting_follows_levels() {
    let notes = parse("intro\n*** Deep first\n* a\n** a1\n*** a1a\n** a2\n* b\n*** b1\n** b2\n");
    assert_eq!(notes.len(), 3);
    assert_eq!(notes[0].title, "Deep first");
    assert_eq!(notes[0].level, 3);
    assert_eq!(notes[0].children.len(), 0);
    let a = &notes[1];
    assert_eq!(a.children.len(), 2);
    assert_eq!(a.children[0].title, "a1");
    assert_eq!(a.children[0].children.len(), 1);
    assert_eq!(a.children[0].children[0].title, "a1a");
    assert_eq!(a.children[1].title, "a2");
    let b = &notes[2];
    assert_eq!(b.children.len(), 2);
    assert_eq!(b.children[0].level, 3);
    assert_eq!(b.children[1].level, 2);
}

#[test]
fn deeper_heading_after_a_sibling_belongs_to_the_sibling() {
    let notes = parse("* a\n* b\n** c");
    assert_eq!(notes.len(), 2);
    assert_eq!(notes[0].children.len(), 0);
    assert_eq!(notes[1].children.len(), 1);
    assert_eq!(notes[1].children[0].title, "c");
}

fn assert_nested(note: &rorg::OrgNote) {
    let mut last = usize::MAX;
    for child in &note.children {
        assert!(child.level > note.level);
        assert!(child.level <= last);
        last = child.level;
        assert_nested(child);
    }
}

#[test]
fn children_lie_deeper_and_levels_never_rise() {
    let notes = parse("**** a\n** b\n*** c\n***** d\n**** e\n*** f\n* g\n** h\n** i\n*** j\n* k");
    let mut last = usize::MAX;
    for note in &notes {
        assert!(note.level <= last);
        last = note.level;
        assert_nested(note);
    }
    assert_eq!(notes.len(), 4);
}

#[test]
fn lines_before_the_first_heading_belong_to_no_note() {
    let notes = parse("preface\n\n* Only\ntext");
    assert_eq!(notes.len(), 1);
    assert_eq!(notes[0].content, "text");
}

#[test]
fn title_of_one_word_in_capitals_reads_as_a_status() {
    let notes = parse("* A\n** NASA");
    assert_eq!(notes[0].status, Some("A".to_string()));
    assert_eq!(notes[0].title, "");
    assert_eq!(notes[0].children[0].status, Some("NASA".to_string()));
    assert_eq!(notes[0].children[0].title, "");
}

#[test]
fn whitespace_only_input_has_no_notes() {
    assert_eq!(parse("\n\n  \n").len(), 0);
    assert_eq!(parse("*").len(), 0);
}

#[test]
fn parser_reads_a_document_once() {
    let mut parser = OrgParser::new("* A\n* B");
    assert_eq!(parser.parse().len(), 2);
    assert_eq!(parser.parse().len(), 0);
    assert!(parser.parse_note(1).is_none());
}

#[test]
fn parse_note_reads_one_section() {
    let mut parser = OrgParser::new("* first\nx\n** inner\n* second");
    let a = parser.parse_note(1).unwrap();
    assert_eq!(a.title, "first");
    assert_eq!(a.content, "x");
    assert_eq!(a.children.len(), 1);
    let b = parser.parse_note(1).unwrap();
    assert_eq!(b.title, "second");
    assert!(parser.parse_note(1).is_none());
}

#[test]
fn new_note_is_bare() {
    let note = rorg::OrgNote::new(3, "Title".to_string());
    assert_eq!(note.level, 3);
    assert_eq!(note.title, "Title");
    assert_eq!(note.status, None);
    assert!(note.labels.is_empty());
    assert_eq!(note.content, "");
    assert!(note.children.is_empty());
    assert!(note.planning.is_none());
    assert!(note.logbook.is_none());
}

#[test]
fn clones_are_deep() {
    let notes = parse("* TODO A :t:\nSCHEDULED: <2024-01-01 Mon>\n:LOGBOOK:\nCLOCK: [2024-01-01 Mon 09:00]\n:END:\nbody\n** B");
    let copy = notes[0].clone();
    assert_eq!(rorg::serialize_to_org_format(&vec![copy]), rorg::serialize_to_org_format(&notes));
}
