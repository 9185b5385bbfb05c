use rorg::{serialize_note, serialize_to_org_format, OrgNote, OrgParser};

fn parse(text: &str) -> Vec<OrgNote> {
    OrgParser::new(text).parse()
}

const SAMPLE: &str = "* TODO First task :a:b:\nSCHEDULED: <2024-01-01 Mon 09:00>\nDEADLINE: <2024-01-10 Wed>\n:LOGBOOK:\nCLOCK: [2024-01-01 Mon 09:00]--[2024-01-01 Mon 12:00] =>  3:00\nCLOCK: [2024-01-02 Tue 09:00]\n:END:\nSome text.\n  indented\n** DONE Child\n*** Grandchild :x:\ndeep\n* Second";

#[test]
fn outline_is_written_in_canonical_order() {
    let notes = parse(SAMPLE);
    assert_eq!(
        serialize_to_org_format(&notes),
        "* TODO First task :a:b:\nSCHEDULED: <2024-01-01 Mon 09:00>\nDEADLINE: <2024-01-10 Wed>\n:LOGBOOK:\nCLOCK: [2024-01-01 Mon 09:00]--[2024-01-01 Mon 12:00] =>  3:00\nCLOCK: [2024-01-02 Tue 09:00]\n:END:\nSome text.\n  indented\n\n** DONE Child\n\n*** Grandchild :x:\ndeep\n\n* Second\n\n"
    );
}

#[test]
fn planning_is_written_before_the_drawer_and_the_text() {
    let notes = parse("* Task\ntext\n:LOGBOOK:\nCLOCK: [2024-01-02 Tue 09:00]\n:END:\nCLOSED: [2024-01-03 Wed]\nSCHEDULED: <2024-01-01 Mon>");
    assert_eq!(
        serialize_to_org_format(&notes),
        "* Task\nSCHEDULED: <2024-01-01 Mon>\nCLOSED: [2024-01-03 Wed]\n:LOGBOOK:\nCLOCK: [2024-01-02 Tue 09:00]\n:END:\ntext\n\n"
    );
}

#[test]
fn empty_outline_is_written_as_nothing() {
    assert_eq!(serialize_to_org_format(&Vec::new()), "");
}

#[test]
fn bare_note_is_written_as_its_heading_and_an_empty_line() {
    let note = OrgNote::new(2, "Title".to_string());
    let mut out = String::from("before\n");
    serialize_note(&mut out, &note);
    assert_eq!(out, "before\n** Title\n\n");
    let untitled = OrgNote::new(1, String::new());
    assert_eq!(serialize_to_org_format(&vec![untitled]), "* \n\n");
}

#[test]
fn blank_text_and_empty_log_are_not_written() {
    let notes = parse("* Task\n   \n:LOGBOOK:\n- only a remark\n:END:\n\t");
    assert_eq!(notes[0].content, "   \n\t");
    assert!(notes[0].logbook.is_some());
    assert_eq!(serialize_to_org_format(&notes), "* Task\n\n");
}

#[test]
fn heading_parts_read_back_from_the_written_line() {
    let cases: Vec<(usize, Option<&str>, &str, Vec<&str>)> = vec![
        (1, Some("TODO"), "My task", vec!["urgent", "important"]),
        (3, None, "Just a heading", vec!["tag"]),
        (2, Some("DONE"), "", vec!["t"]),
        (1, Some("[#B]"), "x :y: z", vec![]),
        (5, None, "", vec![]),
        (1, None, "lower UPPER", vec!["a", "b", "c"]),
    ];
    let parser = OrgParser::new("");
    for (level, status, title, tags) in cases {
        let mut note = OrgNote::new(level, title.to_string());
        note.status = status.map(|s| s.to_string());
        note.labels = tags.iter().map(|t| t.to_string()).collect();
        let text = serialize_to_org_format(&vec![note]);
        let line = text.lines().next().unwrap();
        assert_eq!(parser.count_asterisks(line), Some(level), "{}", line);
        let header = parser.extract_header_content(line, level);
        let (read_status, read_title, read_tags) = parser.parse_header_parts(&header);
        assert_eq!(read_status.as_deref(), status, "{}", line);
        assert_eq!(read_title, title, "{}", line);
        assert_eq!(read_tags, tags, "{}", line);
    }
}

#[test]
fn written_outline_reads_back_as_itself() {
    let first = parse(SAMPLE);
    let text = serialize_to_org_format(&first);
    let second = parse(&text);
    assert_eq!(format!("{:?}", second), format!("{:?}", first));
    assert_eq!(serialize_to_org_format(&second), text);
}

#[test]
fn written_outline_with_empty_lines_in_the_text_reads_back_as_itself() {
    let first = parse("** deep\n\ntext\n\nmore\n\n\n* top :t:\nCLOSED: [2024-01-03 Wed 10:00]\n*not a heading\n*** below\n** next");
    let second = parse(&serialize_to_org_format(&first));
    assert_eq!(format!("{:?}", second), format!("{:?}", first));
}

#[test]
fn ambiguous_trailing_colons_do_not_read_back() {
    let first = parse("* x :a: :::");
    assert_eq!(first[0].title, "x :a:");
    assert!(first[0].labels.is_empty());
    let second = parse(&serialize_to_org_format(&first));
    assert_eq!(second[0].title, "x");
    assert_eq!(second[0].labels, vec!["a".to_string()]);
}
