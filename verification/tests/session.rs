use rorg::editor::{EditMode, Moment, PlanningRole};
use rorg::now::Stamp;
use rorg::session::{key_command, Action, Command, Focus, Key, KeyPress, Modifiers, Session};
use rorg::{serialize_to_org_format, OrgParser};

fn session(text: &str) -> Session {
    Session::new(OrgParser::new(text).parse(), "notes.org".to_string())
}

fn plain(key: Key) -> KeyPress {
    KeyPress { key, modifiers: Modifiers::Plain }
}

fn press(s: &mut Session, key: KeyPress) -> Action {
    let command = key_command(s.edit_mode, s.focus, key);
    s.perform(command)
}

const TREE: &str = "* TODO first :t:\nbody\n** inner\n* second\n";

#[test]
fn keys_stand_for_commands_while_nothing_is_edited() {
    let idle = EditMode::Idle;
    let cases = [
        (plain(Key::Char('q')), Command::Quit),
        (plain(Key::Tab), Command::ToggleFocus),
        (plain(Key::Char('n')), Command::AddNote),
        (plain(Key::Delete), Command::DeleteNote),
        (plain(Key::Char('i')), Command::Stamp(Stamp::ClockIn)),
        (plain(Key::Char('o')), Command::Stamp(Stamp::ClockOut)),
        (plain(Key::Char('k')), Command::Stamp(Stamp::Plan(PlanningRole::Scheduled))),
        (plain(Key::Char('l')), Command::Stamp(Stamp::Plan(PlanningRole::Deadline))),
        (plain(Key::Char('=')), Command::Nothing),
        (plain(Key::Char('x')), Command::Nothing),
        (plain(Key::Esc), Command::Nothing),
        (KeyPress { key: Key::Char('s'), modifiers: Modifiers::Control }, Command::Save),
        (plain(Key::Char('s')), Command::Nothing),
        (KeyPress { key: Key::Char('q'), modifiers: Modifiers::Control }, Command::Nothing),
        (KeyPress { key: Key::Char('q'), modifiers: Modifiers::Other }, Command::Nothing),
    ];
    for (key, command) in cases {
        assert_eq!(key_command(idle, Focus::Left, key), command, "{:?}", key);
        assert_eq!(key_command(idle, Focus::Right, key), command, "{:?}", key);
    }
    assert_eq!(key_command(idle, Focus::Left, plain(Key::Up)), Command::NoteUp);
    assert_eq!(key_command(idle, Focus::Left, plain(Key::Down)), Command::NoteDown);
    assert_eq!(key_command(idle, Focus::Left, plain(Key::Enter)), Command::Nothing);
    assert_eq!(key_command(idle, Focus::Right, plain(Key::Up)), Command::FieldUp);
    assert_eq!(key_command(idle, Focus::Right, plain(Key::Down)), Command::FieldDown);
    assert_eq!(key_command(idle, Focus::Right, plain(Key::Enter)), Command::BeginEdit);
    let shifted = KeyPress { key: Key::Down, modifiers: Modifiers::Other };
    assert_eq!(key_command(idle, Focus::Left, shifted), Command::NoteDown);
}

#[test]
fn keys_change_the_text_while_a_field_is_edited() {
    for mode in [EditMode::Status, EditMode::Title, EditMode::Labels, EditMode::Scheduled] {
        for focus in [Focus::Left, Focus::Right] {
            assert_eq!(key_command(mode, focus, plain(Key::Enter)), Command::Commit);
            assert_eq!(key_command(mode, focus, plain(Key::Esc)), Command::Commit);
            assert_eq!(key_command(mode, focus, plain(Key::Char('q'))), Command::Type('q'));
            assert_eq!(key_command(mode, focus, plain(Key::Backspace)), Command::Erase);
            assert_eq!(key_command(mode, focus, plain(Key::Tab)), Command::Nothing);
            let held = KeyPress { key: Key::Char('s'), modifiers: Modifiers::Control };
            assert_eq!(key_command(mode, focus, held), Command::Type('s'));
        }
    }
    assert_eq!(key_command(EditMode::Content, Focus::Right, plain(Key::Enter)), Command::Type('\n'));
    assert_eq!(key_command(EditMode::Content, Focus::Right, plain(Key::Esc)), Command::Commit);
}

#[test]
fn session_begins_with_the_first_note_selected() {
    let s = session(TREE);
    assert_eq!(s.selected_note_idx, 0);
    assert_eq!(s.selected_field_idx, 0);
    assert_eq!(s.focus, Focus::Left);
    assert_eq!(s.edit_mode, EditMode::Idle);
    assert_eq!(s.edit_buffer, "");
    assert_eq!(s.list_selection, Some(0));
    assert_eq!(s.file_path, "notes.org");
    assert!(!s.modified);
    assert_eq!(s.status_message, "Press Tab to switch panels, Enter to edit, q to quit");
    assert_eq!(s.get_selected_note().unwrap().title, "first");
    let rows: Vec<String> = s.rows().into_iter().map(|(_, row)| row).collect();
    assert_eq!(rows, vec!["** TODO first", "  ** inner", "** second"]);
    let empty = session("");
    assert_eq!(empty.list_selection, None);
    assert!(empty.get_selected_note().is_none());
    assert!(empty.rows().is_empty());
}

#[test]
fn quit_and_save_are_left_to_the_program() {
    let mut s = session(TREE);
    s.modified = true;
    assert_eq!(press(&mut s, plain(Key::Char('q'))), Action::Quit);
    let save = KeyPress { key: Key::Char('s'), modifiers: Modifiers::Control };
    assert_eq!(press(&mut s, save), Action::Save);
    assert!(s.modified);
    s.mark_saved();
    assert!(!s.modified);
    assert_eq!(press(&mut s, plain(Key::Char('x'))), Action::Continue);
}

#[test]
fn notes_are_selected_within_the_outline() {
    let mut s = session(TREE);
    press(&mut s, plain(Key::Up));
    assert_eq!(s.selected_note_idx, 0);
    assert_eq!(s.status_message, "Press Tab to switch panels, Enter to edit, q to quit");
    press(&mut s, plain(Key::Down));
    assert_eq!(s.selected_note_idx, 1);
    assert_eq!(s.list_selection, Some(1));
    assert_eq!(s.status_message, "Title: inner");
    press(&mut s, plain(Key::Down));
    press(&mut s, plain(Key::Down));
    press(&mut s, plain(Key::Down));
    assert_eq!(s.selected_note_idx, 2);
    assert_eq!(s.status_message, "Title: second");
    press(&mut s, plain(Key::Up));
    press(&mut s, plain(Key::Up));
    assert_eq!(s.selected_note_idx, 0);
    assert_eq!(s.status_message, "Status: TODO");
    assert!(!s.modified);
}

#[test]
fn fields_are_selected_within_the_note() {
    let mut s = session(TREE);
    press(&mut s, plain(Key::Tab));
    assert_eq!(s.focus, Focus::Right);
    press(&mut s, plain(Key::Up));
    assert_eq!(s.selected_field_idx, 0);
    let names = ["Title: first", "Labels: :t:", "Content", "Content"];
    for name in names {
        press(&mut s, plain(Key::Down));
        assert_eq!(s.status_message, name);
    }
    assert_eq!(s.selected_field_idx, 3);
    press(&mut s, plain(Key::Up));
    assert_eq!(s.status_message, "Labels: :t:");
    press(&mut s, plain(Key::Tab));
    assert_eq!(s.focus, Focus::Left);
    press(&mut s, plain(Key::Down));
    assert_eq!(s.selected_field_idx, 0);
    let mut empty = session("");
    press(&mut empty, plain(Key::Tab));
    press(&mut empty, plain(Key::Down));
    assert_eq!(empty.selected_field_idx, 0);
}

#[test]
fn new_note_is_selected() {
    let mut s = session(TREE);
    press(&mut s, plain(Key::Char('n')));
    assert_eq!(s.notes.len(), 3);
    assert_eq!(s.selected_note_idx, 3);
    assert_eq!(s.list_selection, Some(3));
    assert!(s.modified);
    assert_eq!(s.get_selected_note().unwrap().title, "New Note");
    let mut empty = session("");
    press(&mut empty, plain(Key::Char('n')));
    assert_eq!(empty.selected_note_idx, 0);
    assert_eq!(empty.list_selection, Some(0));
}

#[test]
fn deleting_keeps_the_selection_within_the_outline() {
    let mut s = session(TREE);
    press(&mut s, plain(Key::Down));
    press(&mut s, plain(Key::Down));
    press(&mut s, plain(Key::Delete));
    assert_eq!(serialize_to_org_format(&s.notes), "* TODO first :t:\nbody\n\n** inner\n\n");
    assert_eq!(s.selected_note_idx, 1);
    assert_eq!(s.list_selection, Some(1));
    assert!(s.modified);
    press(&mut s, plain(Key::Up));
    press(&mut s, plain(Key::Delete));
    assert!(s.notes.is_empty());
    assert_eq!(s.selected_note_idx, 0);
    assert_eq!(s.list_selection, None);
    s.mark_saved();
    press(&mut s, plain(Key::Delete));
    assert!(!s.modified);
}

#[test]
fn field_is_edited_and_committed() {
    let mut s = session(TREE);
    press(&mut s, plain(Key::Tab));
    press(&mut s, plain(Key::Down));
    press(&mut s, plain(Key::Enter));
    assert_eq!(s.edit_mode, EditMode::Title);
    assert_eq!(s.edit_buffer, "first");
    assert_eq!(s.status_message, "Editing Title - Press Enter to save, Esc to cancel");
    press(&mut s, plain(Key::Backspace));
    press(&mut s, plain(Key::Backspace));
    press(&mut s, plain(Key::Char('e')));
    press(&mut s, plain(Key::Char('!')));
    press(&mut s, plain(Key::Char('q')));
    assert_eq!(s.edit_buffer, "fire!q");
    assert!(!s.modified);
    press(&mut s, plain(Key::Enter));
    assert_eq!(s.edit_mode, EditMode::Idle);
    assert_eq!(s.edit_buffer, "");
    assert_eq!(s.notes[0].title, "fire!q");
    assert_eq!(s.status_message, "Title: fire!q");
    assert!(s.modified);
    assert_eq!(s.rows()[0].1, "** TODO fire!q");
}

#[test]
fn text_of_a_note_takes_line_feeds() {
    let mut s = session(TREE);
    press(&mut s, plain(Key::Tab));
    for _ in 0..3 {
        press(&mut s, plain(Key::Down));
    }
    press(&mut s, plain(Key::Enter));
    assert_eq!(s.edit_mode, EditMode::Content);
    assert_eq!(s.edit_buffer, "body");
    press(&mut s, plain(Key::Enter));
    press(&mut s, plain(Key::Char('x')));
    assert_eq!(s.edit_buffer, "body\nx");
    press(&mut s, plain(Key::Esc));
    assert_eq!(s.notes[0].content, "body\nx");
    assert_eq!(s.status_message, "Content");
}

#[test]
fn erasing_an_empty_text_leaves_it_empty() {
    let mut s = session("* TODO x");
    press(&mut s, plain(Key::Tab));
    press(&mut s, plain(Key::Enter));
    assert_eq!(s.edit_mode, EditMode::Status);
    for _ in 0..6 {
        press(&mut s, plain(Key::Backspace));
    }
    assert_eq!(s.edit_buffer, "");
    press(&mut s, plain(Key::Enter));
    assert_eq!(s.notes[0].status, None);
    assert_eq!(s.status_message, "Title: x");
}

#[test]
fn committing_without_a_note_changes_nothing_but_the_mode() {
    let mut s = session("");
    s.edit_mode = EditMode::Title;
    s.edit_buffer = "lost".to_string();
    press(&mut s, plain(Key::Esc));
    assert_eq!(s.edit_mode, EditMode::Idle);
    assert_eq!(s.edit_buffer, "");
    assert_eq!(s.status_message, "Unknown field");
    assert!(!s.modified);
    assert!(s.notes.is_empty());
}

#[test]
fn stamps_are_made_on_the_selected_note() {
    let now =
        Moment { year: 2024, month: 3, day: 5, hour: 9, minute: 7, day_name: "Tue".to_string() };
    let later =
        Moment { year: 2024, month: 3, day: 5, hour: 9, minute: 30, day_name: "Tue".to_string() };
    let mut s = session(TREE);
    s.stamp_at(Stamp::ClockOut, &now);
    assert!(!s.modified);
    press(&mut s, plain(Key::Down));
    s.stamp_at(Stamp::ClockIn, &now);
    assert!(s.modified);
    s.mark_saved();
    s.stamp_at(Stamp::ClockOut, &later);
    assert!(s.modified);
    s.stamp_at(Stamp::Plan(PlanningRole::Deadline), &later);
    let note = &s.notes[0].children[0];
    assert_eq!(note.logbook.as_ref().unwrap().clock_entries[0].duration, Some("0:23".to_string()));
    assert_eq!(note.planning.as_ref().unwrap().deadline.as_ref().unwrap().raw, "<2024-03-05 Tue 09:30>");
    let mut empty = session("");
    empty.stamp_at(Stamp::ClockIn, &now);
    assert!(!empty.modified);
    assert!(empty.notes.is_empty());
}

#[test]
fn stamp_keys_read_the_clock() {
    let mut s = session(TREE);
    press(&mut s, plain(Key::Char('k')));
    press(&mut s, plain(Key::Char('l')));
    press(&mut s, plain(Key::Char('i')));
    assert!(s.modified);
    let note = &s.notes[0];
    let planning = note.planning.as_ref().unwrap();
    let scheduled = planning.scheduled.as_ref().unwrap();
    assert!(planning.deadline.is_some());
    assert!(planning.closed.is_none());
    assert!((1..=12).contains(&scheduled.month));
    assert_eq!(note.logbook.as_ref().unwrap().clock_entries.len(), 1);
}
