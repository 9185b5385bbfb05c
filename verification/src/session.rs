//! A session of an editor over one outline: what is selected, what is being
//! edited, and what each command does to it.

use crate::editor::{
    add_note, admits, applied_at, apply_at, has_running_entry, is_clock_reading, running_entry,
    Edit, EditMode, EditView, Moment, MomentView, PlanningRole,
};
use crate::fields::{
    count_visible_fields, edit_start, field_at, field_name, get_field_name_at_index, start_editing,
    visible_fields,
};
use crate::model::{all_well_formed, notes, NoteView, OrgNote};
use crate::now::{apply_stamp, local_now, stamped, Stamp};
use crate::outline::{
    find_note_by_flat_index, flatten_notes, forest_rows, forest_size, forest_without,
    lemma_forest_size_push, lemma_note_in_forest, lemma_rows_count, note_count, note_in_forest,
    remove_note_by_flat_index,
};
use crate::unicode::{chars_of, string_of};
use vstd::prelude::*;

verus! {

/// The panel that takes the keys: the outline on the left, or the fields
/// of the selected note on the right.
#[derive(Debug, Clone, Copy, PartialEq, Eq, Structural)]
pub enum Focus {
    Left,
    Right,
}

/// A key of the keyboard, as far as the editor tells keys apart.
#[derive(Debug, Clone, Copy, PartialEq, Eq, Structural)]
pub enum Key {
    Char(char),
    Tab,
    Enter,
    Esc,
    Backspace,
    Delete,
    Up,
    Down,
    Other,
}

/// The keys held down with a key: none, the control key alone, or
/// anything else.
#[derive(Debug, Clone, Copy, PartialEq, Eq, Structural)]
pub enum Modifiers {
    Plain,
    Control,
    Other,
}

/// A key as it was pressed.
#[derive(Debug, Clone, Copy, PartialEq, Eq, Structural)]
pub struct KeyPress {
    pub key: Key,
    pub modifiers: Modifiers,
}

/// What a key asks of the session.
#[derive(Debug, Clone, Copy, PartialEq, Eq, Structural)]
pub enum Command {
    /// Leave the editor.
    Quit,
    /// Write the outline to its file.
    Save,
    /// Give the keys to the other panel.
    ToggleFocus,
    /// Append a new note to the outline.
    AddNote,
    /// Remove the selected note and all below it.
    DeleteNote,
    /// Make an edit at the present moment on the selected note.
    Stamp(Stamp),
    /// Select the note before the selected one.
    NoteUp,
    /// Select the note after the selected one.
    NoteDown,
    /// Select the field before the selected one.
    FieldUp,
    /// Select the field after the selected one.
    FieldDown,
    /// Begin to edit the selected field.
    BeginEdit,
    /// Add a character to the text that is edited.
    Type(char),
    /// Take the last character from the text that is edited.
    Erase,
    /// Commit the text that is edited to its field.
    Commit,
    /// Nothing.
    Nothing,
}

/// What the program has to do after a command.
#[derive(Debug, Clone, Copy, PartialEq, Eq, Structural)]
pub enum Action {
    /// Go on with the next key.
    Continue,
    /// Leave the editor.
    Quit,
    /// Write the outline to the file of the session.
    Save,
}

/// The state of an editor over one outline.
#[derive(Debug)]
pub struct Session {
    pub notes: Vec<OrgNote>,
    pub selected_note_idx: usize,
    pub selected_field_idx: usize,
    pub focus: Focus,
    pub edit_mode: EditMode,
    pub edit_buffer: String,
    /// The row that the list of notes marks, if it marks one.
    pub list_selection: Option<usize>,
    pub file_path: String,
    pub modified: bool,
    pub status_message: String,
}

/// The value of a session.
pub struct SessionView {
    pub notes: Seq<NoteView>,
    pub selected_note: usize,
    pub selected_field: usize,
    pub focus: Focus,
    pub mode: EditMode,
    pub buffer: Seq<char>,
    pub list_selection: Option<usize>,
    pub file_path: Seq<char>,
    pub modified: bool,
    pub message: Seq<char>,
}

impl View for Session {
    type V = SessionView;

    open spec fn view(&self) -> SessionView {
        SessionView {
            notes: notes(self.notes@),
            selected_note: self.selected_note_idx,
            selected_field: self.selected_field_idx,
            focus: self.focus,
            mode: self.edit_mode,
            buffer: self.edit_buffer@,
            list_selection: self.list_selection,
            file_path: self.file_path@,
            modified: self.modified,
            message: self.status_message@,
        }
    }
}

/// The command that a key stands for. While nothing is edited, keys
/// without modifiers leave, switch panels, add and delete notes and stamp
/// the selected note, `s` with the control key saves, and the other keys
/// move through the panel that has the focus or begin an edit. While a
/// field is edited, keys change its text or commit it, whatever their
/// modifiers; the enter key adds a line to the text of a note and commits
/// any other field.
pub open spec fn command_for(mode: EditMode, focus: Focus, press: KeyPress) -> Command {
    if mode == EditMode::Idle {
        match (press.key, press.modifiers) {
            (Key::Char('q'), Modifiers::Plain) => Command::Quit,
            (Key::Tab, Modifiers::Plain) => Command::ToggleFocus,
            (Key::Char('s'), Modifiers::Control) => Command::Save,
            (Key::Char('n'), Modifiers::Plain) => Command::AddNote,
            (Key::Delete, Modifiers::Plain) => Command::DeleteNote,
            (Key::Char('i'), Modifiers::Plain) => Command::Stamp(Stamp::ClockIn),
            (Key::Char('o'), Modifiers::Plain) => Command::Stamp(Stamp::ClockOut),
            (Key::Char('k'), Modifiers::Plain) => Command::Stamp(
                Stamp::Plan(PlanningRole::Scheduled),
            ),
            (Key::Char('l'), Modifiers::Plain) => Command::Stamp(
                Stamp::Plan(PlanningRole::Deadline),
            ),
            (Key::Char('='), Modifiers::Plain) => Command::Nothing,
            (key, _) => match focus {
                Focus::Left => match key {
                    Key::Up => Command::NoteUp,
                    Key::Down => Command::NoteDown,
                    _ => Command::Nothing,
                },
                Focus::Right => match key {
                    Key::Up => Command::FieldUp,
                    Key::Down => Command::FieldDown,
                    Key::Enter => Command::BeginEdit,
                    _ => Command::Nothing,
                },
            },
        }
    } else {
        match press.key {
            Key::Enter => if mode == EditMode::Content {
                Command::Type('\n')
            } else {
                Command::Commit
            },
            Key::Esc => Command::Commit,
            Key::Char(c) => Command::Type(c),
            Key::Backspace => Command::Erase,
            _ => Command::Nothing,
        }
    }
}

/// The selected note, if the outline has one at the selected position.
pub open spec fn selected(s: SessionView) -> Option<NoteView> {
    note_in_forest(s.notes, s.selected_note as nat)
}

/// What the status line says of the selected field of the selected note.
pub open spec fn field_message(s: SessionView) -> Seq<char> {
    match selected(s) {
        Some(note) => field_name(note, field_at(note, s.selected_field as nat)),
        None => "Unknown field"@,
    }
}

/// The session with another note selected: its first field is selected,
/// and the status line names it.
pub open spec fn with_note(s: SessionView, index: usize) -> SessionView {
    let moved = SessionView {
        selected_note: index,
        list_selection: Some(index),
        selected_field: 0,
        ..s
    };
    SessionView { message: field_message(moved), ..moved }
}

/// The session with another field selected: the status line names it.
pub open spec fn with_field(s: SessionView, index: usize) -> SessionView {
    let moved = SessionView { selected_field: index, ..s };
    SessionView { message: field_message(moved), ..moved }
}

/// The note that a new note is.
pub open spec fn new_note() -> NoteView {
    NoteView {
        level: 1,
        status: None,
        title: "New Note"@,
        labels: Seq::empty(),
        content: Seq::empty(),
        children: Seq::empty(),
        planning: None,
        logbook: None,
    }
}

/// The session after a new note is appended: the new note is selected.
pub open spec fn added(s: SessionView) -> SessionView {
    let list = s.notes.push(new_note());
    let last = (forest_size(list) - 1) as usize;
    SessionView {
        notes: list,
        selected_note: last,
        list_selection: Some(last),
        modified: true,
        ..s
    }
}

/// The session after the selected note is removed. The selection stays
/// where it was, or goes to the last note where it would lie behind it.
/// An outline without notes stays as it is.
pub open spec fn deleted(s: SessionView) -> SessionView {
    if forest_size(s.notes) == 0 {
        s
    } else {
        let list = forest_without(s.notes, s.selected_note as nat);
        let size = forest_size(list);
        let index = if s.selected_note >= size && size > 0 {
            (size - 1) as usize
        } else {
            s.selected_note
        };
        SessionView {
            notes: list,
            selected_note: index,
            list_selection: if size == 0 {
                None
            } else {
                Some(index)
            },
            modified: true,
            ..s
        }
    }
}

/// Whether a stamp changes a note: stopping a clock changes one that has
/// a running entry, and every other stamp changes any.
pub open spec fn changes(note: NoteView, stamp: Stamp) -> bool {
    match stamp {
        Stamp::ClockOut => running_entry(note) is Some,
        _ => true,
    }
}

/// The session after `stamp` is made on the selected note at the moment
/// `m`. Nothing happens without a selected note, or where the note does
/// not admit the edit.
pub open spec fn stamped_session(s: SessionView, stamp: Stamp, m: MomentView) -> SessionView {
    match selected(s) {
        Some(note) => if admits(note, stamped(stamp, m)) {
            SessionView {
                notes: applied_at(s.notes, s.selected_note as nat, stamped(stamp, m)),
                modified: s.modified || changes(note, stamp),
                ..s
            }
        } else {
            s
        },
        None => s,
    }
}

/// The session after the edit of the selected field has begun.
pub open spec fn begun(s: SessionView) -> SessionView {
    match selected(s) {
        Some(note) => match edit_start(note, field_at(note, s.selected_field as nat)) {
            Some(start) => SessionView {
                mode: start.mode,
                buffer: start.buffer,
                message: start.message,
                ..s
            },
            None => s,
        },
        None => s,
    }
}

/// The session after the text that is edited is committed to its field:
/// nothing is edited any more, and the status line names the selected
/// field.
pub open spec fn committed(s: SessionView) -> SessionView {
    let done = SessionView {
        notes: applied_at(s.notes, s.selected_note as nat, EditView::Commit(s.mode, s.buffer)),
        modified: s.modified || selected(s) is Some,
        mode: EditMode::Idle,
        buffer: Seq::empty(),
        ..s
    };
    SessionView { message: field_message(done), ..done }
}

/// The number of fields that the selected note shows; none without a
/// selected note.
pub open spec fn field_count(s: SessionView) -> nat {
    match selected(s) {
        Some(note) => visible_fields(note).len(),
        None => 0,
    }
}

/// The session after a command that does not ask for the present moment.
pub open spec fn performed(s: SessionView, command: Command) -> SessionView {
    match command {
        Command::ToggleFocus => SessionView {
            focus: match s.focus {
                Focus::Left => Focus::Right,
                Focus::Right => Focus::Left,
            },
            ..s
        },
        Command::AddNote => added(s),
        Command::DeleteNote => deleted(s),
        Command::NoteUp => if s.selected_note > 0 {
            with_note(s, (s.selected_note - 1) as usize)
        } else {
            s
        },
        Command::NoteDown => if s.selected_note + 1 < forest_size(s.notes) {
            with_note(s, (s.selected_note + 1) as usize)
        } else {
            s
        },
        Command::FieldUp => if s.selected_field > 0 {
            with_field(s, (s.selected_field - 1) as usize)
        } else {
            s
        },
        Command::FieldDown => if s.selected_field + 1 < field_count(s) {
            with_field(s, (s.selected_field + 1) as usize)
        } else {
            s
        },
        Command::BeginEdit => begun(s),
        Command::Type(c) => SessionView { buffer: s.buffer.push(c), ..s },
        Command::Erase => SessionView {
            buffer: if s.buffer.len() > 0 {
                s.buffer.drop_last()
            } else {
                s.buffer
            },
            ..s
        },
        Command::Commit => committed(s),
        _ => s,
    }
}

/// The session after a command, where the present moment is `m`.
pub open spec fn performed_at(s: SessionView, command: Command, m: MomentView) -> SessionView {
    match command {
        Command::Stamp(stamp) => stamped_session(s, stamp, m),
        _ => performed(s, command),
    }
}

/// What the program has to do after a command.
pub open spec fn action_of(command: Command) -> Action {
    match command {
        Command::Quit => Action::Quit,
        Command::Save => Action::Save,
        _ => Action::Continue,
    }
}

/// The command that a key stands for.
pub fn key_command(mode: EditMode, focus: Focus, press: KeyPress) -> (command: Command)
    ensures
        command == command_for(mode, focus, press),
{
    if mode == EditMode::Idle {
        match (press.key, press.modifiers) {
            (Key::Char('q'), Modifiers::Plain) => Command::Quit,
            (Key::Tab, Modifiers::Plain) => Command::ToggleFocus,
            (Key::Char('s'), Modifiers::Control) => Command::Save,
            (Key::Char('n'), Modifiers::Plain) => Command::AddNote,
            (Key::Delete, Modifiers::Plain) => Command::DeleteNote,
            (Key::Char('i'), Modifiers::Plain) => Command::Stamp(Stamp::ClockIn),
            (Key::Char('o'), Modifiers::Plain) => Command::Stamp(Stamp::ClockOut),
            (Key::Char('k'), Modifiers::Plain) => Command::Stamp(
                Stamp::Plan(PlanningRole::Scheduled),
            ),
            (Key::Char('l'), Modifiers::Plain) => Command::Stamp(
                Stamp::Plan(PlanningRole::Deadline),
            ),
            (Key::Char('='), Modifiers::Plain) => Command::Nothing,
            (key, _) => match focus {
                Focus::Left => match key {
                    Key::Up => Command::NoteUp,
                    Key::Down => Command::NoteDown,
                    _ => Command::Nothing,
                },
                Focus::Right => match key {
                    Key::Up => Command::FieldUp,
                    Key::Down => Command::FieldDown,
                    Key::Enter => Command::BeginEdit,
                    _ => Command::Nothing,
                },
            },
        }
    } else {
        match press.key {
            Key::Enter => if mode == EditMode::Content {
                Command::Type('\n')
            } else {
                Command::Commit
            },
            Key::Esc => Command::Commit,
            Key::Char(c) => Command::Type(c),
            Key::Backspace => Command::Erase,
            _ => Command::Nothing,
        }
    }
}

impl Session {
    /// A session over the notes `list` that were read from `file_path`: the first
    /// note is selected, the outline has the focus, and nothing is edited.
    pub fn new(list: Vec<OrgNote>, file_path: String) -> (session: Self)
        ensures
            session@ == (SessionView {
                notes: notes(list@),
                selected_note: 0,
                selected_field: 0,
                focus: Focus::Left,
                mode: EditMode::Idle,
                buffer: Seq::empty(),
                list_selection: if forest_size(notes(list@)) > 0 {
                    Some(0usize)
                } else {
                    None
                },
                file_path: file_path@,
                modified: false,
                message: "Press Tab to switch panels, Enter to edit, q to quit"@,
            }),
    {
        let list_selection = if note_count(&list) > 0 {
            Some(0)
        } else {
            None
        };
        Session {
            notes: list,
            selected_note_idx: 0,
            selected_field_idx: 0,
            focus: Focus::Left,
            edit_mode: EditMode::Idle,
            edit_buffer: String::new(),
            list_selection,
            file_path,
            modified: false,
            status_message: string_of(
                &chars_of("Press Tab to switch panels, Enter to edit, q to quit"),
            ),
        }
    }

    /// The selected note, if the outline has one at the selected position.
    pub fn get_selected_note(&self) -> (r: Option<&OrgNote>)
        ensures
            opt_note_ref(r) == selected(self@),
    {
        find_note_by_flat_index(&self.notes, self.selected_note_idx)
    }

    /// The rows that show the outline.
    pub fn rows(&self) -> (flat: Vec<(usize, String)>)
        ensures
            flat.len() == forest_size(self@.notes),
            forall|i: int|
                0 <= i < flat.len() ==> (#[trigger] flat[i]).0 == i && flat[i].1@ == forest_rows(
                    self@.notes,
                    0,
                )[i],
    {
        proof {
            lemma_rows_count(self@.notes, 0);
        }
        flatten_notes(&self.notes)
    }

    /// Notes that the outline was written to its file.
    pub fn mark_saved(&mut self)
        ensures
            final(self)@ == (SessionView { modified: false, ..old(self)@ }),
    {
        self.modified = false;
    }

    fn name_field(&mut self)
        ensures
            final(self)@ == (SessionView { message: field_message(old(self)@), ..old(self)@ }),
    {
        let message = match find_note_by_flat_index(&self.notes, self.selected_note_idx) {
            Some(note) => get_field_name_at_index(note, self.selected_field_idx),
            None => string_of(&chars_of("Unknown field")),
        };
        self.status_message = message;
    }

    fn select_note(&mut self, index: usize)
        ensures
            final(self)@ == with_note(old(self)@, index),
    {
        self.selected_note_idx = index;
        self.list_selection = Some(index);
        self.selected_field_idx = 0;
        self.name_field();
    }

    fn select_field(&mut self, index: usize)
        ensures
            final(self)@ == with_field(old(self)@, index),
    {
        self.selected_field_idx = index;
        self.name_field();
    }

    fn add(&mut self)
        ensures
            final(self)@ == added(old(self)@),
            all_well_formed(old(self)@.notes) ==> all_well_formed(final(self)@.notes),
    {
        proof {
            lemma_forest_size_push(self@.notes, new_note());
        }
        add_note(&mut self.notes);
        let last = note_count(&self.notes) - 1;
        self.selected_note_idx = last;
        self.list_selection = Some(last);
        self.modified = true;
    }

    fn delete(&mut self)
        ensures
            final(self)@ == deleted(old(self)@),
            all_well_formed(old(self)@.notes) ==> all_well_formed(final(self)@.notes),
    {
        if note_count(&self.notes) > 0 {
            remove_note_by_flat_index(&mut self.notes, self.selected_note_idx);
            let size = note_count(&self.notes);
            if self.selected_note_idx >= size && size > 0 {
                self.selected_note_idx = size - 1;
            }
            self.list_selection = if size == 0 {
                None
            } else {
                Some(self.selected_note_idx)
            };
            self.modified = true;
        }
    }

    /// Makes `stamp` on the selected note at the moment `now`.
    pub fn stamp_at(&mut self, stamp: Stamp, now: &Moment)
        ensures
            final(self)@ == stamped_session(old(self)@, stamp, now@),
            all_well_formed(old(self)@.notes) ==> all_well_formed(final(self)@.notes),
    {
        let changed = match find_note_by_flat_index(&self.notes, self.selected_note_idx) {
            Some(note) => match stamp {
                Stamp::ClockOut => has_running_entry(note),
                _ => true,
            },
            None => false,
        };
        proof {
            lemma_note_in_forest(self@.notes, self.selected_note_idx as nat);
        }
        if apply_stamp(&mut self.notes, self.selected_note_idx, stamp, now) {
            if changed {
                self.modified = true;
            }
        }
    }

    fn begin_edit(&mut self)
        ensures
            final(self)@ == begun(old(self)@),
    {
        let start = match find_note_by_flat_index(&self.notes, self.selected_note_idx) {
            Some(note) => start_editing(note, self.selected_field_idx),
            None => None,
        };
        match start {
            Some(start) => {
                self.edit_mode = start.mode;
                self.edit_buffer = start.buffer;
                self.status_message = start.message;
            },
            None => {},
        }
    }

    fn erase(&mut self)
        ensures
            final(self)@ == performed(old(self)@, Command::Erase),
    {
        let mut text = chars_of(self.edit_buffer.as_str());
        if text.len() > 0 {
            text.pop();
            self.edit_buffer = string_of(&text);
        }
    }

    fn type_char(&mut self, c: char)
        ensures
            final(self)@ == performed(old(self)@, Command::Type(c)),
    {
        let mut text = chars_of(self.edit_buffer.as_str());
        text.push(c);
        self.edit_buffer = string_of(&text);
    }

    fn commit(&mut self)
        ensures
            final(self)@ == committed(old(self)@),
            all_well_formed(old(self)@.notes) ==> all_well_formed(final(self)@.notes),
    {
        proof {
            lemma_note_in_forest(self@.notes, self.selected_note_idx as nat);
        }
        let mode = self.edit_mode;
        let text = self.edit_buffer.clone();
        if apply_at(&mut self.notes, self.selected_note_idx, &Edit::Commit(mode, text.as_str())) {
            self.modified = true;
        }
        self.edit_mode = EditMode::Idle;
        self.edit_buffer = String::new();
        self.name_field();
    }

    /// Performs a command that does not ask for the present moment.
    fn perform_plain(&mut self, command: Command)
        requires
            !(command is Stamp),
        ensures
            final(self)@ == performed(old(self)@, command),
            all_well_formed(old(self)@.notes) ==> all_well_formed(final(self)@.notes),
    {
        match command {
            Command::ToggleFocus => {
                self.focus = match self.focus {
                    Focus::Left => Focus::Right,
                    Focus::Right => Focus::Left,
                };
            },
            Command::AddNote => {
                self.add();
            },
            Command::DeleteNote => {
                self.delete();
            },
            Command::NoteUp => {
                if self.selected_note_idx > 0 {
                    let index = self.selected_note_idx - 1;
                    self.select_note(index);
                }
            },
            Command::NoteDown => {
                let size = note_count(&self.notes);
                if self.selected_note_idx < size && self.selected_note_idx + 1 < size {
                    let index = self.selected_note_idx + 1;
                    self.select_note(index);
                }
            },
            Command::FieldUp => {
                if self.selected_field_idx > 0 {
                    let index = self.selected_field_idx - 1;
                    self.select_field(index);
                }
            },
            Command::FieldDown => {
                let count = match find_note_by_flat_index(&self.notes, self.selected_note_idx) {
                    Some(note) => count_visible_fields(note),
                    None => 0,
                };
                if self.selected_field_idx < count && self.selected_field_idx + 1 < count {
                    let index = self.selected_field_idx + 1;
                    self.select_field(index);
                }
            },
            Command::BeginEdit => {
                self.begin_edit();
            },
            Command::Type(c) => {
                self.type_char(c);
            },
            Command::Erase => {
                self.erase();
            },
            Command::Commit => {
                self.commit();
            },
            _ => {},
        }
    }

    /// Performs a command and tells what the program has to do next. A
    /// stamp is made at the present moment of the machine's clock.
    pub fn perform(&mut self, command: Command) -> (action: Action)
        ensures
            action == action_of(command),
            exists|m: MomentView|
                is_clock_reading(m) && final(self)@ == #[trigger] performed_at(
                    old(self)@,
                    command,
                    m,
                ),
            all_well_formed(old(self)@.notes) ==> all_well_formed(final(self)@.notes),
    {
        match command {
            Command::Stamp(stamp) => {
                let now = local_now();
                self.stamp_at(stamp, &now);
                assert(performed_at(old(self)@, command, now@) == self@);
            },
            _ => {
                self.perform_plain(command);
                let ghost m = MomentView {
                    year: 0,
                    month: 1,
                    day: 1,
                    hour: 0,
                    minute: 0,
                    day_name: Seq::empty(),
                };
                assert(is_clock_reading(m));
                assert(performed_at(old(self)@, command, m) == self@);
            },
        }
        match command {
            Command::Quit => Action::Quit,
            Command::Save => Action::Save,
            _ => Action::Continue,
        }
    }
}

/// The value of the note that a reference leads to, if there is one.
pub open spec fn opt_note_ref(r: Option<&OrgNote>) -> Option<NoteView> {
    match r {
        Some(note) => Some(note@),
        None => None,
    }
}

} // verus!
