//! An outline document is read into a tree of notes: headings with a status
//! keyword, a title and tags, their planning timestamps, their clock log
//! and their text. The tree can be edited and written back as text.
//!
//! Every function is verified against a mathematical statement of what it
//! returns, over the characters of the text and the values of the notes.
//!
//! - [`text`] and [`number`] hold the primitives: whitespace, trimming,
//!   words, lines, searching, and decimal numbers.
//! - [`heading`], [`timestamp`], [`clock`] and [`body`] state the grammar of
//!   the parts of a note; [`parser`] states the outline and reads it, and
//!   [`serializer`] writes it.
//! - [`outline`], [`editor`], [`fields`], [`now`], [`session`] and [`stats`]
//!   are the editor's side: positions in the outline, edits of a note, the
//!   fields it shows, the commands of a session, and a summary.
//! - [`heading_laws`], [`nesting_laws`], [`roundtrip`] and [`parsed`] hold
//!   the laws: a written heading reads back as itself, a note is made of
//!   the lines of its own section, and an outline that is read, written
//!   and read again is the outline that was read the first time.
//! - [`unicode`] and the clock reading in [`now`] are what is taken on
//!   trust.

pub mod body;
pub mod clock;
pub mod editor;
pub mod fields;
pub mod heading;
pub mod heading_laws;
pub mod line_laws;
pub mod model;
pub mod nesting_laws;
pub mod now;
pub mod number;
pub mod outline;
pub mod parsed;
pub mod parser;
pub mod roundtrip;
pub mod serializer;
pub mod session;
pub mod stats;
pub mod text;
pub mod text_laws;
pub mod timestamp;
pub mod unicode;

pub use model::{OrgClockEntry, OrgLogbook, OrgNote, OrgPlanning, OrgTimestamp};
pub use parser::{parse_timestamp_from_text, OrgParser};
pub use serializer::{serialize_note, serialize_to_org_format};
