//! The editing engine of a modal terminal text editor.
//!
//! The text of a file is held as a sequence of characters and split into lines; users select
//! parts of it with filters (`#` selects lines, `/` selects matches of a regular expression),
//! place a cursor mark on each selected section and edit all marks at once.  Everything that
//! touches the terminal or the file system lives outside this crate: the functions here
//! compute the text, the cursors and the edits that a user interface has to draw.
pub mod adjustment;
pub mod change_mode;
pub mod convert;
pub mod filter;
pub mod laws;
pub mod line_number;
pub mod number;
pub mod paper;
pub mod place;
pub mod search;
pub mod text;
pub mod ui;
pub mod update;
pub mod utf8;
pub mod view;
