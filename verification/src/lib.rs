//! A verified model of an editable multi-line text field, with the small
//! pieces of a markdown note editor around it.
//!
//! Offsets into the content count UTF-8 bytes. [`utf16`] converts them to and
//! from the UTF-16 offsets of an input method, [`boundary`] finds the cursor
//! stops between grapheme clusters, [`lines`] splits the content at its
//! newlines and moves a cursor from line to line, [`content`] cuts and
//! splices, and [`selection`] keeps a range with its direction. [`input`]
//! holds the field itself; [`model`] says what each of its operations makes
//! of a field, and [`hit_test`] and [`geometry`] place a pointer on the last
//! layout. [`heading`], [`text`] and [`file_node`] serve the note editor.

pub mod boundary;
pub mod content;
pub mod file_node;
pub mod geometry;
pub mod heading;
pub mod input;
pub mod lines;
pub mod model;
pub mod selection;
pub mod text;
pub mod utf16;
