//! Recovers a student's enrolment plan, transfer credits and per-semester
//! coursework from the text-drawing operations of a paged transcript.
//!
//! The document has no schema. Its structure is read off the order and the
//! grouping of what each page draws, with a few recurring artefacts of the
//! layout as signals: the footer banner of every page, the cell that a page
//! break leaves behind, the labels that begin a section, and the number of
//! columns of a row. Where the layout does not hold, extraction stops with an
//! error; nothing is guessed.
//!
//! The stages, each in a module of its own, feed strictly forward:
//!
//! 1. [`grouper`] cuts the operations of a page into text blocks and turns
//!    each block into a [`chunk::Chunk`];
//! 2. [`chunk`] brings each tree into compact form;
//! 3. [`combine`] cuts the footers off and makes one document of the pages;
//! 4. [`section`] finds the sections of the document by their labels;
//! 5. [`transfer`] and [`semester`] read the records of their sections, over
//!    the rows of [`row`] and the vocabularies of [`vocab`];
//! 6. [`student`] puts the record of the student together, and
//!    [`extract`] runs the stages from pages to record;
//! 7. [`export`] lays the record out as a long table.
//!
//! Every function is proved against a mathematical statement of what it
//! returns. Two things are taken on trust and named instead of stated: which
//! characters are whitespace ([`text::is_white_space`]), and which text the
//! bytes of a string stand for under an encoding
//! ([`grouper::decoded_text`]).

pub mod chunk;
pub mod combine;
pub mod error;
pub mod export;
pub mod extract;
pub mod grouper;
pub mod record;
pub mod row;
pub mod section;
pub mod semester;
pub mod student;
pub mod text;
pub mod transfer;
pub mod vocab;
