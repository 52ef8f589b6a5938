//! A parser for four-voice tonic sol-fa scores written as plain text.
//!
//! The text of a score is turned into a typed document tree: a header of
//! free-form metadata and a sequence of staves, each with four synchronised
//! voices, optional dynamics and optional verse lyrics per voice.
//!
//! * [`ast`] holds the document tree and its mathematical views, [`header`]
//!   the ordered mapping of the metadata.
//! * [`input`] holds the cursor that the parsers read from and the error
//!   that they report; [`chars`] holds the character classes.
//! * [`grammar`] says what it means for a rule to match. The rules
//!   themselves are specification functions over a sequence of characters:
//!   [`voice`] for pitches and rhythm, [`dynamics`], [`lyrics`],
//!   [`metadata`], and [`score`] for a staff and a whole document.
//! * [`parser`] holds the executable parsers, each proved to compute
//!   exactly what its rule says.
//! * [`laws`] holds properties of the notation that are proved from the
//!   rules.
pub mod ast;
pub mod chars;
pub mod dynamics;
pub mod grammar;
pub mod header;
pub mod input;
pub mod laws;
pub mod lyrics;
pub mod metadata;
pub mod parser;
pub mod score;
pub mod voice;
