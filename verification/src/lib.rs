//! Locating a named structure in a source file and splicing new text into
//! it.
//!
//! A document is a text, handled as bytes, and a syntax tree over it. The
//! library finds the first structure of a given name ([`locator`]), widens
//! its span over the attribute and the documentation above it ([`extent`]),
//! finds the anchors of edits that insert ([`anchor`]), and makes the edited
//! text ([`splice`]), leaving every byte outside the affected region as it
//! was. A revision session ([`session`]) strings these together into
//! attempts that a generator fills and a validator judges, with a bound on
//! the number of attempts and the original text restored on every failure.
//!
//! The syntax tree comes from tree-sitter ([`parser`]); responses and
//! PowerShell scripts are read with regular expressions ([`payload`]).

pub mod anchor;
pub mod extent;
pub mod language;
pub mod lines;
pub mod locator;
pub mod parser;
pub mod payload;
pub mod primes;
pub mod prompt;
pub mod search;
pub mod session;
pub mod splice;
pub mod text;
pub mod tree;
