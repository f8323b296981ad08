//! The map file format: its data model, its grammar and its parsers.
//!
//! A map file is text with byte-counted sections:
//!
//! ```text
//! 1113be_map
//! .B <length>
//! <the brushes section, exactly <length> bytes>
//! .E <length>
//! <the entities section, exactly <length> bytes>
//! ```
//!
//! The first line is the magic header. A section header is `.`, the
//! letter of the section, one space, the length of the body in decimal
//! digits and a newline. The two sections come in either order, each
//! once, and the file ends with the second. The length counts bytes, not
//! lines: the body is cut out by its length first and read afterwards.
//!
//! The brushes section is read line by line:
//!
//! ```text
//! section := (blank-line | comment-line | brush)*
//! brush   := 'b' '\n' plane+
//! plane   := (comment-line* vertex){3,} comment-line* '\n'
//! vertex  := field ' ' field ' ' field '\n'
//! field   := sign digit+ ('.' digit+)?
//! sign    := '+' | '-'
//! comment-line := '//' <any bytes but the newline> '\n'
//! ```
//!
//! Comment lines may also stand between the planes of a brush. The
//! entities section has no grammar yet and has to be empty.
//!
//! Coordinates are kept as the numerals they are written as; turning
//! them into floats is left to the user of the map.

pub mod brushes;
pub mod data;
pub mod error;
pub mod header;
pub mod laws;
pub mod lines;
pub mod parser;
pub mod section;
pub mod text;
pub mod vertices;
