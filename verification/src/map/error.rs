//! The errors a map parse can end in, and the line counter they are stamped with.

use vstd::prelude::*;

verus! {

/// `std::io::Error`, the I/O error of the standard library: nothing is
/// known of what is inside one. It is carried through unchanged when a
/// read fails.
#[verifier::external_type_specification]
#[verifier::external_body]
pub struct ExIoError(std::io::Error);

/// The two kinds of section a map file holds.
#[derive(Clone, Copy, Debug, PartialEq, Eq, Structural)]
pub enum SectionKind {
    /// The brushes section, tagged `B`.
    Brushes,
    /// The entities section, tagged `E`.
    Entities,
}

/// Why a byte of the input violates the grammar.
#[derive(Clone, Copy, Debug, PartialEq, Eq, Structural)]
pub enum Malformed {
    /// A section header does not begin with `.`.
    SectionStart { found: u8 },
    /// The section type is neither `B` nor `E`.
    SectionType { found: u8 },
    /// A section of this kind was already declared.
    DuplicateSection { kind: SectionKind },
    /// The section type is not followed by a single space.
    SectionSpace { found: u8 },
    /// The section length holds a byte that is neither a digit nor the closing newline.
    SectionDigit { found: u8 },
    /// The section length has no digits.
    SectionLengthMissing,
    /// The section length is larger than `MAX_SECTION_LEN`.
    SectionTooLarge,
    /// Input remains after both sections.
    TrailingData { found: u8 },
    /// A non-empty entities section: the format defines no entity grammar yet.
    EntitiesUnsupported,
    /// A line of the brushes section starts with a byte that opens no brush.
    BrushStart { found: u8 },
    /// The brush starter `b` is not directly followed by a newline.
    BrushNewline { found: u8 },
    /// A vertex field does not begin with `+` or `-`.
    Sign { found: u8 },
    /// A vertex field holds a byte that cannot continue its numeral.
    Numeral { found: u8 },
    /// A complete numeral is followed by the wrong one of space and newline.
    Separator { found: u8 },
    /// A plane was closed with fewer than three vertices.
    TooFewVertices { count: usize },
}

impl Malformed {
    /// What is wrong, in words.
    pub open spec fn describe_spec(self) -> Seq<char> {
        match self {
            Malformed::SectionStart { .. } => "expected section starter '.'"@,
            Malformed::SectionType { .. } => "expected a valid section type, 'B' or 'E'"@,
            Malformed::DuplicateSection { kind: SectionKind::Brushes } =>
                "brushes section declared multiple times"@,
            Malformed::DuplicateSection { kind: SectionKind::Entities } =>
                "entities section declared multiple times"@,
            Malformed::SectionSpace { .. } => "expected a space after the section type"@,
            Malformed::SectionDigit { .. } => "expected digit in section header size part"@,
            Malformed::SectionLengthMissing => "expected a size in the section header"@,
            Malformed::SectionTooLarge => "section is too large"@,
            Malformed::TrailingData { .. } => "expected the end of the file after both sections"@,
            Malformed::EntitiesUnsupported =>
                "entities are not defined yet: the entities section has to be empty"@,
            Malformed::BrushStart { .. } => "byte was not brush data starter 'b'"@,
            Malformed::BrushNewline { .. } => "expected a newline after the brush data starter"@,
            Malformed::Sign { .. } =>
                "expected positive or negative sign to begin vertex number set part"@,
            Malformed::Numeral { .. } => "expected parsable float values"@,
            Malformed::Separator { .. } =>
                "expected 3 numbers per vertex, with single spaces between them"@,
            Malformed::TooFewVertices { .. } => "vertices count too small! expected 3 or more"@,
        }
    }

    /// What is wrong, in words.
    pub fn describe(&self) -> (text: &'static str)
        ensures
            text@ == self.describe_spec(),
    {
        match self {
            Malformed::SectionStart { .. } => "expected section starter '.'",
            Malformed::SectionType { .. } => "expected a valid section type, 'B' or 'E'",
            Malformed::DuplicateSection { kind: SectionKind::Brushes } => {
                "brushes section declared multiple times"
            },
            Malformed::DuplicateSection { kind: SectionKind::Entities } => {
                "entities section declared multiple times"
            },
            Malformed::SectionSpace { .. } => "expected a space after the section type",
            Malformed::SectionDigit { .. } => "expected digit in section header size part",
            Malformed::SectionLengthMissing => "expected a size in the section header",
            Malformed::SectionTooLarge => "section is too large",
            Malformed::TrailingData { .. } => "expected the end of the file after both sections",
            Malformed::EntitiesUnsupported => {
                "entities are not defined yet: the entities section has to be empty"
            },
            Malformed::BrushStart { .. } => "byte was not brush data starter 'b'",
            Malformed::BrushNewline { .. } => "expected a newline after the brush data starter",
            Malformed::Sign { .. } => {
                "expected positive or negative sign to begin vertex number set part"
            },
            Malformed::Numeral { .. } => "expected parsable float values",
            Malformed::Separator { .. } => {
                "expected 3 numbers per vertex, with single spaces between them"
            },
            Malformed::TooFewVertices { .. } => "vertices count too small! expected 3 or more",
        }
    }

    /// The byte that is wrong, where it is one byte.
    pub fn found(&self) -> (found: Option<u8>)
        ensures
            found == match *self {
                Malformed::SectionStart { found } => Some(found),
                Malformed::SectionType { found } => Some(found),
                Malformed::SectionSpace { found } => Some(found),
                Malformed::SectionDigit { found } => Some(found),
                Malformed::TrailingData { found } => Some(found),
                Malformed::BrushStart { found } => Some(found),
                Malformed::BrushNewline { found } => Some(found),
                Malformed::Sign { found } => Some(found),
                Malformed::Numeral { found } => Some(found),
                Malformed::Separator { found } => Some(found),
                _ => None,
            },
    {
        match *self {
            Malformed::SectionStart { found } => Some(found),
            Malformed::SectionType { found } => Some(found),
            Malformed::SectionSpace { found } => Some(found),
            Malformed::SectionDigit { found } => Some(found),
            Malformed::TrailingData { found } => Some(found),
            Malformed::BrushStart { found } => Some(found),
            Malformed::BrushNewline { found } => Some(found),
            Malformed::Sign { found } => Some(found),
            Malformed::Numeral { found } => Some(found),
            Malformed::Separator { found } => Some(found),
            _ => None,
        }
    }
}

/// What the parser was reading when the input ended.
#[derive(Clone, Copy, Debug, PartialEq, Eq, Structural)]
pub enum Truncated {
    /// The magic header.
    MagicHeader,
    /// A section header.
    SectionHeader,
    /// The body of a section.
    SectionBody,
    /// The run up to the given byte; for the newline, a comment or a line.
    Until { byte: u8 },
    /// The newline after the brush starter.
    BrushStart,
    /// The first plane of a brush.
    Brush,
    /// A plane, which a blank line closes.
    Plane,
    /// A vertex line.
    Vertex,
}

impl Truncated {
    /// What was being read, in words.
    pub open spec fn describe_spec(self) -> Seq<char> {
        match self {
            Truncated::MagicHeader => "the magic header"@,
            Truncated::SectionHeader => "a section header"@,
            Truncated::SectionBody => "a section as long as its header declares"@,
            Truncated::Until { .. } => "a line, up to its newline"@,
            Truncated::BrushStart => "the newline after the brush data starter"@,
            Truncated::Brush => "the first plane of a brush"@,
            Truncated::Plane => "the blank line that ends a plane"@,
            Truncated::Vertex => "a vertex: 3 numbers must be specified per vertex"@,
        }
    }

    /// What was being read, in words.
    pub fn describe(&self) -> (text: &'static str)
        ensures
            text@ == self.describe_spec(),
    {
        match self {
            Truncated::MagicHeader => "the magic header",
            Truncated::SectionHeader => "a section header",
            Truncated::SectionBody => "a section as long as its header declares",
            Truncated::Until { .. } => "a line, up to its newline",
            Truncated::BrushStart => "the newline after the brush data starter",
            Truncated::Brush => "the first plane of a brush",
            Truncated::Plane => "the blank line that ends a plane",
            Truncated::Vertex => "a vertex: 3 numbers must be specified per vertex",
        }
    }
}

/// A grammar violation or a premature end, before a line number is attached.
#[derive(Clone, Copy, Debug, PartialEq, Eq, Structural)]
pub enum Fault {
    /// The input is malformed.
    Malformed(Malformed),
    /// The input ended early.
    Truncated(Truncated),
}

/// The failure of a parse.
#[derive(Debug)]
pub enum ParseError {
    /// The stream could not be read.
    ReadError(std::io::Error),
    /// The first bytes of the stream, given here, are not the magic header.
    BadHeader(Vec<u8>),
    /// The input breaks the grammar on the given line.
    BadInput(usize, Malformed),
    /// The input ended on the given line while more was required.
    UnexpectedEOF(usize, Truncated),
}

/// The failure of a parse as a mathematical value.
pub enum Failure {
    /// The stream could not be read.
    Read,
    /// The first bytes of the stream are not the magic header.
    BadHeader(Seq<u8>),
    /// The input breaks the grammar on the given line.
    BadInput(nat, Malformed),
    /// The input ended on the given line while more was required.
    UnexpectedEOF(nat, Truncated),
}

impl Failure {
    /// The line that the failure is reported on: the first line for a bad
    /// magic header, and none, written as zero, for a failed read.
    pub open spec fn line(self) -> nat {
        match self {
            Failure::Read => 0,
            Failure::BadHeader(_) => 1,
            Failure::BadInput(line, _) => line,
            Failure::UnexpectedEOF(line, _) => line,
        }
    }
}

impl Fault {
    /// The failure this fault is on the given line.
    pub open spec fn on_line(self, line: nat) -> Failure {
        match self {
            Fault::Malformed(m) => Failure::BadInput(line, m),
            Fault::Truncated(t) => Failure::UnexpectedEOF(line, t),
        }
    }
}

impl View for ParseError {
    type V = Failure;

    open spec fn view(&self) -> Failure {
        match *self {
            ParseError::ReadError(_) => Failure::Read,
            ParseError::BadHeader(bytes) => Failure::BadHeader(bytes@),
            ParseError::BadInput(line, m) => Failure::BadInput(line as nat, m),
            ParseError::UnexpectedEOF(line, t) => Failure::UnexpectedEOF(line as nat, t),
        }
    }
}

/// Controls the line count value saved for outputting errors.
pub struct ParseErrorContext {
    pub line_count: usize,
}

impl ParseErrorContext {
    /// A context that stands on the given line.
    pub fn with_lines(line_count: usize) -> (ctx: Self)
        ensures
            ctx.line_count == line_count,
    {
        Self { line_count }
    }

    /// The error for malformed input on the current line.
    pub fn bad_input(&self, err: Malformed) -> (e: ParseError)
        ensures
            e == ParseError::BadInput(self.line_count, err),
    {
        ParseError::BadInput(self.line_count, err)
    }

    /// The error for input that ended on the current line.
    pub fn unexpected_eof(&self, err: Truncated) -> (e: ParseError)
        ensures
            e == ParseError::UnexpectedEOF(self.line_count, err),
    {
        ParseError::UnexpectedEOF(self.line_count, err)
    }

    /// The error for a failed read; it carries no line.
    pub fn io_err(&self, err: std::io::Error) -> (e: ParseError)
        ensures
            e == ParseError::ReadError(err),
    {
        ParseError::ReadError(err)
    }

    /// The error for a fault on the current line.
    pub fn fault(&self, fault: Fault) -> (e: ParseError)
        ensures
            e@ == fault.on_line(self.line_count as nat),
    {
        match fault {
            Fault::Malformed(m) => self.bad_input(m),
            Fault::Truncated(t) => self.unexpected_eof(t),
        }
    }
}

} // verus!
