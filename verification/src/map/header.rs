//! The magic header of a map file, and the headers of its sections.

use vstd::prelude::*;
use crate::map::error::{Failure, Fault, Malformed, ParseError, SectionKind, Truncated};
use crate::vertex::{decimal, digits_len, is_digit, lemma_digits_len, read_decimal, scan_digits};

verus! {

/// The length of the magic header.
pub const FILE_HEADER_LEN: usize = 11;

/// The magic header: the bytes of `1113be_map`, and a newline.
pub const FILE_HEADER: [u8; 11] = [
    0x31, 0x31, 0x31, 0x33, 0x62, 0x65, 0x5f, 0x6d, 0x61, 0x70, 0x0a,
];

/// The length of the shortest section header, such as `.B 0` and a newline.
pub const MIN_SECTION_HEADER_LEN: usize = 5;

/// The length of the window in which a section header has to end: the
/// type, the space, the twenty digits of the largest 64-bit length and the
/// newline.
pub const MAX_SECTION_HEADER_LEN: usize = 24;

/// The largest length that a section may declare. The body of a section
/// is held in memory whole, so a header that asks for more is refused
/// before any of the body is read.
pub const MAX_SECTION_LEN: usize = 0x7fff_ffff;

/// Checks the magic header against `input`, the bytes that the start of
/// the stream gave when eleven were asked for.
pub open spec fn spec_check_header(input: Seq<u8>) -> Result<(), Failure> {
    if input.len() < FILE_HEADER_LEN {
        Err(Failure::UnexpectedEOF(1, Truncated::MagicHeader))
    } else if input.take(FILE_HEADER_LEN as int) != FILE_HEADER@ {
        Err(Failure::BadHeader(input.take(FILE_HEADER_LEN as int)))
    } else {
        Ok(())
    }
}

/// Checks that `input`, the bytes that the start of the stream gave when
/// eleven were asked for, is the magic header.
///
/// Bytes of `input` past the eleventh are not looked at.
pub fn check_header_valid(input: &[u8]) -> (r: Result<(), ParseError>)
    ensures
        match spec_check_header(input@) {
            Ok(_) => r is Ok,
            Err(failure) => r matches Err(e) && e@ == failure,
        },
{
    if input.len() < FILE_HEADER_LEN {
        return Err(ParseError::UnexpectedEOF(1, Truncated::MagicHeader));
    }
    let mut i: usize = 0;
    let mut same = true;
    let mut actual: Vec<u8> = Vec::new();
    while i < FILE_HEADER_LEN
        invariant
            i <= FILE_HEADER_LEN <= input.len(),
            actual@ == input@.take(i as int),
            same == (forall|j: int| 0 <= j < i ==> input@[j] == FILE_HEADER@[j]),
        decreases FILE_HEADER_LEN - i,
    {
        proof {
            assert(input@.take(i + 1) =~= input@.take(i as int).push(input@[i as int]));
        }
        if input[i] != FILE_HEADER[i] {
            same = false;
        }
        actual.push(input[i]);
        i += 1;
    }
    proof {
        let head = input@.take(FILE_HEADER_LEN as int);
        if same {
            assert(head =~= FILE_HEADER@);
        } else {
            let j = choose|j: int| 0 <= j < FILE_HEADER_LEN && input@[j] != FILE_HEADER@[j];
            assert(head[j] != FILE_HEADER@[j]);
        }
    }
    if same {
        Ok(())
    } else {
        Err(ParseError::BadHeader(actual))
    }
}

/// What a section header declares.
#[derive(Clone, Copy, Debug, PartialEq, Eq, Structural)]
pub struct SectionHeader {
    /// The kind of the section.
    pub kind: SectionKind,
    /// The length of the body of the section, in bytes.
    pub size: usize,
    /// The length of the header itself, its newline included.
    pub len: usize,
}

/// Reads the section header at the front of `window`, the first bytes, up
/// to `MAX_SECTION_HEADER_LEN` of them, of what follows the previous
/// section. `seen_brushes` and `seen_entities` say which sections were
/// declared before.
pub open spec fn spec_section_header(window: Seq<u8>, seen_brushes: bool, seen_entities: bool) -> Result<
    SectionHeader,
    Fault,
> {
    let digits_end = 3 + digits_len(window, 3) as int;
    let size = decimal(window.subrange(3, digits_end));
    if window.len() < MIN_SECTION_HEADER_LEN {
        Err(Fault::Truncated(Truncated::SectionHeader))
    } else if window[0] != 0x2e {
        Err(Fault::Malformed(Malformed::SectionStart { found: window[0] }))
    } else if window[1] != 0x42 && window[1] != 0x45 {
        Err(Fault::Malformed(Malformed::SectionType { found: window[1] }))
    } else if window[1] == 0x42 && seen_brushes {
        Err(Fault::Malformed(Malformed::DuplicateSection { kind: SectionKind::Brushes }))
    } else if window[1] == 0x45 && seen_entities {
        Err(Fault::Malformed(Malformed::DuplicateSection { kind: SectionKind::Entities }))
    } else if window[2] != 0x20 {
        Err(Fault::Malformed(Malformed::SectionSpace { found: window[2] }))
    } else if digits_end >= window.len() {
        Err(Fault::Truncated(Truncated::SectionHeader))
    } else if window[digits_end] != 0x0a {
        Err(Fault::Malformed(Malformed::SectionDigit { found: window[digits_end] }))
    } else if digits_end == 3 {
        Err(Fault::Malformed(Malformed::SectionLengthMissing))
    } else if size > MAX_SECTION_LEN {
        Err(Fault::Malformed(Malformed::SectionTooLarge))
    } else {
        Ok(
            SectionHeader {
                kind: if window[1] == 0x42 {
                    SectionKind::Brushes
                } else {
                    SectionKind::Entities
                },
                size: size as usize,
                len: (digits_end + 1) as usize,
            },
        )
    }
}

/// The window in which the section header at the front of `rest` has to end.
pub open spec fn header_window(rest: Seq<u8>) -> Seq<u8> {
    if rest.len() > MAX_SECTION_HEADER_LEN {
        rest.take(MAX_SECTION_HEADER_LEN as int)
    } else {
        rest
    }
}

/// Reads the number that the digits of `window` from index `from` up to
/// index `to` spell, unless it is larger than `MAX_SECTION_LEN`.
fn parse_decimal(window: &[u8], from: usize, to: usize) -> (value: Option<usize>)
    requires
        from <= to <= window.len(),
        forall|i: int| from <= i < to ==> is_digit(#[trigger] window@[i]),
    ensures
        match value {
            Some(n) => n == decimal(window@.subrange(from as int, to as int)),
            None => decimal(window@.subrange(from as int, to as int)) > MAX_SECTION_LEN,
        },
        value matches Some(n) ==> n <= MAX_SECTION_LEN,
{
    proof {
        assert(Seq::<u8>::empty() + window@.subrange(from as int, to as int) =~= window@.subrange(
            from as int,
            to as int,
        ));
    }
    match read_decimal(0, window, from, to, Ghost(Seq::empty())) {
        Some(value) => if value <= MAX_SECTION_LEN as u64 {
            Some(value as usize)
        } else {
            None
        },
        None => None,
    }
}

/// Reads the section header at the front of `window`.
///
/// `window` holds the bytes that follow the previous section: those read
/// ahead and those read to fill it up to `MAX_SECTION_HEADER_LEN`. Bytes
/// of `window` past that length are not looked at.
pub fn parse_section_header(window: &[u8], seen_brushes: bool, seen_entities: bool) -> (r: Result<
    SectionHeader,
    Fault,
>)
    ensures
        r == spec_section_header(header_window(window@), seen_brushes, seen_entities),
        r matches Ok(header) ==> MIN_SECTION_HEADER_LEN <= header.len <= window.len() && header.len
            <= MAX_SECTION_HEADER_LEN && header.size <= MAX_SECTION_LEN,
{
    let window = if window.len() > MAX_SECTION_HEADER_LEN {
        vstd::slice::slice_subrange(window, 0, MAX_SECTION_HEADER_LEN)
    } else {
        window
    };
    if window.len() < MIN_SECTION_HEADER_LEN {
        return Err(Fault::Truncated(Truncated::SectionHeader));
    }
    if window[0] != 0x2e {
        return Err(Fault::Malformed(Malformed::SectionStart { found: window[0] }));
    }
    let kind = match window[1] {
        0x45 => {
            if seen_entities {
                return Err(
                    Fault::Malformed(Malformed::DuplicateSection { kind: SectionKind::Entities }),
                );
            }
            SectionKind::Entities
        },
        0x42 => {
            if seen_brushes {
                return Err(
                    Fault::Malformed(Malformed::DuplicateSection { kind: SectionKind::Brushes }),
                );
            }
            SectionKind::Brushes
        },
        other => {
            return Err(Fault::Malformed(Malformed::SectionType { found: other }));
        },
    };
    if window[2] != 0x20 {
        return Err(Fault::Malformed(Malformed::SectionSpace { found: window[2] }));
    }
    let digits_end = scan_digits(window, 3);
    proof {
        lemma_digits_len(window@, 3);
    }
    if digits_end >= window.len() {
        return Err(Fault::Truncated(Truncated::SectionHeader));
    }
    if window[digits_end] != 0x0a {
        return Err(Fault::Malformed(Malformed::SectionDigit { found: window[digits_end] }));
    }
    if digits_end == 3 {
        return Err(Fault::Malformed(Malformed::SectionLengthMissing));
    }
    match parse_decimal(window, 3, digits_end) {
        None => Err(Fault::Malformed(Malformed::SectionTooLarge)),
        Some(size) => Ok(SectionHeader { kind, size, len: digits_end + 1 }),
    }
}

} // verus!
