//! Vertex lines: three signed numerals, separated by single spaces.

use vstd::prelude::*;
use crate::map::error::{Fault, Malformed, Truncated};
use crate::vertex::{
    digits_len,
    is_numeral,
    is_sign,
    lemma_digits_len,
    scan_digits,
    Number,
    Vertex,
    VertexView,
};

verus! {

/// The byte at index `i` of a line: its text, then the newline that ends it.
/// A line that the end of the input cut short has no byte past its text.
pub open spec fn line_byte(text: Seq<u8>, terminated: bool, i: int) -> Option<u8> {
    if 0 <= i < text.len() {
        Some(text[i])
    } else if terminated {
        Some(0x0au8)
    } else {
        None
    }
}

/// The fault of a numeral that cannot go on at index `i`.
pub open spec fn spec_stuck(text: Seq<u8>, terminated: bool, i: int) -> Fault {
    match line_byte(text, terminated, i) {
        None => Fault::Truncated(Truncated::Vertex),
        Some(found) => Fault::Malformed(Malformed::Numeral { found }),
    }
}

/// What follows a complete numeral that ends at `end`: a space after the
/// first two fields of a vertex, the end of the line after the last.
pub open spec fn spec_field_end(text: Seq<u8>, terminated: bool, end: int, last: bool) -> Result<
    int,
    Fault,
> {
    match line_byte(text, terminated, end) {
        None => Err(Fault::Truncated(Truncated::Vertex)),
        Some(found) => if last && end == text.len() {
            Ok(end)
        } else if !last && found == 0x20 {
            Ok(end)
        } else if found == 0x20 || found == 0x0a {
            Err(Fault::Malformed(Malformed::Separator { found }))
        } else {
            Err(Fault::Malformed(Malformed::Numeral { found }))
        },
    }
}

/// The field that starts at index `from` of a line: the index at which its
/// numeral ends, or the fault that stops it.
pub open spec fn spec_field(text: Seq<u8>, terminated: bool, from: int, last: bool) -> Result<
    int,
    Fault,
> {
    let whole = from + 1;
    let whole_end = whole + digits_len(text, whole);
    let fraction = whole_end + 1;
    let fraction_end = fraction + digits_len(text, fraction);
    match line_byte(text, terminated, from) {
        None => Err(Fault::Truncated(Truncated::Vertex)),
        Some(found) => if !is_sign(found) {
            Err(Fault::Malformed(Malformed::Sign { found }))
        } else if whole_end == whole {
            Err(spec_stuck(text, terminated, whole))
        } else if line_byte(text, terminated, whole_end) != Some(0x2eu8) {
            spec_field_end(text, terminated, whole_end, last)
        } else if fraction_end == fraction {
            Err(spec_stuck(text, terminated, fraction))
        } else {
            spec_field_end(text, terminated, fraction_end, last)
        },
    }
}

/// The vertex that a line spells, or the fault that stops it.
pub open spec fn spec_vertex(text: Seq<u8>, terminated: bool) -> Result<VertexView, Fault> {
    match spec_field(text, terminated, 0, false) {
        Err(fault) => Err(fault),
        Ok(x_end) => match spec_field(text, terminated, x_end + 1, false) {
            Err(fault) => Err(fault),
            Ok(y_end) => match spec_field(text, terminated, y_end + 1, true) {
                Err(fault) => Err(fault),
                Ok(z_end) => Ok(
                    VertexView {
                        x: text.subrange(0, x_end),
                        y: text.subrange(x_end + 1, y_end),
                        z: text.subrange(y_end + 1, z_end),
                    },
                ),
            },
        },
    }
}

/// A run of digits counted inside a part of `t` is the run in `t`, cut where the part ends.
pub proof fn lemma_digits_len_of_subrange(t: Seq<u8>, a: int, b: int, k: int)
    requires
        0 <= a <= k <= b <= t.len(),
    ensures
        digits_len(t.subrange(a, b), k - a) == if k + digits_len(t, k) <= b {
            digits_len(t, k)
        } else {
            (b - k) as nat
        },
    decreases b - k,
{
    if k < b {
        assert(t.subrange(a, b)[k - a] == t[k]);
        lemma_digits_len_of_subrange(t, a, b, k + 1);
    }
}

/// A field that parses spans a numeral, inside the line.
pub proof fn lemma_field_is_numeral(text: Seq<u8>, terminated: bool, from: int, last: bool)
    requires
        0 <= from <= text.len(),
        spec_field(text, terminated, from, last) is Ok,
    ensures
        from < spec_field(text, terminated, from, last)->Ok_0 <= text.len(),
        !last ==> spec_field(text, terminated, from, last)->Ok_0 < text.len(),
        is_numeral(text.subrange(from, spec_field(text, terminated, from, last)->Ok_0)),
{
    let end = spec_field(text, terminated, from, last)->Ok_0;
    let whole = from + 1;
    let whole_end = whole + digits_len(text, whole);
    let fraction = whole_end + 1;
    let part = text.subrange(from, end);
    lemma_digits_len(text, whole);
    assert(part[0] == text[from]);
    lemma_digits_len_of_subrange(text, from, end, whole);
    if line_byte(text, terminated, whole_end) == Some(0x2eu8) {
        assert(whole_end < text.len()) by {
            if whole_end >= text.len() {
                assert(line_byte(text, terminated, whole_end) != Some(0x2eu8));
            }
        }
        lemma_digits_len(text, fraction);
        lemma_digits_len_of_subrange(text, from, end, fraction);
        assert(part[1 + digits_len(part, 1) as int] == text[whole_end]);
    }
}

/// The coordinates of a vertex that parses are numerals.
pub proof fn lemma_vertex_well_formed(text: Seq<u8>, terminated: bool)
    ensures
        spec_vertex(text, terminated) matches Ok(vertex) ==> vertex.well_formed(),
{
    if spec_field(text, terminated, 0, false) is Ok {
        let x_end = spec_field(text, terminated, 0, false)->Ok_0;
        lemma_field_is_numeral(text, terminated, 0, false);
        if spec_field(text, terminated, x_end + 1, false) is Ok {
            let y_end = spec_field(text, terminated, x_end + 1, false)->Ok_0;
            lemma_field_is_numeral(text, terminated, x_end + 1, false);
            if spec_field(text, terminated, y_end + 1, true) is Ok {
                lemma_field_is_numeral(text, terminated, y_end + 1, true);
            }
        }
    }
}

/// Reads the field that starts at index `from` of a line.
///
/// Returns the numeral and the index at which it ends.
pub fn parse_field(line: &[u8], terminated: bool, from: usize, last: bool) -> (r: Result<
    (Number, usize),
    Fault,
>)
    requires
        from <= line.len(),
    ensures
        match spec_field(line@, terminated, from as int, last) {
            Ok(end) => r matches Ok((number, stop)) && stop == end && number@
                == line@.subrange(from as int, end),
            Err(fault) => r == Err::<(Number, usize), Fault>(fault),
        },
        r matches Ok((_, stop)) ==> from < stop <= line.len() && (!last ==> stop < line.len()),
{
    let len = line.len();
    if from == len && !terminated {
        return Err(Fault::Truncated(Truncated::Vertex));
    }
    let sign = peek(line, from);
    if !(sign == 0x2b || sign == 0x2d) {
        return Err(Fault::Malformed(Malformed::Sign { found: sign }));
    }
    let whole = from + 1;
    let whole_end = scan_digits(line, whole);
    if whole_end == whole {
        return Err(stuck(line, terminated, whole));
    }
    let mut end = whole_end;
    if whole_end < len && line[whole_end] == 0x2e {
        let fraction = whole_end + 1;
        let fraction_end = scan_digits(line, fraction);
        if fraction_end == fraction {
            return Err(stuck(line, terminated, fraction));
        }
        end = fraction_end;
    }
    if end == len && !terminated {
        return Err(Fault::Truncated(Truncated::Vertex));
    }
    let found = peek(line, end);
    if (last && end == len) || (!last && found == 0x20) {
        proof {
            lemma_field_is_numeral(line@, terminated, from as int, last);
        }
        let number = Number::from_numeral(vstd::slice::slice_subrange(line, from, end));
        Ok((number, end))
    } else if found == 0x20 || found == 0x0a {
        Err(Fault::Malformed(Malformed::Separator { found }))
    } else {
        Err(Fault::Malformed(Malformed::Numeral { found }))
    }
}

/// The byte at index `i` of a line that a newline ends.
fn peek(line: &[u8], i: usize) -> (b: u8)
    ensures
        Some(b) == line_byte(line@, true, i as int),
{
    if i < line.len() {
        line[i]
    } else {
        0x0a
    }
}

/// The fault of a numeral that cannot go on at index `i`.
fn stuck(line: &[u8], terminated: bool, i: usize) -> (fault: Fault)
    ensures
        fault == spec_stuck(line@, terminated, i as int),
{
    if i >= line.len() && !terminated {
        Fault::Truncated(Truncated::Vertex)
    } else {
        Fault::Malformed(Malformed::Numeral { found: peek(line, i) })
    }
}

/// Reads a vertex line.
///
/// `line` is the text of the line without its newline; `terminated` says
/// whether a newline ends it, or the end of the input.
pub fn parse_vertex(line: &[u8], terminated: bool) -> (r: Result<Vertex, Fault>)
    ensures
        match spec_vertex(line@, terminated) {
            Ok(vertex) => r matches Ok(v) && v@ == vertex && vertex.well_formed(),
            Err(fault) => r == Err::<Vertex, Fault>(fault),
        },
{
    let (x, x_end) = match parse_field(line, terminated, 0, false) {
        Ok(field) => field,
        Err(fault) => { return Err(fault); },
    };
    proof {
        lemma_field_is_numeral(line@, terminated, 0, false);
    }
    let (y, y_end) = match parse_field(line, terminated, x_end + 1, false) {
        Ok(field) => field,
        Err(fault) => { return Err(fault); },
    };
    proof {
        lemma_field_is_numeral(line@, terminated, x_end + 1, false);
    }
    let (z, _z_end) = match parse_field(line, terminated, y_end + 1, true) {
        Ok(field) => field,
        Err(fault) => { return Err(fault); },
    };
    proof {
        lemma_field_is_numeral(line@, terminated, y_end + 1, true);
    }
    Ok(Vertex { x, y, z })
}

} // verus!
