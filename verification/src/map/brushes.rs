//! The grammar of the brushes section.
//!
//! The section is read line by line. A blank line and a `//` comment line
//! mean nothing at the top level. A line that holds only `b` opens a brush,
//! and the planes of the brush follow it. A plane is three or more vertex
//! lines closed by a blank line; a comment may stand before any vertex
//! line. The brush ends before the first line, after one of its planes,
//! that neither starts a vertex nor is a comment: that line is read at the
//! top level again. Only the brush starter `b` is defined; the format has no
//! subtractive brushes.

use vstd::prelude::*;
use crate::brush::vertices_view;
use crate::map::data::{brushes_view, planes_view, BrushData, PlaneData};
use crate::map::error::{Failure, Malformed, ParseError, ParseErrorContext, Truncated};
use crate::map::lines::{
    comment_at,
    find_line_end,
    is_comment,
    lemma_line_end,
    lemma_suffix_line,
    line_end,
    read_until_after_newline,
};
use crate::map::section::read_section_and_alloc_with_leftovers;
use crate::map::vertices::{parse_vertex, spec_vertex};
use crate::vertex::{is_sign, Vertex, VertexView};

verus! {

/// One brush, read off the front of the input.
pub struct BrushParse {
    /// The planes of the brush.
    pub planes: Seq<Seq<VertexView>>,
    /// The input that follows the brush.
    pub rest: Seq<u8>,
    /// The line on which `rest` starts.
    pub line: nat,
}

/// Reads the planes of one brush from `rest`, which starts on line `line`,
/// with the closed planes `planes` and the vertices `verts` of the open
/// plane already read. No vertices mean that no plane is open.
pub open spec fn spec_planes(
    rest: Seq<u8>,
    line: nat,
    planes: Seq<Seq<VertexView>>,
    verts: Seq<VertexView>,
) -> Result<BrushParse, Failure>
    decreases rest.len(),
{
    let end = line_end(rest, 0);
    let terminated = end < rest.len();
    if comment_at(rest, 0) {
        if terminated {
            proof {
                lemma_line_end(rest, 0);
            }
            spec_planes(rest.skip(end + 1), line + 1, planes, verts)
        } else {
            Err(Failure::UnexpectedEOF(line, Truncated::Until { byte: 0x0a }))
        }
    } else if verts.len() == 0 && !(rest.len() > 0 && is_sign(rest[0])) {
        if planes.len() > 0 {
            Ok(BrushParse { planes, rest, line })
        } else if rest.len() == 0 {
            Err(Failure::UnexpectedEOF(line, Truncated::Brush))
        } else {
            Err(Failure::BadInput(line, Malformed::Sign { found: rest[0] }))
        }
    } else if rest.len() == 0 {
        Err(Failure::UnexpectedEOF(line, Truncated::Plane))
    } else if verts.len() > 0 && rest[0] == 0x0a {
        if verts.len() < 3 {
            Err(Failure::BadInput(line, Malformed::TooFewVertices { count: verts.len() as usize }))
        } else {
            spec_planes(rest.skip(1), line + 1, planes.push(verts), Seq::empty())
        }
    } else {
        match spec_vertex(rest.take(end), terminated) {
            Err(fault) => Err(fault.on_line(line)),
            Ok(vertex) => if terminated {
                proof {
                    lemma_line_end(rest, 0);
                }
                spec_planes(rest.skip(end + 1), line + 1, planes, verts.push(vertex))
            } else {
                Err(Failure::UnexpectedEOF(line, Truncated::Vertex))
            },
        }
    }
}

/// Reads one brush from `rest`, which starts, on line `line`, after the
/// line that opened the brush.
pub open spec fn spec_brush(rest: Seq<u8>, line: nat) -> Result<BrushParse, Failure> {
    spec_planes(rest, line, Seq::empty(), Seq::empty())
}

/// What follows a brush is the end of the input it was read from.
pub proof fn lemma_planes_rest(
    rest: Seq<u8>,
    line: nat,
    planes: Seq<Seq<VertexView>>,
    verts: Seq<VertexView>,
)
    ensures
        spec_planes(rest, line, planes, verts) matches Ok(parse) ==> parse.rest.len() <= rest.len()
            && parse.rest == rest.skip(rest.len() - parse.rest.len()) && parse.line - line
            <= rest.len() - parse.rest.len(),
    decreases rest.len(),
{
    let end = line_end(rest, 0);
    let terminated = end < rest.len();
    lemma_line_end(rest, 0);
    if comment_at(rest, 0) {
        if terminated {
            lemma_planes_rest(rest.skip(end + 1), line + 1, planes, verts);
            lemma_rest_of_rest(
                rest,
                end + 1,
                spec_planes(rest.skip(end + 1), line + 1, planes, verts),
            );
        }
    } else if verts.len() == 0 && !(rest.len() > 0 && is_sign(rest[0])) {
        assert(rest.skip(0) =~= rest);
    } else if rest.len() == 0 {
    } else if verts.len() > 0 && rest[0] == 0x0a {
        if verts.len() >= 3 {
            lemma_planes_rest(rest.skip(1), line + 1, planes.push(verts), Seq::empty());
            lemma_rest_of_rest(
                rest,
                1,
                spec_planes(rest.skip(1), line + 1, planes.push(verts), Seq::empty()),
            );
        }
    } else {
        match spec_vertex(rest.take(end), terminated) {
            Ok(vertex) => {
                if terminated {
                    lemma_planes_rest(rest.skip(end + 1), line + 1, planes, verts.push(vertex));
                    lemma_rest_of_rest(
                        rest,
                        end + 1,
                        spec_planes(rest.skip(end + 1), line + 1, planes, verts.push(vertex)),
                    );
                }
            },
            Err(_) => {},
        }
    }
}

/// The end of a part of the input is that end of the input.
proof fn lemma_rest_of_rest(rest: Seq<u8>, cut: int, result: Result<BrushParse, Failure>)
    requires
        0 <= cut <= rest.len(),
        result matches Ok(parse) ==> parse.rest.len() <= rest.skip(cut).len() && parse.rest
            == rest.skip(cut).skip(rest.skip(cut).len() - parse.rest.len()),
    ensures
        result matches Ok(parse) ==> parse.rest == rest.skip(rest.len() - parse.rest.len()),
{
    match result {
        Ok(parse) => {
            assert(rest.skip(cut).skip(rest.skip(cut).len() - parse.rest.len()) =~= rest.skip(
                rest.len() - parse.rest.len(),
            ));
        },
        Err(_) => {},
    }
}

/// Reads the brushes section `rest`, which starts on line `line`, with the
/// brushes `brushes` already read. Gives all brushes and the line on which
/// the section ends.
pub open spec fn spec_brushes(rest: Seq<u8>, line: nat, brushes: Seq<Seq<Seq<VertexView>>>) -> Result<
    (Seq<Seq<Seq<VertexView>>>, nat),
    Failure,
>
    decreases rest.len(),
{
    let end = line_end(rest, 0);
    if rest.len() == 0 {
        Ok((brushes, line))
    } else if rest[0] == 0x0a {
        spec_brushes(rest.skip(1), line + 1, brushes)
    } else if comment_at(rest, 0) {
        if end < rest.len() {
            proof {
                lemma_line_end(rest, 0);
            }
            spec_brushes(rest.skip(end + 1), line + 1, brushes)
        } else {
            Err(Failure::UnexpectedEOF(line, Truncated::Until { byte: 0x0a }))
        }
    } else if rest[0] != 0x62 {
        Err(Failure::BadInput(line, Malformed::BrushStart { found: rest[0] }))
    } else if rest.len() == 1 {
        Err(Failure::UnexpectedEOF(line, Truncated::BrushStart))
    } else if rest[1] != 0x0a {
        Err(Failure::BadInput(line, Malformed::BrushNewline { found: rest[1] }))
    } else {
        match spec_brush(rest.skip(2), line + 1) {
            Err(failure) => Err(failure),
            Ok(parse) => {
                proof {
                    lemma_planes_rest(rest.skip(2), line + 1, Seq::empty(), Seq::empty());
                }
                spec_brushes(parse.rest, parse.line, brushes.push(parse.planes))
            },
        }
    }
}

/// Reads the body of the brushes section, `size` bytes, off the front of
/// `all`, the bytes at hand, with the body starting on line `line`. Gives
/// the brushes, the bytes after the body and the line on which the body ends.
pub open spec fn spec_brush_section(all: Seq<u8>, size: nat, line: nat) -> Result<
    (Seq<Seq<Seq<VertexView>>>, Seq<u8>, nat),
    Failure,
> {
    if all.len() < size {
        Err(Failure::UnexpectedEOF(line, Truncated::SectionBody))
    } else {
        match spec_brushes(all.take(size as int), line, Seq::empty()) {
            Err(failure) => Err(failure),
            Ok((brushes, end_line)) => Ok((brushes, all.skip(size as int), end_line)),
        }
    }
}

/// The body of a section is read off the front of the input: input past
/// it changes what follows the body, and nothing else.
pub proof fn lemma_brush_section_prefix(all: Seq<u8>, rest: Seq<u8>, size: nat, line: nat)
    requires
        all.len() <= rest.len(),
        all == rest.take(all.len() as int),
        all.len() >= size || rest.len() == all.len(),
    ensures
        spec_brush_section(rest, size, line) == match spec_brush_section(all, size, line) {
            Err(failure) => Err::<(Seq<Seq<Seq<VertexView>>>, Seq<u8>, nat), Failure>(failure),
            Ok((brushes, _, end_line)) => Ok((brushes, rest.skip(size as int), end_line)),
        },
{
    if all.len() < size {
        assert(rest =~= all);
    } else {
        assert(all.take(size as int) =~= rest.take(size as int));
    }
}

/// Reads one brush record off the front of `buf`, which starts after the
/// line that opened the brush.
///
/// Returns the brush and the number of bytes it takes up; the line count
/// moves to the line after them. The brush starter `b` stands for a
/// positive brush, the only kind that the format defines.
pub fn parse_brush_data(buf: &[u8], err_ctx: &mut ParseErrorContext, has_positive_sign: bool) -> (r:
    Result<(BrushData, usize), ParseError>)
    requires
        has_positive_sign,
        old(err_ctx).line_count + buf.len() <= usize::MAX,
    ensures
        match spec_brush(buf@, old(err_ctx).line_count as nat) {
            Ok(parse) => r matches Ok((brush, used)) && brush@ == parse.planes && used <= buf.len()
                && buf@.skip(used as int) == parse.rest && final(err_ctx).line_count == parse.line,
            Err(failure) => r matches Err(e) && e@ == failure && final(err_ctx).line_count
                == failure.line(),
        },
        final(err_ctx).line_count <= old(err_ctx).line_count + buf.len(),
{
    let len = buf.len();
    let ghost first_line = err_ctx.line_count as nat;
    let mut ptr: usize = 0;
    let mut planes: Vec<PlaneData> = Vec::new();
    let mut verts: Vec<Vertex> = Vec::new();
    proof {
        assert(buf@.skip(0) =~= buf@);
        assert(planes_view(planes@) =~= Seq::empty());
        assert(vertices_view(verts@) =~= Seq::empty());
    }
    loop
        invariant
            len == buf.len(),
            ptr <= len,
            err_ctx.line_count + (len - ptr) <= usize::MAX,
            spec_brush(buf@, first_line) == spec_planes(
                buf@.skip(ptr as int),
                err_ctx.line_count as nat,
                planes_view(planes@),
                vertices_view(verts@),
            ),
            first_line == old(err_ctx).line_count,
            err_ctx.line_count + (len - ptr) <= first_line + len,
        decreases len - ptr,
    {
        proof {
            lemma_suffix_line(buf@, ptr as int);
        }
        if is_comment(buf, ptr) {
            match read_until_after_newline(buf, err_ctx, &mut ptr) {
                Ok(()) => {},
                Err(e) => {
                    return Err(e);
                },
            }
            continue ;
        }
        if verts.len() == 0 && !(ptr < len && (buf[ptr] == 0x2b || buf[ptr] == 0x2d)) {
            if planes.len() > 0 {
                return Ok((BrushData { planes }, ptr));
            } else if ptr >= len {
                return Err(err_ctx.unexpected_eof(Truncated::Brush));
            } else {
                return Err(err_ctx.bad_input(Malformed::Sign { found: buf[ptr] }));
            }
        }
        if ptr >= len {
            return Err(err_ctx.unexpected_eof(Truncated::Plane));
        }
        if verts.len() > 0 && buf[ptr] == 0x0a {
            let count = verts.len();
            let ghost closed = vertices_view(verts@);
            match PlaneData::new(verts) {
                Some(plane) => {
                    proof {
                        assert(planes_view(planes@.push(plane)) =~= planes_view(planes@).push(
                            closed,
                        ));
                    }
                    planes.push(plane);
                },
                None => {
                    return Err(err_ctx.bad_input(Malformed::TooFewVertices { count }));
                },
            }
            verts = Vec::new();
            proof {
                assert(vertices_view(verts@) =~= Seq::empty());
            }
            ptr += 1;
            err_ctx.line_count += 1;
            continue ;
        }
        let end = find_line_end(buf, ptr);
        let terminated = end < len;
        match parse_vertex(vstd::slice::slice_subrange(buf, ptr, end), terminated) {
            Err(fault) => {
                return Err(err_ctx.fault(fault));
            },
            Ok(vertex) => {
                if !terminated {
                    return Err(err_ctx.unexpected_eof(Truncated::Vertex));
                }
                proof {
                    assert(vertices_view(verts@.push(vertex)) =~= vertices_view(verts@).push(
                        vertex@,
                    ));
                }
                verts.push(vertex);
                ptr = end + 1;
                err_ctx.line_count += 1;
            },
        }
    }
}

/// Reads the brushes section, whose body has `size` bytes, from the bytes
/// at hand: `leftover_bytes`, read ahead of the section, and after them
/// `fresh`, read for it.
///
/// Returns the brushes and the bytes that follow the body. The body is
/// exactly `size` bytes long, whatever it holds: a byte past it is never
/// read as part of a brush.
pub fn parse_brushes_save_leftovers(
    err_ctx: &mut ParseErrorContext,
    size: usize,
    leftover_bytes: &[u8],
    fresh: &[u8],
) -> (r: Result<(Vec<BrushData>, Vec<u8>), ParseError>)
    requires
        old(err_ctx).line_count + size <= usize::MAX,
    ensures
        match spec_brush_section(
            leftover_bytes@ + fresh@,
            size as nat,
            old(err_ctx).line_count as nat,
        ) {
            Ok((brushes, rest, line)) => r matches Ok((parsed, leftover)) && brushes_view(parsed@)
                == brushes && leftover@ == rest && final(err_ctx).line_count == line && line
                <= old(err_ctx).line_count + size,
            Err(failure) => r matches Err(e) && e@ == failure && final(err_ctx).line_count
                == failure.line(),
        },
        final(err_ctx).line_count <= old(err_ctx).line_count + size,
{
    // All the bytes in the brushes section.
    let (section, ret_leftover) = match read_section_and_alloc_with_leftovers(
        err_ctx,
        size,
        leftover_bytes,
        fresh,
    ) {
        Ok(parts) => parts,
        Err(e) => {
            return Err(e);
        },
    };
    let buf = section.as_slice();
    let len = buf.len();
    let ghost first_line = err_ctx.line_count as nat;
    let mut ptr: usize = 0;
    let mut brushes: Vec<BrushData> = Vec::new();
    proof {
        assert(buf@.skip(0) =~= buf@);
        assert(brushes_view(brushes@) =~= Seq::empty());
    }
    loop
        invariant
            len == buf.len(),
            ptr <= len,
            err_ctx.line_count + (len - ptr) <= usize::MAX,
            spec_brushes(buf@, first_line, Seq::empty()) == spec_brushes(
                buf@.skip(ptr as int),
                err_ctx.line_count as nat,
                brushes_view(brushes@),
            ),
            first_line == old(err_ctx).line_count,
            err_ctx.line_count + (len - ptr) <= first_line + len,
            (leftover_bytes@ + fresh@).len() >= size,
            buf@ == (leftover_bytes@ + fresh@).take(size as int),
            ret_leftover@ == (leftover_bytes@ + fresh@).skip(size as int),
        decreases len - ptr,
    {
        proof {
            lemma_suffix_line(buf@, ptr as int);
        }
        if ptr >= len {
            return Ok((brushes, ret_leftover));
        }
        let byte = buf[ptr];
        if byte == 0x0a {
            // we're at a new line, skip to parsable byte
            ptr += 1;
            err_ctx.line_count += 1;
            continue ;
        }
        if is_comment(buf, ptr) {
            match read_until_after_newline(buf, err_ctx, &mut ptr) {
                Ok(()) => {},
                Err(e) => {
                    return Err(e);
                },
            }
            continue ;
        }
        if byte != 0x62 {
            return Err(err_ctx.bad_input(Malformed::BrushStart { found: byte }));
        }
        if len - ptr == 1 {
            return Err(err_ctx.unexpected_eof(Truncated::BrushStart));
        }
        if buf[ptr + 1] != 0x0a {
            return Err(err_ctx.bad_input(Malformed::BrushNewline { found: buf[ptr + 1] }));
        }
        // skip 'b', '\n'
        ptr += 2;
        err_ctx.line_count += 1;
        proof {
            assert(buf@.skip(ptr - 2).skip(2) =~= buf@.skip(ptr as int));
            assert(buf@.subrange(ptr as int, len as int) =~= buf@.skip(ptr as int));
        }
        let ghost brush_line = err_ctx.line_count as nat;
        let (brush_data, offset) = match parse_brush_data(
            vstd::slice::slice_subrange(buf, ptr, len),
            err_ctx,
            true,
        ) {
            Ok(brush) => brush,
            Err(e) => {
                return Err(e);
            },
        };
        proof {
            assert(buf@.skip(ptr as int).skip(offset as int) =~= buf@.skip(ptr + offset));
            assert(brushes_view(brushes@.push(brush_data)) =~= brushes_view(brushes@).push(
                brush_data@,
            ));
            lemma_planes_rest(buf@.skip(ptr as int), brush_line, Seq::empty(), Seq::empty());
        }
        brushes.push(brush_data);
        ptr += offset;
    }
}

} // verus!
