//! What holds of every parse.

use vstd::prelude::*;
use crate::map::brushes::{
    lemma_planes_rest,
    spec_brush,
    spec_brush_section,
    spec_brushes,
    spec_planes,
    BrushParse,
};
use crate::map::data::{
    brush_well_formed,
    brushes_well_formed,
    plane_well_formed,
    EntityData,
    MapView,
};
use crate::map::error::{Failure, Fault, SectionKind, Truncated};
use crate::map::header::{
    header_window,
    spec_section_header,
    SectionHeader,
    FILE_HEADER,
    FILE_HEADER_LEN,
};
use crate::map::lines::{comment_at, lemma_line_end, lemma_line_end_unique, line_end};
use crate::map::parser::{missing_sections, spec_after_brushes, spec_parse_map, spec_sections};
use crate::map::vertices::{lemma_vertex_well_formed, spec_vertex};
use crate::vertex::{is_sign, VertexView};

verus! {

/// A brush that parses has a plane, and each of its planes three or more
/// vertices with numerals for coordinates, provided that the planes and
/// vertices read before have.
pub proof fn lemma_planes_well_formed(
    rest: Seq<u8>,
    line: nat,
    planes: Seq<Seq<VertexView>>,
    verts: Seq<VertexView>,
)
    requires
        forall|p: int| 0 <= p < planes.len() ==> plane_well_formed(#[trigger] planes[p]),
        forall|v: int| 0 <= v < verts.len() ==> (#[trigger] verts[v]).well_formed(),
    ensures
        spec_planes(rest, line, planes, verts) matches Ok(parse) ==> brush_well_formed(
            parse.planes,
        ),
    decreases rest.len(),
{
    let end = line_end(rest, 0);
    let terminated = end < rest.len();
    lemma_line_end(rest, 0);
    if comment_at(rest, 0) {
        if terminated {
            lemma_planes_well_formed(rest.skip(end + 1), line + 1, planes, verts);
        }
    } else if verts.len() == 0 && !(rest.len() > 0 && is_sign(rest[0])) {
    } else if rest.len() == 0 {
    } else if verts.len() > 0 && rest[0] == 0x0a {
        if verts.len() >= 3 {
            lemma_planes_well_formed(rest.skip(1), line + 1, planes.push(verts), Seq::empty());
        }
    } else {
        match spec_vertex(rest.take(end), terminated) {
            Ok(vertex) => {
                if terminated {
                    lemma_vertex_well_formed(rest.take(end), terminated);
                    lemma_planes_well_formed(
                        rest.skip(end + 1),
                        line + 1,
                        planes,
                        verts.push(vertex),
                    );
                }
            },
            Err(_) => {},
        }
    }
}

/// The brushes of a section that parses are well-formed, provided that
/// the brushes read before are.
pub proof fn lemma_brushes_well_formed(rest: Seq<u8>, line: nat, brushes: Seq<Seq<Seq<VertexView>>>)
    requires
        brushes_well_formed(brushes),
    ensures
        spec_brushes(rest, line, brushes) matches Ok((all, _)) ==> brushes_well_formed(all),
    decreases rest.len(),
{
    let end = line_end(rest, 0);
    lemma_line_end(rest, 0);
    if rest.len() == 0 {
    } else if rest[0] == 0x0a {
        lemma_brushes_well_formed(rest.skip(1), line + 1, brushes);
    } else if comment_at(rest, 0) {
        if end < rest.len() {
            lemma_brushes_well_formed(rest.skip(end + 1), line + 1, brushes);
        }
    } else if rest[0] == 0x62 && rest.len() > 1 && rest[1] == 0x0a {
        match spec_brush(rest.skip(2), line + 1) {
            Ok(parse) => {
                lemma_planes_well_formed(rest.skip(2), line + 1, Seq::empty(), Seq::empty());
                lemma_planes_rest(
                    rest.skip(2),
                    line + 1,
                    Seq::empty(),
                    Seq::empty(),
                );
                lemma_brushes_well_formed(parse.rest, parse.line, brushes.push(parse.planes));
            },
            Err(_) => {},
        }
    }
}

/// The map that the sections of an input hold is well-formed, provided
/// that the brushes read before are.
pub proof fn lemma_sections_well_formed(
    rest: Seq<u8>,
    line: nat,
    brushes: Option<Seq<Seq<Seq<VertexView>>>>,
    entities: Option<Seq<EntityData>>,
)
    requires
        brushes matches Some(read) ==> brushes_well_formed(read),
    ensures
        spec_sections(rest, line, brushes, entities) matches Ok(map) ==> map.well_formed(),
    decreases missing_sections(brushes, entities),
{
    reveal_with_fuel(spec_sections, 2);
    reveal_with_fuel(spec_after_brushes, 2);
    if !(brushes is Some && entities is Some) {
        match spec_section_header(header_window(rest), brushes is Some, entities is Some) {
            Ok(header) => {
                let body = rest.skip(header.len as int);
                match header.kind {
                    SectionKind::Entities => {
                        if header.size == 0 {
                            lemma_sections_well_formed(body, line + 1, brushes, Some(Seq::empty()));
                        }
                    },
                    SectionKind::Brushes => {
                        match spec_brush_section(body, header.size as nat, line + 1) {
                            Ok((read, after, end_line)) => {
                                lemma_brushes_well_formed(
                                    body.take(header.size as int),
                                    line + 1,
                                    Seq::empty(),
                                );
                                lemma_sections_well_formed(after, end_line, Some(read), entities);
                            },
                            Err(_) => {},
                        }
                    },
                }
            },
            Err(_) => {},
        }
    }
}

/// Every map that parses is well-formed: each of its brushes has a plane,
/// each plane three or more vertices, and each vertex numerals for
/// coordinates.
pub proof fn lemma_parsed_map_well_formed(s: Seq<u8>)
    ensures
        spec_parse_map(s) matches Ok(map) ==> map.well_formed(),
{
    reveal(spec_parse_map);
    lemma_sections_well_formed(s.skip(FILE_HEADER_LEN as int), 2, None, None);
}

/// An input that is shorter than the magic header ends early, on the
/// first line. An input that starts with other bytes than the magic
/// header has a bad header: the bytes it starts with.
pub proof fn lemma_magic_header_checked(s: Seq<u8>)
    ensures
        s.len() < FILE_HEADER_LEN ==> spec_parse_map(s) == Err::<MapView, Failure>(
            Failure::UnexpectedEOF(1, Truncated::MagicHeader),
        ),
        s.len() >= FILE_HEADER_LEN && s.take(FILE_HEADER_LEN as int) != FILE_HEADER@
            ==> spec_parse_map(s) == Err::<MapView, Failure>(
            Failure::BadHeader(s.take(FILE_HEADER_LEN as int)),
        ),
        spec_parse_map(s) is Ok ==> s.len() >= FILE_HEADER_LEN && s.take(FILE_HEADER_LEN as int)
            == FILE_HEADER@,
{
    reveal(spec_parse_map);
}

/// The body of the brushes section is exactly as long as its header
/// declares, whatever it holds: the brushes are read from the body alone,
/// and what follows the body is read as the next section.
pub proof fn lemma_section_length_exact(
    rest: Seq<u8>,
    line: nat,
    entities: Option<Seq<EntityData>>,
    header: SectionHeader,
    body: Seq<u8>,
    tail: Seq<u8>,
)
    requires
        spec_section_header(header_window(rest), false, entities is Some) == Ok::<
            SectionHeader,
            Fault,
        >(header),
        header.kind == SectionKind::Brushes,
        header.len <= rest.len(),
        rest.skip(header.len as int) == body + tail,
        body.len() == header.size,
    ensures
        spec_sections(rest, line, None, entities) == match spec_brushes(
            body,
            line + 1,
            Seq::empty(),
        ) {
            Err(failure) => Err(failure),
            Ok((brushes, end_line)) => spec_sections(tail, end_line, Some(brushes), entities),
        },
{
    reveal_with_fuel(spec_sections, 2);
    reveal_with_fuel(spec_after_brushes, 2);
    assert((body + tail).take(header.size as int) =~= body);
    assert((body + tail).skip(header.size as int) =~= tail);
}

/// Whether `c` is a comment line: `//`, any bytes but the newline, and a newline.
pub open spec fn is_comment_line(c: Seq<u8>) -> bool {
    &&& c.len() >= 3
    &&& c[0] == 0x2f
    &&& c[1] == 0x2f
    &&& c[c.len() - 1] == 0x0a
    &&& forall|i: int| 0 <= i < c.len() - 1 ==> #[trigger] c[i] != 0x0a
}

/// Whether a line of `s` starts at index `p`: at the start of `s`, or
/// after a newline.
pub open spec fn line_start(s: Seq<u8>, p: int) -> bool {
    0 <= p <= s.len() && (p == 0 || s[p - 1] == 0x0a)
}

/// The input `s` with the line `c` put in at index `p`.
pub open spec fn with_line(s: Seq<u8>, p: int, c: Seq<u8>) -> Seq<u8> {
    s.take(p) + c + s.skip(p)
}

/// Whether the parse `later` of a brush is the parse `parse` with one
/// more line read: the same but for the line count after a success, and
/// a failure after a failure.
pub open spec fn brush_one_line_later(
    parse: Result<BrushParse, Failure>,
    later: Result<BrushParse, Failure>,
) -> bool {
    match parse {
        Ok(p) => later == Ok::<BrushParse, Failure>(
            BrushParse { planes: p.planes, rest: p.rest, line: p.line + 1 },
        ),
        Err(_) => later is Err,
    }
}

/// Whether the parse `later` of a section is the parse `parse` with one
/// more line read: the same but for the line count after a success, and
/// a failure after a failure.
pub open spec fn one_line_later(
    parse: Result<(Seq<Seq<Seq<VertexView>>>, nat), Failure>,
    later: Result<(Seq<Seq<Seq<VertexView>>>, nat), Failure>,
) -> bool {
    match parse {
        Ok((brushes, line)) => later == Ok::<(Seq<Seq<Seq<VertexView>>>, nat), Failure>(
            (brushes, line + 1),
        ),
        Err(_) => later is Err,
    }
}

/// The line on which a brush starts changes the line counts of its parse
/// and nothing else.
pub proof fn lemma_planes_line_shift(
    rest: Seq<u8>,
    line: nat,
    planes: Seq<Seq<VertexView>>,
    verts: Seq<VertexView>,
)
    ensures
        brush_one_line_later(
            spec_planes(rest, line, planes, verts),
            spec_planes(rest, line + 1, planes, verts),
        ),
    decreases rest.len(),
{
    let end = line_end(rest, 0);
    let terminated = end < rest.len();
    lemma_line_end(rest, 0);
    if comment_at(rest, 0) {
        if terminated {
            lemma_planes_line_shift(rest.skip(end + 1), line + 1, planes, verts);
        }
    } else if verts.len() == 0 && !(rest.len() > 0 && is_sign(rest[0])) {
    } else if rest.len() == 0 {
    } else if verts.len() > 0 && rest[0] == 0x0a {
        if verts.len() >= 3 {
            lemma_planes_line_shift(rest.skip(1), line + 1, planes.push(verts), Seq::empty());
        }
    } else {
        match spec_vertex(rest.take(end), terminated) {
            Ok(vertex) => {
                if terminated {
                    lemma_planes_line_shift(
                        rest.skip(end + 1),
                        line + 1,
                        planes,
                        verts.push(vertex),
                    );
                }
            },
            Err(_) => {},
        }
    }
}

/// The line on which a section starts changes the line counts of its
/// parse and nothing else.
pub proof fn lemma_brushes_line_shift(rest: Seq<u8>, line: nat, brushes: Seq<Seq<Seq<VertexView>>>)
    ensures
        one_line_later(spec_brushes(rest, line, brushes), spec_brushes(rest, line + 1, brushes)),
    decreases rest.len(),
{
    let end = line_end(rest, 0);
    lemma_line_end(rest, 0);
    if rest.len() == 0 {
    } else if rest[0] == 0x0a {
        lemma_brushes_line_shift(rest.skip(1), line + 1, brushes);
    } else if comment_at(rest, 0) {
        if end < rest.len() {
            lemma_brushes_line_shift(rest.skip(end + 1), line + 1, brushes);
        }
    } else if rest[0] == 0x62 && rest.len() > 1 && rest[1] == 0x0a {
        lemma_planes_line_shift(rest.skip(2), line + 1, Seq::empty(), Seq::empty());
        match spec_brush(rest.skip(2), line + 1) {
            Ok(parse) => {
                lemma_planes_rest(
                    rest.skip(2),
                    line + 1,
                    Seq::empty(),
                    Seq::empty(),
                );
                lemma_brushes_line_shift(parse.rest, parse.line, brushes.push(parse.planes));
            },
            Err(_) => {},
        }
    }
}

/// How an input with a comment line put in at the start of a later line
/// goes on after its first line: as the input itself does, with the
/// comment line put in where that line starts then.
pub proof fn lemma_first_line_kept(rest: Seq<u8>, p: int, c: Seq<u8>)
    requires
        is_comment_line(c),
        line_start(rest, p),
        p > 0,
    ensures
        line_end(rest, 0) < p,
        line_end(with_line(rest, p, c), 0) == line_end(rest, 0),
        with_line(rest, p, c).len() == rest.len() + c.len(),
        with_line(rest, p, c).take(line_end(rest, 0)) == rest.take(line_end(rest, 0)),
        with_line(rest, p, c).skip(line_end(rest, 0) + 1) == with_line(
            rest.skip(line_end(rest, 0) + 1),
            p - line_end(rest, 0) - 1,
            c,
        ),
        line_start(rest.skip(line_end(rest, 0) + 1), p - line_end(rest, 0) - 1),
        comment_at(with_line(rest, p, c), 0) == comment_at(rest, 0),
        with_line(rest, p, c)[0] == rest[0],
        p > 1 ==> with_line(rest, p, c)[1] == rest[1],
{
    let end = line_end(rest, 0);
    let longer = with_line(rest, p, c);
    lemma_line_end(rest, 0);
    assert(end < p) by {
        if end >= p {
            assert(rest[p - 1] != 0x0a);
        }
    }
    assert forall|i: int| 0 <= i < end implies #[trigger] longer[i] != 0x0a by {
        assert(longer[i] == rest[i]);
    }
    assert(longer[end] == rest[end]);
    lemma_line_end_unique(longer, 0, end);
    assert(longer.take(end) =~= rest.take(end));
    assert(longer.skip(end + 1) =~= with_line(rest.skip(end + 1), p - end - 1, c));
    if p - end - 1 > 0 {
        assert(rest.skip(end + 1)[p - end - 2] == rest[p - 1]);
    }
    if p == 1 {
        assert(rest[0] == 0x0a);
    } else {
        assert(longer[1] == rest[1]);
    }
}

/// How an input with a comment line put in at its start goes on after
/// that line: as the input itself.
pub proof fn lemma_first_line_added(rest: Seq<u8>, c: Seq<u8>)
    requires
        is_comment_line(c),
    ensures
        comment_at(with_line(rest, 0, c), 0),
        with_line(rest, 0, c).len() > 0,
        with_line(rest, 0, c)[0] == 0x2f,
        line_end(with_line(rest, 0, c), 0) == c.len() - 1,
        with_line(rest, 0, c).skip(c.len() as int) == rest,
{
    let longer = with_line(rest, 0, c);
    assert(longer[0] == c[0]);
    assert(longer[1] == c[1]);
    assert forall|i: int| 0 <= i < c.len() - 1 implies #[trigger] longer[i] != 0x0a by {
        assert(longer[i] == c[i]);
    }
    assert(longer[c.len() - 1] == c[c.len() - 1]);
    lemma_line_end_unique(longer, 0, c.len() - 1);
    assert(longer.skip(c.len() as int) =~= rest);
}

/// A comment line put in at the start of a line changes nothing of the
/// brush that is read off the input but line counts: where it stands
/// inside the brush, or straight after it, the line count after the
/// brush; where it stands later, nothing, and it is still there in what
/// follows the brush.
pub proof fn lemma_planes_comment(
    rest: Seq<u8>,
    p: int,
    c: Seq<u8>,
    line: nat,
    planes: Seq<Seq<VertexView>>,
    verts: Seq<VertexView>,
)
    requires
        is_comment_line(c),
        line_start(rest, p),
    ensures
        match spec_planes(rest, line, planes, verts) {
            Ok(parse) => spec_planes(with_line(rest, p, c), line, planes, verts) == Ok::<
                BrushParse,
                Failure,
            >(
                if p <= rest.len() - parse.rest.len() {
                    BrushParse { planes: parse.planes, rest: parse.rest, line: parse.line + 1 }
                } else {
                    BrushParse {
                        planes: parse.planes,
                        rest: with_line(parse.rest, p - (rest.len() - parse.rest.len()), c),
                        line: parse.line,
                    }
                },
            ),
            Err(_) => spec_planes(with_line(rest, p, c), line, planes, verts) is Err,
        },
    decreases rest.len(),
{
    let longer = with_line(rest, p, c);
    let end = line_end(rest, 0);
    lemma_line_end(rest, 0);
    lemma_planes_rest(rest, line, planes, verts);
    if p == 0 {
        lemma_first_line_added(rest, c);
        lemma_planes_line_shift(rest, line, planes, verts);
    } else {
        lemma_first_line_kept(rest, p, c);
        let next = rest.skip(end + 1);
        let q = p - end - 1;
        if comment_at(rest, 0) {
            lemma_planes_comment(next, q, c, line + 1, planes, verts);
            lemma_planes_rest(next, line + 1, planes, verts);
        } else if verts.len() == 0 && !is_sign(rest[0]) {
        } else if verts.len() > 0 && rest[0] == 0x0a {
            if verts.len() >= 3 {
                lemma_planes_comment(next, q, c, line + 1, planes.push(verts), Seq::empty());
                lemma_planes_rest(
                    next,
                    line + 1,
                    planes.push(verts),
                    Seq::empty(),
                );
            }
        } else {
            match spec_vertex(rest.take(end), true) {
                Ok(vertex) => {
                    lemma_planes_comment(next, q, c, line + 1, planes, verts.push(vertex));
                    lemma_planes_rest(
                        next,
                        line + 1,
                        planes,
                        verts.push(vertex),
                    );
                },
                Err(_) => {},
            }
        }
    }
}

/// A comment line put in at the start of any line of a brushes section
/// changes nothing of what the section parses to but the line counts: the
/// brushes are the same, and a section that fails to parse fails with the
/// comment line too.
pub proof fn lemma_brushes_comment(
    rest: Seq<u8>,
    p: int,
    c: Seq<u8>,
    line: nat,
    brushes: Seq<Seq<Seq<VertexView>>>,
)
    requires
        is_comment_line(c),
        line_start(rest, p),
    ensures
        one_line_later(
            spec_brushes(rest, line, brushes),
            spec_brushes(with_line(rest, p, c), line, brushes),
        ),
    decreases rest.len(),
{
    let longer = with_line(rest, p, c);
    let end = line_end(rest, 0);
    lemma_line_end(rest, 0);
    if p == 0 {
        lemma_first_line_added(rest, c);
        lemma_brushes_line_shift(rest, line, brushes);
    } else {
        lemma_first_line_kept(rest, p, c);
        let next = rest.skip(end + 1);
        let q = p - end - 1;
        if rest[0] == 0x0a {
            lemma_brushes_comment(next, q, c, line + 1, brushes);
        } else if comment_at(rest, 0) {
            lemma_brushes_comment(next, q, c, line + 1, brushes);
        } else if rest[0] == 0x62 && rest.len() > 1 && rest[1] == 0x0a {
            lemma_planes_comment(next, q, c, line + 1, Seq::empty(), Seq::empty());
            lemma_planes_rest(next, line + 1, Seq::empty(), Seq::empty());
            match spec_brush(next, line + 1) {
                Ok(parse) => {
                    let used = next.len() - parse.rest.len();
                    let read = brushes.push(parse.planes);
                    if q <= used {
                        lemma_brushes_line_shift(parse.rest, parse.line, read);
                    } else {
                        assert(parse.rest[q - used - 1] == next[q - 1]);
                        lemma_brushes_comment(parse.rest, q - used, c, parse.line, read);
                    }
                },
                Err(_) => {},
            }
        }
    }
}

/// A comment line put in at the start of any line of the body of the
/// brushes section, with the declared length raised by the length of the
/// comment line, changes nothing of what the section parses to but the
/// line counts: the brushes and the bytes after the body are the same.
pub proof fn lemma_section_comment(
    body: Seq<u8>,
    tail: Seq<u8>,
    p: int,
    c: Seq<u8>,
    line: nat,
)
    requires
        is_comment_line(c),
        line_start(body, p),
    ensures
        match spec_brush_section(body + tail, body.len(), line) {
            Ok((brushes, rest, end_line)) => spec_brush_section(
                with_line(body, p, c) + tail,
                body.len() + c.len(),
                line,
            ) == Ok::<(Seq<Seq<Seq<VertexView>>>, Seq<u8>, nat), Failure>(
                (brushes, rest, end_line + 1),
            ) && rest == tail,
            Err(_) => spec_brush_section(
                with_line(body, p, c) + tail,
                body.len() + c.len(),
                line,
            ) is Err,
        },
{
    let longer = with_line(body, p, c);
    lemma_brushes_comment(body, p, c, line, Seq::empty());
    assert((body + tail).take(body.len() as int) =~= body);
    assert((body + tail).skip(body.len() as int) =~= tail);
    assert((longer + tail).take(longer.len() as int) =~= longer);
    assert((longer + tail).skip(longer.len() as int) =~= tail);
}

/// Whether the parse `later` of a map is the parse `parse` with line
/// counts that may differ: the same map after a success, and a failure
/// after a failure.
pub open spec fn same_map(
    parse: Result<MapView, Failure>,
    later: Result<MapView, Failure>,
) -> bool {
    match parse {
        Ok(map) => later == Ok::<MapView, Failure>(map),
        Err(_) => later is Err,
    }
}

/// The line on which the sections of a map start changes nothing of the
/// map that they parse to.
pub proof fn lemma_sections_line_shift(
    rest: Seq<u8>,
    line: nat,
    brushes: Option<Seq<Seq<Seq<VertexView>>>>,
    entities: Option<Seq<EntityData>>,
)
    ensures
        same_map(
            spec_sections(rest, line, brushes, entities),
            spec_sections(rest, line + 1, brushes, entities),
        ),
    decreases missing_sections(brushes, entities),
{
    reveal_with_fuel(spec_sections, 2);
    reveal_with_fuel(spec_after_brushes, 2);
    if !(brushes is Some && entities is Some) {
        match spec_section_header(header_window(rest), brushes is Some, entities is Some) {
            Ok(header) => {
                let body = rest.skip(header.len as int);
                match header.kind {
                    SectionKind::Entities => {
                        if header.size == 0 {
                            lemma_sections_line_shift(body, line + 1, brushes, Some(Seq::empty()));
                        }
                    },
                    SectionKind::Brushes => {
                        if body.len() >= header.size {
                            let section = body.take(header.size as int);
                            lemma_brushes_line_shift(section, line + 1, Seq::empty());
                            match spec_brushes(section, line + 1, Seq::empty()) {
                                Ok((read, end_line)) => {
                                    lemma_sections_line_shift(
                                        body.skip(header.size as int),
                                        end_line,
                                        Some(read),
                                        entities,
                                    );
                                },
                                Err(_) => {},
                            }
                        }
                    },
                }
            },
            Err(_) => {},
        }
    }
}

/// Two inputs that differ only by a comment line in the body of the
/// brushes section, and by the length that the header of the section
/// declares for it, parse to the same map, or both fail.
///
/// `rest` and `longer` are the inputs from the header of the brushes
/// section on; `header` and `longer_header` are what the two headers
/// declare; `body` is the body of the section in `rest`, `tail` what
/// follows the section in both, `c` the comment line and `p` the index of
/// `body` at which it is put in, the start of a line.
pub proof fn lemma_comment_in_file(
    rest: Seq<u8>,
    longer: Seq<u8>,
    line: nat,
    entities: Option<Seq<EntityData>>,
    header: SectionHeader,
    longer_header: SectionHeader,
    body: Seq<u8>,
    tail: Seq<u8>,
    p: int,
    c: Seq<u8>,
)
    requires
        is_comment_line(c),
        line_start(body, p),
        spec_section_header(header_window(rest), false, entities is Some) == Ok::<
            SectionHeader,
            Fault,
        >(header),
        spec_section_header(header_window(longer), false, entities is Some) == Ok::<
            SectionHeader,
            Fault,
        >(longer_header),
        header.kind == SectionKind::Brushes,
        longer_header.kind == SectionKind::Brushes,
        header.len <= rest.len(),
        longer_header.len <= longer.len(),
        rest.skip(header.len as int) == body + tail,
        longer.skip(longer_header.len as int) == with_line(body, p, c) + tail,
        header.size == body.len(),
        longer_header.size == body.len() + c.len(),
    ensures
        same_map(
            spec_sections(rest, line, None, entities),
            spec_sections(longer, line, None, entities),
        ),
{
    lemma_section_length_exact(rest, line, entities, header, body, tail);
    lemma_section_length_exact(
        longer,
        line,
        entities,
        longer_header,
        with_line(body, p, c),
        tail,
    );
    lemma_brushes_comment(body, p, c, line + 1, Seq::empty());
    match spec_brushes(body, line + 1, Seq::empty()) {
        Ok((brushes, end_line)) => {
            lemma_sections_line_shift(tail, end_line, Some(brushes), entities);
        },
        Err(_) => {},
    }
}

} // verus!
