//! The plain text of a brushes section, and the law that it parses back
//! to the brushes it was written for.

use vstd::prelude::*;
use crate::map::brushes::{spec_brushes, spec_planes, BrushParse};
use crate::map::data::{brush_well_formed, brushes_well_formed, plane_well_formed, MapView};
use crate::map::error::{Failure, Fault, SectionKind};
use crate::map::header::{
    header_window,
    spec_section_header,
    SectionHeader,
    FILE_HEADER,
    FILE_HEADER_LEN,
};
use crate::map::laws::lemma_section_length_exact;
use crate::map::lines::{comment_at, lemma_line_end_unique, line_end};
use crate::map::parser::{spec_parse_map, spec_sections};
use crate::map::vertices::{spec_field, spec_vertex};
use crate::vertex::{
    decimal,
    digits_len,
    is_digit,
    is_numeral,
    is_sign,
    lemma_digits_len,
    VertexView,
};

verus! {

/// The three numerals of a vertex with single spaces between them.
#[verifier::opaque]
pub open spec fn vertex_text(v: VertexView) -> Seq<u8> {
    v.x + seq![0x20u8] + v.y + seq![0x20u8] + v.z
}

/// The line of a vertex, and `rest` after it.
pub open spec fn vertex_then(v: VertexView, rest: Seq<u8>) -> Seq<u8> {
    vertex_text(v) + seq![0x0au8] + rest
}

/// The lines of the vertices of a plane, the blank line that closes the
/// plane, and `rest` after them.
pub open spec fn plane_then(verts: Seq<VertexView>, rest: Seq<u8>) -> Seq<u8>
    decreases verts.len(),
{
    if verts.len() == 0 {
        seq![0x0au8] + rest
    } else {
        vertex_then(verts[0], plane_then(verts.skip(1), rest))
    }
}

/// The planes of a brush, one after the other, and `rest` after them.
pub open spec fn planes_then(planes: Seq<Seq<VertexView>>, rest: Seq<u8>) -> Seq<u8>
    decreases planes.len(),
{
    if planes.len() == 0 {
        rest
    } else {
        plane_then(planes[0], planes_then(planes.skip(1), rest))
    }
}

/// The brushes of a section, one after the other: for each, the line
/// that opens it and its planes.
pub open spec fn brushes_text(brushes: Seq<Seq<Seq<VertexView>>>) -> Seq<u8>
    decreases brushes.len(),
{
    if brushes.len() == 0 {
        Seq::empty()
    } else {
        seq![0x62u8, 0x0au8] + planes_then(brushes[0], brushes_text(brushes.skip(1)))
    }
}

/// The number of lines that the text of a brush has after the line that opens it.
pub open spec fn planes_lines(planes: Seq<Seq<VertexView>>) -> nat
    decreases planes.len(),
{
    if planes.len() == 0 {
        0
    } else {
        planes[0].len() + 1 + planes_lines(planes.skip(1))
    }
}

/// The number of lines that the text of the brushes has.
pub open spec fn brushes_lines(brushes: Seq<Seq<Seq<VertexView>>>) -> nat
    decreases brushes.len(),
{
    if brushes.len() == 0 {
        0
    } else {
        1 + planes_lines(brushes[0]) + brushes_lines(brushes.skip(1))
    }
}

/// A numeral holds signs, digits and points only: no space and no newline.
pub proof fn lemma_numeral_bytes(t: Seq<u8>)
    requires
        is_numeral(t),
    ensures
        forall|i: int| 0 <= i < t.len() ==> #[trigger] t[i] != 0x20 && t[i] != 0x0a,
{
    let whole = digits_len(t, 1) as int;
    lemma_digits_len(t, 1);
    if 1 + whole < t.len() {
        lemma_digits_len(t, 2 + whole);
    }
    assert forall|i: int| 0 <= i < t.len() implies #[trigger] t[i] != 0x20 && t[i] != 0x0a by {
        if i == 0 {
        } else if i < 1 + whole {
            assert(is_digit(t[i]));
        } else if i == 1 + whole {
        } else {
            assert(is_digit(t[i]));
        }
    }
}

/// A run of digits inside the numeral `n`, which stands in a line after
/// `before` and ahead of a byte that is no digit, is the same run in the line.
pub proof fn lemma_digits_in_line(before: Seq<u8>, n: Seq<u8>, after: Seq<u8>, k: int)
    requires
        0 <= k <= n.len(),
        after.len() > 0 ==> !is_digit(after[0]),
    ensures
        digits_len(before + n + after, before.len() + k) == digits_len(n, k),
    decreases n.len() - k,
{
    let text = before + n + after;
    if k < n.len() {
        assert(text[before.len() + k] == n[k]);
        lemma_digits_in_line(before, n, after, k + 1);
    } else if after.len() > 0 {
        assert(text[before.len() + k] == after[0]);
    }
}

/// A numeral that stands in a line after `before` and ahead of its
/// separator reads as a field that ends where the numeral ends.
pub proof fn lemma_field_of_numeral(before: Seq<u8>, n: Seq<u8>, after: Seq<u8>, last: bool)
    requires
        is_numeral(n),
        !last ==> after.len() > 0 && after[0] == 0x20,
        last ==> after.len() == 0,
    ensures
        spec_field(before + n + after, true, before.len() as int, last) == Ok::<int, Fault>(
            (before.len() + n.len()) as int,
        ),
{
    let text = before + n + after;
    let from = before.len() as int;
    let whole = digits_len(n, 1) as int;
    lemma_digits_len(n, 1);
    lemma_digits_in_line(before, n, after, 1);
    assert(text[from] == n[0]);
    if 1 + whole < n.len() {
        lemma_digits_len(n, 2 + whole);
        lemma_digits_in_line(before, n, after, 2 + whole);
        assert(text[from + 1 + whole] == n[1 + whole]);
    }
    if !last {
        assert(text[from + n.len()] == after[0]);
    }
}

/// The text of a well-formed vertex is a vertex line that reads as the vertex.
pub proof fn lemma_vertex_text_parses(v: VertexView)
    requires
        v.well_formed(),
    ensures
        spec_vertex(vertex_text(v), true) == Ok::<VertexView, Fault>(v),
        vertex_text(v).len() > 0,
        is_sign(vertex_text(v)[0]),
        forall|i: int| 0 <= i < vertex_text(v).len() ==> #[trigger] vertex_text(v)[i] != 0x0a,
{
    reveal(vertex_text);
    let sp = seq![0x20u8];
    let text = vertex_text(v);
    let empty = Seq::<u8>::empty();
    lemma_numeral_bytes(v.x);
    lemma_numeral_bytes(v.y);
    lemma_numeral_bytes(v.z);
    // The first field.
    assert(text =~= empty + v.x + (sp + v.y + sp + v.z));
    lemma_field_of_numeral(empty, v.x, sp + v.y + sp + v.z, false);
    // The second field.
    assert(text =~= (v.x + sp) + v.y + (sp + v.z));
    lemma_field_of_numeral(v.x + sp, v.y, sp + v.z, false);
    // The third field.
    assert(text =~= (v.x + sp + v.y + sp) + v.z + empty);
    lemma_field_of_numeral(v.x + sp + v.y + sp, v.z, empty, true);
    let x_end = v.x.len() as int;
    let y_end = x_end + 1 + v.y.len();
    let z_end = y_end + 1 + v.z.len();
    assert(text.subrange(0, x_end) =~= v.x);
    assert(text.subrange(x_end + 1, y_end) =~= v.y);
    assert(text.subrange(y_end + 1, z_end) =~= v.z);
    assert(text[0] == v.x[0]);
    assert forall|i: int| 0 <= i < text.len() implies #[trigger] text[i] != 0x0a by {
        if i < x_end {
            assert(text[i] == v.x[i]);
        } else if i == x_end {
        } else if i < y_end {
            assert(text[i] == v.y[i - x_end - 1]);
        } else if i == y_end {
        } else {
            assert(text[i] == v.z[i - y_end - 1]);
        }
    }
}

/// A text without a newline, put before a newline and `rest`, is the
/// first line of the whole.
pub proof fn lemma_first_line(text: Seq<u8>, rest: Seq<u8>)
    requires
        forall|i: int| 0 <= i < text.len() ==> #[trigger] text[i] != 0x0a,
    ensures
        line_end(text + seq![0x0au8] + rest, 0) == text.len(),
        (text + seq![0x0au8] + rest).take(text.len() as int) == text,
        (text + seq![0x0au8] + rest).skip(text.len() as int + 1) == rest,
        text.len() > 0 ==> (text + seq![0x0au8] + rest)[0] == text[0],
        text.len() > 1 ==> (text + seq![0x0au8] + rest)[1] == text[1],
{
    let all = text + seq![0x0au8] + rest;
    assert forall|i: int| 0 <= i < text.len() implies #[trigger] all[i] != 0x0a by {
        assert(all[i] == text[i]);
    }
    assert(all[text.len() as int] == 0x0a);
    lemma_line_end_unique(all, 0, text.len() as int);
    assert(all.take(text.len() as int) =~= text);
    assert(all.skip(text.len() as int + 1) =~= rest);
}

/// The line of a well-formed vertex is read as a vertex of the open
/// plane, and reading goes on after it.
pub proof fn lemma_vertex_line_read(
    v: VertexView,
    rest: Seq<u8>,
    line: nat,
    planes: Seq<Seq<VertexView>>,
    verts: Seq<VertexView>,
)
    requires
        v.well_formed(),
    ensures
        spec_planes(vertex_then(v, rest), line, planes, verts) == spec_planes(
            rest,
            line + 1,
            planes,
            verts.push(v),
        ),
{
    lemma_vertex_text_parses(v);
    lemma_first_line(vertex_text(v), rest);
}

/// The text of a plane is read as the plane: its vertices go after the
/// vertices `got` that the open plane has, and the blank line closes it.
pub proof fn lemma_plane_read(
    verts: Seq<VertexView>,
    rest: Seq<u8>,
    line: nat,
    planes: Seq<Seq<VertexView>>,
    got: Seq<VertexView>,
)
    requires
        forall|i: int| 0 <= i < verts.len() ==> (#[trigger] verts[i]).well_formed(),
        got.len() + verts.len() >= 3,
    ensures
        spec_planes(plane_then(verts, rest), line, planes, got) == spec_planes(
            rest,
            line + verts.len() + 1,
            planes.push(got + verts),
            Seq::empty(),
        ),
    decreases verts.len(),
{
    if verts.len() == 0 {
        let all = plane_then(verts, rest);
        assert(all[0] == 0x0a);
        assert(all.skip(1) =~= rest);
        assert(got + verts =~= got);
    } else {
        let next = plane_then(verts.skip(1), rest);
        lemma_vertex_line_read(verts[0], next, line, planes, got);
        lemma_plane_read(verts.skip(1), rest, line + 1, planes, got.push(verts[0]));
        assert(got.push(verts[0]) + verts.skip(1) =~= got + verts);
    }
}

/// Whether a brush ends before `rest`: `rest` starts neither a vertex
/// nor a comment.
pub open spec fn ends_brush(rest: Seq<u8>) -> bool {
    !comment_at(rest, 0) && !(rest.len() > 0 && is_sign(rest[0]))
}

/// The text of the planes of a brush is read as the planes, and the
/// brush ends where what follows them starts no vertex.
pub proof fn lemma_planes_read(
    planes: Seq<Seq<VertexView>>,
    rest: Seq<u8>,
    line: nat,
    done: Seq<Seq<VertexView>>,
)
    requires
        forall|p: int| 0 <= p < planes.len() ==> plane_well_formed(#[trigger] planes[p]),
        done.len() + planes.len() >= 1,
        ends_brush(rest),
    ensures
        spec_planes(planes_then(planes, rest), line, done, Seq::empty()) == Ok::<
            BrushParse,
            Failure,
        >(BrushParse { planes: done + planes, rest, line: line + planes_lines(planes) }),
    decreases planes.len(),
{
    if planes.len() == 0 {
        assert(done + planes =~= done);
    } else {
        let next = planes_then(planes.skip(1), rest);
        assert(plane_well_formed(planes[0]));
        lemma_plane_read(planes[0], next, line, done, Seq::empty());
        assert(Seq::<VertexView>::empty() + planes[0] =~= planes[0]);
        assert forall|p: int| 0 <= p < planes.skip(1).len() implies plane_well_formed(
            #[trigger] planes.skip(1)[p],
        ) by {
            assert(planes.skip(1)[p] == planes[p + 1]);
        }
        lemma_planes_read(
            planes.skip(1),
            rest,
            line + planes[0].len() + 1,
            done.push(planes[0]),
        );
        assert(done.push(planes[0]) + planes.skip(1) =~= done + planes);
    }
}

/// The text of well-formed brushes parses to the brushes: written out
/// plainly, every brush of one or more planes, each of three or more
/// vertices with numerals for coordinates, is read back as it is, after
/// the brushes `read` that were read before.
pub proof fn lemma_brushes_text_parses(
    brushes: Seq<Seq<Seq<VertexView>>>,
    line: nat,
    read: Seq<Seq<Seq<VertexView>>>,
)
    requires
        brushes_well_formed(brushes),
    ensures
        spec_brushes(brushes_text(brushes), line, read) == Ok::<
            (Seq<Seq<Seq<VertexView>>>, nat),
            Failure,
        >((read + brushes, line + brushes_lines(brushes))),
    decreases brushes.len(),
{
    if brushes.len() == 0 {
        assert(read + brushes =~= read);
    } else {
        let text = brushes_text(brushes);
        let rest = brushes_text(brushes.skip(1));
        let inner = planes_then(brushes[0], rest);
        assert(brush_well_formed(brushes[0]));
        assert(ends_brush(rest)) by {
            if brushes.skip(1).len() > 0 {
                assert(rest[0] == 0x62);
                assert(rest[1] == 0x0a);
            }
        }
        assert(text[0] == 0x62);
        assert(text[1] == 0x0a);
        assert(text.skip(2) =~= inner);
        lemma_planes_read(brushes[0], rest, line + 1, Seq::empty());
        assert(Seq::<Seq<VertexView>>::empty() + brushes[0] =~= brushes[0]);
        assert forall|b: int| 0 <= b < brushes.skip(1).len() implies brush_well_formed(
            #[trigger] brushes.skip(1)[b],
        ) by {
            assert(brushes.skip(1)[b] == brushes[b + 1]);
        }
        lemma_brushes_text_parses(
            brushes.skip(1),
            line + 1 + planes_lines(brushes[0]),
            read.push(brushes[0]),
        );
        assert(read.push(brushes[0]) + brushes.skip(1) =~= read + brushes);
    }
}

/// The header of an empty entities section.
pub open spec fn no_entities_text() -> Seq<u8> {
    seq![0x2eu8, 0x45u8, 0x20u8, 0x30u8, 0x0au8]
}

/// The header of an empty entities section reads as one, where the
/// entities section was not declared before.
pub proof fn lemma_no_entities_read(seen_brushes: bool)
    ensures
        spec_section_header(header_window(no_entities_text()), seen_brushes, false) == Ok::<
            SectionHeader,
            Fault,
        >(SectionHeader { kind: SectionKind::Entities, size: 0, len: 5 }),
{
    let text = no_entities_text();
    reveal_with_fuel(digits_len, 3);
    reveal_with_fuel(decimal, 3);
    assert(text.subrange(3, 4) =~= seq![0x30u8]);
    assert(seq![0x30u8].drop_last() =~= Seq::<u8>::empty());
}

/// A map file that is written out plainly parses to what it was written
/// for: the magic header, the header of the brushes section with the
/// length of the text of the brushes, that text, and the header of an
/// empty entities section make the map of these brushes and no entities.
///
/// `header` is what the header of the brushes section declares.
pub proof fn lemma_map_text_parses(
    s: Seq<u8>,
    header: SectionHeader,
    brushes: Seq<Seq<Seq<VertexView>>>,
)
    requires
        brushes_well_formed(brushes),
        s.len() >= FILE_HEADER_LEN + header.len,
        s.take(FILE_HEADER_LEN as int) == FILE_HEADER@,
        spec_section_header(header_window(s.skip(FILE_HEADER_LEN as int)), false, false) == Ok::<
            SectionHeader,
            Fault,
        >(header),
        header.kind == SectionKind::Brushes,
        header.size == brushes_text(brushes).len(),
        s.skip(FILE_HEADER_LEN + header.len) == brushes_text(brushes) + no_entities_text(),
    ensures
        spec_parse_map(s) == Ok::<MapView, Failure>(
            MapView { brushes, entities: Seq::empty() },
        ),
{
    let rest = s.skip(FILE_HEADER_LEN as int);
    let body = brushes_text(brushes);
    let tail = no_entities_text();
    reveal(spec_parse_map);
    assert(rest.skip(header.len as int) =~= s.skip(FILE_HEADER_LEN + header.len));
    lemma_section_length_exact(rest, 2, None, header, body, tail);
    lemma_brushes_text_parses(brushes, 3, Seq::empty());
    assert(Seq::<Seq<Seq<VertexView>>>::empty() + brushes =~= brushes);
    lemma_no_entities_read(true);
    reveal_with_fuel(spec_sections, 2);
    assert(tail.skip(5) =~= Seq::<u8>::empty());
}

} // verus!
