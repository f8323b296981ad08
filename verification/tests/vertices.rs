use be_engine::brush::{BrushPlane, NGonPlane, TriPlane};
use be_engine::map::data::{EntityData, MapData, PlaneData};
use be_engine::map::error::{Fault, Malformed, Truncated};
use be_engine::map::vertices::{parse_field, parse_vertex};
use be_engine::render::ScreenSpaceMesh;
use be_engine::vertex::{scan_digits, Number, Vertex};

fn vertex(x: &str, y: &str, z: &str) -> Vertex {
    Vertex {
        x: Number::parse(x.as_bytes()).unwrap(),
        y: Number::parse(y.as_bytes()).unwrap(),
        z: Number::parse(z.as_bytes()).unwrap(),
    }
}

#[test]
fn numerals_have_a_sign_and_digits() {
    for text in ["+0", "-0", "+1.5", "-12.0625", "+0001", "-9876543210.0123456789"] {
        let n = Number::parse(text.as_bytes()).unwrap();
        assert_eq!(n.as_bytes().as_slice(), text.as_bytes());
        assert_eq!(n.is_negative(), text.starts_with('-'));
        // What is a numeral here converts to a float.
        assert!(text.parse::<f32>().is_ok());
        assert_eq!(n.clone(), n);
    }
    for text in ["", "+", "-", "1", "1.5", "+.5", "+1.", "+1.2.3", "+1e5", "+ 1", "+1 ", "++1", "+-1", "+1,5", " +1", "+0x10", "+inf", "+NaN"] {
        assert!(Number::parse(text.as_bytes()).is_none(), "{text}");
    }
}

#[test]
fn a_numeral_is_a_whole_number_of_decimal_units() {
    let read = |text: &str| {
        let n = Number::parse(text.as_bytes()).unwrap();
        (n.is_negative(), n.mantissa(), n.scale())
    };
    assert_eq!(read("+0"), (false, Some(0), 0));
    assert_eq!(read("-12"), (true, Some(12), 0));
    assert_eq!(read("+0.50"), (false, Some(50), 2));
    assert_eq!(read("+007.125"), (false, Some(7125), 3));
    assert_eq!(read("-0.0625"), (true, Some(625), 4));
    assert_eq!(read("+18446744073709551615"), (false, Some(u64::MAX), 0));
    assert_eq!(read("+1844674407370955161.5"), (false, Some(u64::MAX), 1));
    assert_eq!(read("+18446744073709551616"), (false, None, 0));
    assert_eq!(read("-1844674407370955161.6"), (true, None, 1));
    assert_eq!(read("+99999999999999999999.5"), (false, None, 1));
    assert_eq!(read("+0.00000000000000000000000000001"), (false, Some(1), 29));
    // The float that the numeral converts to is the mantissa over the power of ten.
    for text in ["+0.50", "-12", "+007.125", "-0.0625", "+3.75"] {
        let (negative, mantissa, scale) = read(text);
        let value = mantissa.unwrap() as f64 / 10f64.powi(scale as i32);
        let value = if negative { -value } else { value };
        assert_eq!(text.parse::<f64>().unwrap(), value);
    }
}

#[test]
fn a_run_of_digits_ends_at_the_first_other_byte() {
    assert_eq!(scan_digits(b"12345", 0), 5);
    assert_eq!(scan_digits(b"123.45", 0), 3);
    assert_eq!(scan_digits(b"123.45", 3), 3);
    assert_eq!(scan_digits(b"123.45", 4), 6);
    assert_eq!(scan_digits(b"123.45", 6), 6);
    assert_eq!(scan_digits(b"/0123456789:", 1), 11);
    assert_eq!(scan_digits(b"", 0), 0);
}

#[test]
fn a_field_ends_with_a_space_or_with_the_line() {
    let (n, end) = parse_field(b"+1.5 -2 +3", true, 0, false).unwrap();
    assert_eq!((n.as_bytes().as_slice(), end), (&b"+1.5"[..], 4));
    let (n, end) = parse_field(b"+1.5 -2 +3", true, 5, false).unwrap();
    assert_eq!((n.as_bytes().as_slice(), end), (&b"-2"[..], 7));
    let (n, end) = parse_field(b"+1.5 -2 +3", true, 8, true).unwrap();
    assert_eq!((n.as_bytes().as_slice(), end), (&b"+3"[..], 10));
    assert_eq!(
        parse_field(b"+1.5 -2 +3", true, 8, false),
        Err(Fault::Malformed(Malformed::Separator { found: b'\n' }))
    );
    assert_eq!(
        parse_field(b"+1.5 -2 +3", true, 5, true),
        Err(Fault::Malformed(Malformed::Separator { found: b' ' }))
    );
    assert_eq!(parse_field(b"+1.5 -2 +3", false, 8, true), Err(Fault::Truncated(Truncated::Vertex)));
    assert_eq!(parse_field(b"+1.5 -2 +3", false, 10, true), Err(Fault::Truncated(Truncated::Vertex)));
    assert_eq!(
        parse_field(b"+1.5 -2 +3", true, 10, true),
        Err(Fault::Malformed(Malformed::Sign { found: b'\n' }))
    );
    assert_eq!(
        parse_field(b"+1.5 -2 +3", true, 1, false),
        Err(Fault::Malformed(Malformed::Sign { found: b'1' }))
    );
}

#[test]
fn a_vertex_line_holds_three_fields() {
    assert_eq!(parse_vertex(b"+0.0 +1.0 -0.5", true), Ok(vertex("+0.0", "+1.0", "-0.5")));
    assert_eq!(parse_vertex(b"-1 -22 -333", true), Ok(vertex("-1", "-22", "-333")));
    assert_eq!(parse_vertex(b"-1 -22 -333", false), Err(Fault::Truncated(Truncated::Vertex)));
    assert_eq!(parse_vertex(b"", false), Err(Fault::Truncated(Truncated::Vertex)));
    assert_eq!(parse_vertex(b"", true), Err(Fault::Malformed(Malformed::Sign { found: b'\n' })));
    assert_eq!(
        parse_vertex(b"+1a.5 +0 +0", true),
        Err(Fault::Malformed(Malformed::Numeral { found: b'a' }))
    );
    assert_eq!(
        parse_vertex(b"+1a.5 +0 +0", false),
        Err(Fault::Malformed(Malformed::Numeral { found: b'a' }))
    );
    assert_eq!(
        parse_vertex(b"1.5 +0 +0", true),
        Err(Fault::Malformed(Malformed::Sign { found: b'1' }))
    );
    assert_eq!(
        parse_vertex(b"+1\t+2\t+3", true),
        Err(Fault::Malformed(Malformed::Numeral { found: b'\t' }))
    );
}

#[test]
fn a_plane_is_closed_over_three_or_more_vertices() {
    let v = |n: usize| -> Vec<Vertex> {
        (0..n).map(|i| vertex(&format!("+{i}"), "-0", "+0.5")).collect()
    };
    assert!(PlaneData::new(v(0)).is_none());
    assert!(PlaneData::new(v(1)).is_none());
    assert!(PlaneData::new(v(2)).is_none());
    let tri = PlaneData::new(v(3)).unwrap();
    assert_eq!(tri.len(), 3);
    assert!(tri.is_triangle());
    assert_eq!(tri.verts(), &v(3));
    let quad = PlaneData::new(v(4)).unwrap();
    assert_eq!(quad.len(), 4);
    assert!(!quad.is_triangle());
    assert_eq!(quad.verts(), &v(4));
}

#[test]
fn a_plane_is_tagged_by_its_shape() {
    let v = |n: usize| -> Vec<Vertex> {
        (0..n).map(|i| vertex(&format!("+{i}"), "-0", "+0.5")).collect()
    };
    match PlaneData::new(v(3)).unwrap().into_brush_plane() {
        BrushPlane::Triangle(TriPlane(verts)) => assert_eq!(verts.to_vec(), v(3)),
        other => panic!("{other:?}"),
    }
    for n in 4..8 {
        let plane = PlaneData::new(v(n)).unwrap().into_brush_plane();
        assert_eq!(plane.len(), n);
        for i in 0..n {
            assert_eq!(plane.index(i), &v(n)[i]);
        }
        match plane {
            BrushPlane::NGon(NGonPlane(verts)) => assert_eq!(verts, v(n)),
            other => panic!("{other:?}"),
        }
    }
    let tri = PlaneData::new(v(3)).unwrap().into_brush_plane();
    assert_eq!(tri.len(), 3);
    assert_eq!(tri.index(0), &v(3)[0]);
    assert_eq!(tri.index(2), &v(3)[2]);
}

#[test]
fn a_map_holds_what_it_was_made_of() {
    let map = MapData::new(vec![EntityData, EntityData], Vec::new());
    assert_eq!(map.entities().len(), 2);
    assert!(map.brushes().is_empty());
}

#[test]
fn a_mesh_keeps_its_planes_in_order() {
    let v = |n: usize| -> Vec<Vertex> {
        (0..n).map(|i| vertex(&format!("+{i}"), "-0", "+0.5")).collect()
    };
    let mut mesh = ScreenSpaceMesh::new();
    assert!(mesh.planes().is_empty());
    let [a, b, c]: [Vertex; 3] = v(3).try_into().unwrap();
    mesh.add_tri(TriPlane([a, b, c]));
    mesh.add_ngon(NGonPlane(v(5)));
    assert_eq!(mesh.planes().len(), 2);
    assert!(matches!(mesh.planes()[0], BrushPlane::Triangle(_)));
    assert_eq!(mesh.planes()[1].len(), 5);
    mesh.clear();
    assert!(mesh.planes().is_empty());
}

#[test]
fn the_simple_mesh_is_one_triangle() {
    let mesh = ScreenSpaceMesh::simple();
    assert_eq!(mesh.planes().len(), 1);
    match &mesh.planes()[0] {
        BrushPlane::Triangle(TriPlane(corners)) => {
            assert_eq!(corners[0], vertex("-0.5", "-0.5", "+0.0"));
            assert_eq!(corners[1], vertex("+0.5", "-0.5", "+0.0"));
            assert_eq!(corners[2], vertex("-0.5", "+0.5", "+0.0"));
        }
        other => panic!("{other:?}"),
    }
}
